//! Ready-made pipelines composing the stages, and a line-number tracking
//! stage.

use vstd::prelude::*;

use crate::ast::DatumParser;
use crate::ast::DatumValueView;
use crate::byte_decoder::DatumUTF8Decoder;
use crate::decoder::DatumDecoder;
use crate::decoder::DatumDecoderState;
use crate::errors::DatumOffset;
use crate::errors::DatumResult;
use crate::pipe::DatumComposePipe;
use crate::pipe::DatumPipe;
use crate::pipe::PipeStep;
use crate::token::DatumPipeTokenizer;
use crate::token_core::DatumTokenizer;
use crate::token_core::DatumTokenizerState;

verus! {

/// Character to token parsing pipeline.
pub type DatumCharToTokenPipeline = DatumComposePipe<DatumDecoder, DatumPipeTokenizer>;

/// Byte to token parsing pipeline.
pub type DatumByteToTokenPipeline = DatumComposePipe<DatumUTF8Decoder, DatumCharToTokenPipeline>;

/// Character to value parsing pipeline.
pub type DatumCharToValuePipeline = DatumComposePipe<DatumCharToTokenPipeline, DatumParser>;

/// Byte to value parsing pipeline.
pub type DatumByteToValuePipeline = DatumComposePipe<DatumByteToTokenPipeline, DatumParser>;

/// The view of a freshly built character-to-token pipeline.
pub open spec fn char_to_token_initial() -> <DatumCharToTokenPipeline as View>::V {
    (
        DatumDecoder(DatumDecoderState::Normal),
        (Seq::<char>::empty(), DatumTokenizer(DatumTokenizerState::Start)),
    )
}

/// Character to token parsing pipeline: decoder into tokenizer.
pub fn datum_char_to_token_pipeline() -> (r: DatumCharToTokenPipeline)
    ensures
        r@ == char_to_token_initial(),
{
    DatumComposePipe(DatumDecoder::default(), DatumPipeTokenizer::default())
}

/// The view of a freshly built byte-to-token pipeline.
pub open spec fn byte_to_token_initial() -> <DatumByteToTokenPipeline as View>::V {
    ((Seq::<u8>::empty(), 0u64), char_to_token_initial())
}

/// Byte to token parsing pipeline: UTF-8 decoder into decoder into tokenizer.
pub fn datum_byte_to_token_pipeline() -> (r: DatumByteToTokenPipeline)
    ensures
        r@ == byte_to_token_initial(),
{
    DatumComposePipe(DatumUTF8Decoder::default(), datum_char_to_token_pipeline())
}

/// The view of a fresh parser.
pub open spec fn parser_initial() -> (DatumOffset, Seq<Seq<DatumValueView>>) {
    (0u64, Seq::<Seq<DatumValueView>>::empty())
}

/// Character to value parsing pipeline: decoder into tokenizer into parser.
pub fn datum_char_to_value_pipeline() -> (r: DatumCharToValuePipeline)
    ensures
        r@ == (char_to_token_initial(), parser_initial()),
{
    DatumComposePipe(datum_char_to_token_pipeline(), DatumParser::default())
}

/// Byte to value parsing pipeline: UTF-8 decoder into decoder into tokenizer
/// into parser.
pub fn datum_byte_to_value_pipeline() -> (r: DatumByteToValuePipeline)
    ensures
        r@ == (byte_to_token_initial(), parser_initial()),
{
    DatumComposePipe(datum_byte_to_token_pipeline(), DatumParser::default())
}

/// Tracking pipeline stage, counting the line number. The count increases,
/// saturating, each time a newline passes through; the stage is otherwise
/// transparent. Distinct from offsets, which point at constructs: this
/// follows where reading currently is.
#[derive(Clone, Copy, PartialEq, Eq, Structural, Debug)]
pub struct DatumLineNumberTracker {
    /// The current line number.
    line: u32,
}

impl DatumLineNumberTracker {
    /// Creates a new tracker, starting at line 1.
    pub fn new() -> (r: DatumLineNumberTracker)
        ensures
            r@ == 1u32,
    {
        DatumLineNumberTracker { line: 1 }
    }

    /// The line number reading is currently on: 1 plus the number of
    /// newlines passed through, saturating.
    pub fn line_number(&self) -> (r: u32)
        ensures
            r == self@,
    {
        self.line
    }
}

impl View for DatumLineNumberTracker {
    type V = u32;

    closed spec fn view(&self) -> u32 {
        self.line
    }
}

impl DatumPipe for DatumLineNumberTracker {
    type Input = char;

    type Output = char;

    open spec fn pipe_step(pre: u32, at: DatumOffset, i: Option<char>) -> PipeStep<u32, char> {
        match i {
            Some(c) => PipeStep {
                state: if c == '\n' {
                    if pre == 0xffff_ffff {
                        pre
                    } else {
                        (pre + 1) as u32
                    }
                } else {
                    pre
                },
                emitted: seq![(at, c)],
                error: None,
            },
            None => PipeStep { state: pre, emitted: Seq::empty(), error: None },
        }
    }

    fn feed(&mut self, at: DatumOffset, i: Option<char>, out: &mut Vec<(DatumOffset, char)>) -> (r:
        DatumResult<()>) {
        let ghost step = Self::pipe_step(self@, at, crate::pipe::opt_view(i));
        if let Some(c) = i {
            out.push((at, c));
            if c == '\n' {
                if self.line != 0xffff_ffff {
                    self.line = self.line + 1;
                }
            }
            proof {
                assert(crate::pipe::emitted_views(final(out)@) =~= crate::pipe::emitted_views(
                    old(out)@,
                ) + step.emitted);
            }
        } else {
            proof {
                assert(crate::pipe::emitted_views(final(out)@) =~= crate::pipe::emitted_views(
                    old(out)@,
                ) + step.emitted);
            }
        }
        Ok(())
    }
}

} // verus!

//! Datum tokenizer state machine: classified characters in, lexical actions
//! out. The caller owns the token text buffer; the tokenizer tells it which
//! characters to push and when a token is complete.

use vstd::prelude::*;

use crate::char_classes::DatumChar;
use crate::char_classes::DatumCharClass;
use crate::errors::DatumError;
use crate::errors::DatumErrorKind;
use crate::errors::DatumOffset;
use crate::errors::DatumResult;
use crate::errors::interrupted_at;
use crate::pipe::DatumBoundedPipe;
use crate::pipe::DatumPipe;
use crate::pipe::PipeStep;
use crate::pipe::emitted_views;

verus! {

/// Datum token type. This is paired with the token contents, if any.
#[derive(Clone, Copy, PartialEq, Eq, Structural, Debug)]
pub enum DatumTokenType {
    /// String. Buffer contents are the unescaped string contents.
    String,
    /// ID. Buffer contents are the symbol.
    ID,
    /// Special ID. Buffer contents are the symbol text after, but not
    /// including, `#`.
    SpecialID,
    /// Numeric.
    Numeric,
    /// List start. Buffer is empty.
    ListStart,
    /// List end. Buffer is empty.
    ListEnd,
}

/// Tokenizer's state machine.
#[derive(Clone, Copy, PartialEq, Eq, Structural, Debug)]
pub enum DatumTokenizerState {
    /// Skipping whitespace between tokens.
    Start,
    /// Inside a line comment, waiting for a newline.
    LineComment,
    /// Inside a string that began at the carried offset.
    String(DatumOffset),
    /// Accumulating an identifier-like token that began at the carried
    /// offset. The first type is the token's type if it ends here
    /// ("immediate"); the second is its type once more characters follow
    /// ("expanded"). A lone sign is still an ID, but becomes numeric once
    /// anything follows it.
    PotentialIdentifier(DatumOffset, DatumTokenType, DatumTokenType),
}

/// Action output by the tokenizer.
#[derive(Clone, Copy, PartialEq, Eq, Structural, Debug)]
pub enum DatumTokenizerAction {
    /// Push this character to the token buffer. The character given is
    /// always the character at the action's offset.
    Push(char),
    /// Take a token of this type from the buffer, then clear the buffer.
    /// The action's offset is the start of the token.
    Token(DatumTokenType),
}

/// Datum tokenizer state machine.
///
/// This API is a little harder to use than [`crate::token::DatumPipeTokenizer`]
/// but allows complete control over buffer allocation: the caller keeps the
/// characters that [`DatumTokenizerAction::Push`] sends its way, and takes the
/// finished token on [`DatumTokenizerAction::Token`]. Feed `None` at the end
/// of input to receive any final token.
#[derive(Clone, Copy, PartialEq, Eq, Structural, Debug)]
pub struct DatumTokenizer(pub DatumTokenizerState);

impl Default for DatumTokenizer {
    /// A tokenizer between tokens.
    fn default() -> (r: DatumTokenizer)
        ensures
            r == DatumTokenizer(DatumTokenizerState::Start),
    {
        DatumTokenizer(DatumTokenizerState::Start)
    }
}

/// Handling for the start state: the actions emitted and the state entered
/// when a character arrives between tokens. Also used when a character ends
/// a pending identifier-like token and must be re-dispatched as if freshly
/// seen.
pub open spec fn spec_start_feed(at: DatumOffset, chr: DatumChar) -> (
    Seq<(DatumOffset, DatumTokenizerAction)>,
    DatumTokenizerState,
) {
    match chr.spec_class() {
        DatumCharClass::Content => (
            seq![(at, DatumTokenizerAction::Push(chr.spec_char()))],
            DatumTokenizerState::PotentialIdentifier(at, DatumTokenType::ID, DatumTokenType::ID),
        ),
        DatumCharClass::Whitespace => (Seq::empty(), DatumTokenizerState::Start),
        DatumCharClass::Newline => (Seq::empty(), DatumTokenizerState::Start),
        DatumCharClass::LineComment => (Seq::empty(), DatumTokenizerState::LineComment),
        DatumCharClass::String => (Seq::empty(), DatumTokenizerState::String(at)),
        DatumCharClass::ListStart => (
            seq![(at, DatumTokenizerAction::Token(DatumTokenType::ListStart))],
            DatumTokenizerState::Start,
        ),
        DatumCharClass::ListEnd => (
            seq![(at, DatumTokenizerAction::Token(DatumTokenType::ListEnd))],
            DatumTokenizerState::Start,
        ),
        DatumCharClass::SpecialID => (
            Seq::empty(),
            DatumTokenizerState::PotentialIdentifier(
                at,
                DatumTokenType::SpecialID,
                DatumTokenType::SpecialID,
            ),
        ),
        DatumCharClass::Sign => (
            seq![(at, DatumTokenizerAction::Push(chr.spec_char()))],
            DatumTokenizerState::PotentialIdentifier(
                at,
                DatumTokenType::ID,
                DatumTokenType::Numeric,
            ),
        ),
        DatumCharClass::Digit => (
            seq![(at, DatumTokenizerAction::Push(chr.spec_char()))],
            DatumTokenizerState::PotentialIdentifier(
                at,
                DatumTokenType::Numeric,
                DatumTokenType::Numeric,
            ),
        ),
    }
}

/// One step of the tokenizer: the whole behaviour of [`DatumTokenizer::feed`].
/// The only error is an interruption: end of input inside a string.
pub open spec fn tokenizer_step(
    pre: DatumTokenizer,
    at: DatumOffset,
    i: Option<DatumChar>,
) -> PipeStep<DatumTokenizer, DatumTokenizerAction> {
    match pre.0 {
        DatumTokenizerState::Start => match i {
            Some(chr) => {
                let (emitted, state) = spec_start_feed(at, chr);
                PipeStep { state: DatumTokenizer(state), emitted, error: None }
            },
            None => PipeStep { state: pre, emitted: Seq::empty(), error: None },
        },
        DatumTokenizerState::LineComment => match i {
            Some(chr) => if chr.spec_class() == DatumCharClass::Newline {
                PipeStep {
                    state: DatumTokenizer(DatumTokenizerState::Start),
                    emitted: Seq::empty(),
                    error: None,
                }
            } else {
                PipeStep { state: pre, emitted: Seq::empty(), error: None }
            },
            None => PipeStep {
                state: DatumTokenizer(DatumTokenizerState::Start),
                emitted: Seq::empty(),
                error: None,
            },
        },
        DatumTokenizerState::String(start) => match i {
            Some(chr) => if chr.spec_class() == DatumCharClass::String {
                PipeStep {
                    state: DatumTokenizer(DatumTokenizerState::Start),
                    emitted: seq![
                        (start, DatumTokenizerAction::Token(DatumTokenType::String)),
                    ],
                    error: None,
                }
            } else {
                PipeStep {
                    state: pre,
                    emitted: seq![(at, DatumTokenizerAction::Push(chr.spec_char()))],
                    error: None,
                }
            },
            None => PipeStep {
                state: pre,
                emitted: Seq::empty(),
                error: Some(interrupted_at(at)),
            },
        },
        DatumTokenizerState::PotentialIdentifier(start, immediate, expanded) => match i {
            None => PipeStep {
                state: DatumTokenizer(DatumTokenizerState::Start),
                emitted: seq![(start, DatumTokenizerAction::Token(immediate))],
                error: None,
            },
            Some(chr) => if chr.spec_class().spec_potential_identifier() {
                PipeStep {
                    state: DatumTokenizer(
                        DatumTokenizerState::PotentialIdentifier(start, expanded, expanded),
                    ),
                    emitted: seq![(at, DatumTokenizerAction::Push(chr.spec_char()))],
                    error: None,
                }
            } else {
                let (emitted, state) = spec_start_feed(at, chr);
                PipeStep {
                    state: DatumTokenizer(state),
                    emitted: seq![
                        (start, DatumTokenizerAction::Token(immediate)),
                    ] + emitted,
                    error: None,
                }
            },
        },
    }
}

impl DatumTokenizer {
    /// Handling for the start state. This is used both in that state and when
    /// going "through" that state as a character force-closes a pending
    /// token; that character may simultaneously begin the next token, so this
    /// re-dispatch is never skipped.
    pub fn start_feed(
        out: &mut Vec<(DatumOffset, DatumTokenizerAction)>,
        at: DatumOffset,
        chr: DatumChar,
    ) -> (state: DatumTokenizerState)
        ensures
            ({
                let (emitted, st) = spec_start_feed(at, chr);
                &&& final(out)@ == old(out)@ + emitted
                &&& state == st
            }),
    {
        let state = match chr.class() {
            DatumCharClass::Content => {
                out.push((at, DatumTokenizerAction::Push(chr.char())));
                DatumTokenizerState::PotentialIdentifier(
                    at,
                    DatumTokenType::ID,
                    DatumTokenType::ID,
                )
            },
            DatumCharClass::Whitespace => DatumTokenizerState::Start,
            DatumCharClass::Newline => DatumTokenizerState::Start,
            DatumCharClass::LineComment => DatumTokenizerState::LineComment,
            DatumCharClass::String => DatumTokenizerState::String(at),
            DatumCharClass::ListStart => {
                out.push((at, DatumTokenizerAction::Token(DatumTokenType::ListStart)));
                DatumTokenizerState::Start
            },
            DatumCharClass::ListEnd => {
                out.push((at, DatumTokenizerAction::Token(DatumTokenType::ListEnd)));
                DatumTokenizerState::Start
            },
            DatumCharClass::SpecialID => {
                DatumTokenizerState::PotentialIdentifier(
                    at,
                    DatumTokenType::SpecialID,
                    DatumTokenType::SpecialID,
                )
            },
            DatumCharClass::Sign => {
                out.push((at, DatumTokenizerAction::Push(chr.char())));
                DatumTokenizerState::PotentialIdentifier(
                    at,
                    DatumTokenType::ID,
                    DatumTokenType::Numeric,
                )
            },
            DatumCharClass::Digit => {
                out.push((at, DatumTokenizerAction::Push(chr.char())));
                DatumTokenizerState::PotentialIdentifier(
                    at,
                    DatumTokenType::Numeric,
                    DatumTokenType::Numeric,
                )
            },
        };
        proof {
            assert(final(out)@ =~= old(out)@ + spec_start_feed(at, chr).0);
        }
        state
    }
}

impl View for DatumTokenizer {
    type V = DatumTokenizer;

    open spec fn view(&self) -> DatumTokenizer {
        *self
    }
}

impl View for DatumTokenizerAction {
    type V = DatumTokenizerAction;

    open spec fn view(&self) -> DatumTokenizerAction {
        *self
    }
}

impl DatumPipe for DatumTokenizer {
    type Input = DatumChar;

    type Output = DatumTokenizerAction;

    open spec fn pipe_step(pre: DatumTokenizer, at: DatumOffset, i: Option<DatumChar>) -> PipeStep<
        DatumTokenizer,
        DatumTokenizerAction,
    > {
        tokenizer_step(pre, at, i)
    }

    /// Given an incoming character, emits the resulting actions.
    fn feed(
        &mut self,
        at: DatumOffset,
        i: Option<DatumChar>,
        out: &mut Vec<(DatumOffset, DatumTokenizerAction)>,
    ) -> (r: DatumResult<()>) {
        let ghost step = tokenizer_step(*old(self), at, i);
        match self.0 {
            DatumTokenizerState::Start => {
                if let Some(chr) = i {
                    self.0 = Self::start_feed(out, at, chr);
                }
            },
            DatumTokenizerState::LineComment => {
                match i {
                    Some(chr) => {
                        if matches!(chr.class(), DatumCharClass::Newline) {
                            self.0 = DatumTokenizerState::Start;
                        }
                    },
                    None => {
                        self.0 = DatumTokenizerState::Start;
                    },
                }
            },
            DatumTokenizerState::String(start) => {
                match i {
                    Some(chr) => {
                        if matches!(chr.class(), DatumCharClass::String) {
                            out.push((start, DatumTokenizerAction::Token(DatumTokenType::String)));
                            self.0 = DatumTokenizerState::Start;
                        } else {
                            out.push((at, DatumTokenizerAction::Push(chr.char())));
                        }
                    },
                    None => {
                        return Err(
                            DatumError {
                                kind: DatumErrorKind::Interrupted,
                                offset: at,
                                message: "tokenizer: mid-string eof",
                            },
                        );
                    },
                }
            },
            DatumTokenizerState::PotentialIdentifier(start, immediate, expanded) => {
                match i {
                    None => {
                        out.push((start, DatumTokenizerAction::Token(immediate)));
                        self.0 = DatumTokenizerState::Start;
                    },
                    Some(chr) => {
                        if chr.class().potential_identifier() {
                            out.push((at, DatumTokenizerAction::Push(chr.char())));
                            self.0 = DatumTokenizerState::PotentialIdentifier(
                                start,
                                expanded,
                                expanded,
                            );
                        } else {
                            out.push((start, DatumTokenizerAction::Token(immediate)));
                            self.0 = Self::start_feed(out, at, chr);
                        }
                    },
                }
            },
        }
        proof {
            assert(emitted_views(final(out)@) =~= emitted_views(old(out)@) + step.emitted);
        }
        Ok(())
    }
}


impl DatumBoundedPipe for DatumTokenizer {
    /// One character can close a pending token and simultaneously begin or
    /// emit another: at most two actions.
    open spec fn max_outputs_per_step() -> nat {
        2
    }

    proof fn lemma_output_bounded(pre: DatumTokenizer, at: DatumOffset, i: Option<DatumChar>) {
    }
}

} // verus!

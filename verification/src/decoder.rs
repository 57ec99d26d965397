//! Decoder for the Datum encoding layer: raw characters in, classified
//! characters out, resolving backslash escapes.

use vstd::prelude::*;

use crate::char_classes::DatumChar;
use crate::char_classes::DatumCharClass;
use crate::char_classes::classify;
use crate::char_classes::spec_datum_char;
use crate::errors::DatumError;
use crate::errors::DatumErrorKind;
use crate::errors::DatumOffset;
use crate::errors::DatumResult;
use crate::errors::bad_data_at;
use crate::errors::interrupted_at;
use crate::pipe::DatumBoundedPipe;
use crate::pipe::DatumPipe;
use crate::pipe::PipeStep;
use crate::pipe::emitted_views;

verus! {

/// Relies on `char::from_u32`: `Some` exactly for Unicode scalar values
/// (all code points except the surrogate range and values past the last
/// code point), and the returned character has the given value.
pub assume_specification[ core::char::from_u32 ](v: u32) -> (r: Option<char>)
    ensures
        r is Some <==> (v < 0xD800 || (0xE000 <= v && v <= 0x10FFFF)),
        r is Some ==> r.unwrap() as u32 == v,
;

/// Value of a hex digit character (either case), or `None`.
pub open spec fn spec_hex_digit_value(c: char) -> Option<u32> {
    let n = c as u32;
    if 48 <= n && n <= 57 {
        Some((n - 48) as u32)
    } else if 97 <= n && n <= 102 {
        Some((n - 87) as u32)
    } else if 65 <= n && n <= 70 {
        Some((n - 55) as u32)
    } else {
        None
    }
}

/// Value of a hex digit character (either case), or `None`.
pub fn hex_digit_value(c: char) -> (r: Option<u32>)
    ensures
        r == spec_hex_digit_value(c),
{
    let n = c as u32;
    if 48 <= n && n <= 57 {
        Some(n - 48)
    } else if 97 <= n && n <= 102 {
        Some(n - 87)
    } else if 65 <= n && n <= 70 {
        Some(n - 55)
    } else {
        None
    }
}

/// Decoder's state machine.
#[derive(Clone, Copy, PartialEq, Eq, Structural, Debug)]
pub enum DatumDecoderState {
    /// Between escape sequences.
    Normal,
    /// Just after a backslash, which was read at the carried offset.
    Escaping(DatumOffset),
    /// Inside a hex escape that began at the carried offset, with the code
    /// point accumulated so far.
    HexEscape(DatumOffset, u32),
}

/// Decoder for the Datum encoding layer.
///
/// Carriage returns are dropped; an unclassifiable character outside an
/// escape is bad data; a backslash starts an escape, resolved as described in
/// [`decoder_step`]. End of input while inside an escape is an interruption,
/// and resets the state so the decoder can be reused.
#[derive(Clone, Copy, PartialEq, Eq, Structural, Debug)]
pub struct DatumDecoder(pub DatumDecoderState);

impl Default for DatumDecoder {
    /// A decoder in the normal state.
    fn default() -> (r: DatumDecoder)
        ensures
            r == DatumDecoder(DatumDecoderState::Normal),
    {
        DatumDecoder(DatumDecoderState::Normal)
    }
}

/// One step of the decoder: the whole behaviour of [`DatumDecoder::feed`].
pub open spec fn decoder_step(pre: DatumDecoder, at: DatumOffset, i: Option<char>) -> PipeStep<
    DatumDecoder,
    DatumChar,
> {
    match i {
        None => if pre.0 == DatumDecoderState::Normal {
            PipeStep { state: pre, emitted: Seq::empty(), error: None }
        } else {
            PipeStep {
                state: DatumDecoder(DatumDecoderState::Normal),
                emitted: Seq::empty(),
                error: Some(interrupted_at(at)),
            }
        },
        Some(c) => if c == '\r' {
            PipeStep { state: pre, emitted: Seq::empty(), error: None }
        } else {
            match pre.0 {
                DatumDecoderState::Normal => if c == '\\' {
                    PipeStep {
                        state: DatumDecoder(DatumDecoderState::Escaping(at)),
                        emitted: Seq::empty(),
                        error: None,
                    }
                } else {
                    match classify(c) {
                        Some(cl) => PipeStep {
                            state: pre,
                            emitted: seq![(at, spec_datum_char(c, cl))],
                            error: None,
                        },
                        None => PipeStep {
                            state: pre,
                            emitted: Seq::empty(),
                            error: Some(bad_data_at(at)),
                        },
                    }
                },
                DatumDecoderState::Escaping(start) => if c == 'r' {
                    PipeStep {
                        state: DatumDecoder(DatumDecoderState::Normal),
                        emitted: seq![(start, spec_datum_char('\r', DatumCharClass::Content))],
                        error: None,
                    }
                } else if c == 'n' {
                    PipeStep {
                        state: DatumDecoder(DatumDecoderState::Normal),
                        emitted: seq![(start, spec_datum_char('\n', DatumCharClass::Content))],
                        error: None,
                    }
                } else if c == 't' {
                    PipeStep {
                        state: DatumDecoder(DatumDecoderState::Normal),
                        emitted: seq![(start, spec_datum_char('\t', DatumCharClass::Content))],
                        error: None,
                    }
                } else if c == 'x' {
                    PipeStep {
                        state: DatumDecoder(DatumDecoderState::HexEscape(start, 0)),
                        emitted: Seq::empty(),
                        error: None,
                    }
                } else if c == '\n' {
                    PipeStep { state: pre, emitted: Seq::empty(), error: Some(bad_data_at(at)) }
                } else {
                    PipeStep {
                        state: DatumDecoder(DatumDecoderState::Normal),
                        emitted: seq![(start, spec_datum_char(c, DatumCharClass::Content))],
                        error: None,
                    }
                },
                DatumDecoderState::HexEscape(start, v) => if c == ';' {
                    if v < 0xD800 || (0xE000 <= v && v <= 0x10FFFF) {
                        PipeStep {
                            state: DatumDecoder(DatumDecoderState::Normal),
                            emitted: seq![
                                (start, spec_datum_char(v as char, DatumCharClass::Content)),
                            ],
                            error: None,
                        }
                    } else {
                        PipeStep { state: pre, emitted: Seq::empty(), error: Some(bad_data_at(at)) }
                    }
                } else {
                    match spec_hex_digit_value(c) {
                        Some(digit) => PipeStep {
                            state: DatumDecoder(
                                DatumDecoderState::HexEscape(start, (v << 4) | digit),
                            ),
                            emitted: Seq::empty(),
                            error: None,
                        },
                        None => PipeStep {
                            state: pre,
                            emitted: Seq::empty(),
                            error: Some(bad_data_at(at)),
                        },
                    }
                },
            }
        },
    }
}

impl View for DatumDecoder {
    type V = DatumDecoder;

    open spec fn view(&self) -> DatumDecoder {
        *self
    }
}

impl DatumPipe for DatumDecoder {
    type Input = char;

    type Output = DatumChar;

    open spec fn pipe_step(pre: DatumDecoder, at: DatumOffset, i: Option<char>) -> PipeStep<
        DatumDecoder,
        DatumChar,
    > {
        decoder_step(pre, at, i)
    }

    fn feed(&mut self, at: DatumOffset, i: Option<char>, out: &mut Vec<(DatumOffset, DatumChar)>)
        -> (r: DatumResult<()>)
    {
        let c = match i {
            None => {
                if !matches!(self.0, DatumDecoderState::Normal) {
                    self.0 = DatumDecoderState::Normal;
                    return Err(
                        DatumError {
                            kind: DatumErrorKind::Interrupted,
                            offset: at,
                            message: "decoder: interrupted",
                        },
                    );
                } else {
                    proof {
                        assert(emitted_views(final(out)@) =~= emitted_views(old(out)@) + decoder_step(*old(self), at, i).emitted);
                    }
                    return Ok(());
                }
            },
            Some(c) => c,
        };
        if c == '\r' {
            proof {
                assert(emitted_views(final(out)@) =~= emitted_views(old(out)@) + decoder_step(*old(self), at, i).emitted);
            }
            return Ok(());
        }
        let ghost step = decoder_step(*old(self), at, i);
        match self.0 {
            DatumDecoderState::Normal => {
                if c == '\\' {
                    self.0 = DatumDecoderState::Escaping(at);
                } else {
                    match DatumChar::identify(c) {
                        Some(v) => {
                            out.push((at, v));
                            proof {
                                assert(emitted_views(final(out)@) =~= emitted_views(old(out)@) + step.emitted);
                            }
                        },
                        None => {
                            return Err(
                                DatumError {
                                    kind: DatumErrorKind::BadData,
                                    offset: at,
                                    message: "decoder: forbidden character",
                                },
                            );
                        },
                    }
                }
            },
            DatumDecoderState::Escaping(start) => {
                if c == 'r' {
                    out.push((start, DatumChar::content('\r')));
                    self.0 = DatumDecoderState::Normal;
                } else if c == 'n' {
                    out.push((start, DatumChar::content('\n')));
                    self.0 = DatumDecoderState::Normal;
                } else if c == 't' {
                    out.push((start, DatumChar::content('\t')));
                    self.0 = DatumDecoderState::Normal;
                } else if c == 'x' {
                    self.0 = DatumDecoderState::HexEscape(start, 0);
                } else if c == '\n' {
                    return Err(
                        DatumError {
                            kind: DatumErrorKind::BadData,
                            offset: at,
                            message: "decoder: newline in escape sequence",
                        },
                    );
                } else {
                    out.push((start, DatumChar::content(c)));
                    self.0 = DatumDecoderState::Normal;
                }
                proof {
                    assert(emitted_views(final(out)@) =~= emitted_views(old(out)@) + step.emitted);
                }
            },
            DatumDecoderState::HexEscape(start, v) => {
                if c == ';' {
                    match core::char::from_u32(v) {
                        Some(rustchar) => {
                            out.push((start, DatumChar::content(rustchar)));
                            self.0 = DatumDecoderState::Normal;
                            proof {
                                assert(emitted_views(final(out)@) =~= emitted_views(old(out)@) + step.emitted);
                            }
                        },
                        None => {
                            return Err(
                                DatumError {
                                    kind: DatumErrorKind::BadData,
                                    offset: at,
                                    message: "decoder: invalid unicode in hex escape",
                                },
                            );
                        },
                    }
                } else {
                    match hex_digit_value(c) {
                        Some(digit) => {
                            self.0 = DatumDecoderState::HexEscape(start, (v << 4) | digit);
                        },
                        None => {
                            return Err(
                                DatumError {
                                    kind: DatumErrorKind::BadData,
                                    offset: at,
                                    message: "decoder: invalid hex digit",
                                },
                            );
                        },
                    }
                }
            },
        }
        Ok(())
    }
}


impl DatumBoundedPipe for DatumDecoder {
    /// One character in, at most one classified character out.
    open spec fn max_outputs_per_step() -> nat {
        1
    }

    proof fn lemma_output_bounded(pre: DatumDecoder, at: DatumOffset, i: Option<char>) {
    }
}

} // verus!

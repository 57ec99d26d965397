//! UTF-8 stream decoder: raw bytes in, characters out, reassembling
//! multi-byte encodings fed one byte at a time.

use vstd::prelude::*;

use crate::errors::DatumError;
use crate::errors::DatumErrorKind;
use crate::errors::DatumOffset;
use crate::errors::DatumResult;
use crate::errors::bad_data_at;
use crate::errors::interrupted_at;
use crate::pipe::DatumBoundedPipe;
use crate::pipe::DatumPipe;
use crate::pipe::PipeStep;
use crate::pipe::emitted_views;
use crate::pipe::opt_view;

verus! {

broadcast use vstd::utf8::char_u32_cast;

/// Whether a byte can continue a multi-byte encoding.
pub open spec fn is_utf8_continuation(b: u8) -> bool {
    0x80 <= b && b <= 0xBF
}

/// The character a complete, valid UTF-8 byte sequence encodes, or `None`
/// when the sequence is incomplete or can never become a valid encoding:
/// exactly the sequences the standard library accepts as UTF-8. Overlong
/// encodings, surrogate code points and values past the last code point are
/// never valid.
pub open spec fn utf8_complete_char(bytes: Seq<u8>) -> Option<char> {
    if bytes.len() == 1 {
        let b0 = bytes[0];
        if b0 <= 0x7F {
            Some(b0 as char)
        } else {
            None
        }
    } else if bytes.len() == 2 {
        let b0 = bytes[0];
        let b1 = bytes[1];
        if 0xC2 <= b0 && b0 <= 0xDF && is_utf8_continuation(b1) {
            Some((((b0 - 0xC0) as u32 * 0x40) + (b1 - 0x80) as u32) as char)
        } else {
            None
        }
    } else if bytes.len() == 3 {
        let b0 = bytes[0];
        let b1 = bytes[1];
        let b2 = bytes[2];
        let v = ((b0 - 0xE0) as u32 * 0x1000) + ((b1 - 0x80) as u32 * 0x40) + (b2 - 0x80) as u32;
        if 0xE0 <= b0 && b0 <= 0xEF && is_utf8_continuation(b1) && is_utf8_continuation(b2) && 0x800
            <= v && !(0xD800 <= v && v <= 0xDFFF) {
            Some(v as char)
        } else {
            None
        }
    } else if bytes.len() == 4 {
        let b0 = bytes[0];
        let b1 = bytes[1];
        let b2 = bytes[2];
        let b3 = bytes[3];
        let v = ((b0 - 0xF0) as u32 * 0x40000) + ((b1 - 0x80) as u32 * 0x1000) + ((b2
            - 0x80) as u32 * 0x40) + (b3 - 0x80) as u32;
        if 0xF0 <= b0 && b0 <= 0xF4 && is_utf8_continuation(b1) && is_utf8_continuation(b2)
            && is_utf8_continuation(b3) && 0x10000 <= v && v <= 0x10FFFF {
            Some(v as char)
        } else {
            None
        }
    } else {
        None
    }
}

/// The view of a UTF-8 decoder: the buffered bytes of an encoding in
/// progress, and the offset its first byte was read at.
pub type DatumUTF8DecoderScratch = (Seq<u8>, DatumOffset);

/// One step of the UTF-8 decoder: the whole behaviour of
/// [`DatumUTF8Decoder::feed`]. Single bytes below 128 pass through; a
/// continuation byte with nothing buffered, a non-continuation byte inside a
/// sequence, and a buffer that outgrows the longest encoding are bad data;
/// otherwise bytes accumulate until they form a valid encoding, emitted at
/// the offset of its first byte. End of input with a non-empty buffer is an
/// interruption.
pub open spec fn utf8_decoder_step(
    pre: DatumUTF8DecoderScratch,
    at: DatumOffset,
    i: Option<u8>,
) -> PipeStep<DatumUTF8DecoderScratch, char> {
    match i {
        None => if pre.0.len() != 0 {
            PipeStep { state: pre, emitted: Seq::empty(), error: Some(interrupted_at(at)) }
        } else {
            PipeStep { state: pre, emitted: Seq::empty(), error: None }
        },
        Some(byte) => if pre.0.len() >= 4 {
            PipeStep { state: pre, emitted: Seq::empty(), error: Some(bad_data_at(at)) }
        } else if pre.0.len() == 0 {
            if byte <= 127 {
                PipeStep { state: pre, emitted: seq![(at, byte as char)], error: None }
            } else if byte <= 0xBF {
                PipeStep { state: pre, emitted: Seq::empty(), error: Some(bad_data_at(at)) }
            } else {
                PipeStep { state: (seq![byte], at), emitted: Seq::empty(), error: None }
            }
        } else if !is_utf8_continuation(byte) {
            PipeStep { state: pre, emitted: Seq::empty(), error: Some(bad_data_at(at)) }
        } else {
            let nb = pre.0.push(byte);
            match utf8_complete_char(nb) {
                Some(c) => PipeStep {
                    state: (Seq::empty(), pre.1),
                    emitted: seq![(pre.1, c)],
                    error: None,
                },
                None => PipeStep { state: (nb, pre.1), emitted: Seq::empty(), error: None },
            }
        },
    }
}

/// UTF-8 stream decoder: a scratch buffer of at most the four bytes one
/// encoded character can take.
#[derive(Clone, PartialEq, Debug)]
pub struct DatumUTF8Decoder {
    /// Bytes of the encoding in progress.
    buffer: Vec<u8>,
    /// Offset the first buffered byte was read at.
    start: DatumOffset,
}

impl Default for DatumUTF8Decoder {
    /// A decoder with an empty buffer.
    fn default() -> (r: DatumUTF8Decoder)
        ensures
            r@ == (Seq::<u8>::empty(), 0u64),
    {
        DatumUTF8Decoder { buffer: Vec::new(), start: 0 }
    }
}

impl View for DatumUTF8Decoder {
    type V = DatumUTF8DecoderScratch;

    closed spec fn view(&self) -> DatumUTF8DecoderScratch {
        (self.buffer@, self.start)
    }
}

/// The character a complete, valid UTF-8 buffer encodes, executable form.
fn utf8_complete_char_exec(bytes: &Vec<u8>) -> (r: Option<char>)
    ensures
        r == utf8_complete_char(bytes@),
{
    if bytes.len() == 1 {
        let b0 = bytes[0];
        if b0 <= 0x7F {
            Some(b0 as char)
        } else {
            None
        }
    } else if bytes.len() == 2 {
        let b0 = bytes[0];
        let b1 = bytes[1];
        if 0xC2 <= b0 && b0 <= 0xDF && 0x80 <= b1 && b1 <= 0xBF {
            let v: u32 = ((b0 - 0xC0) as u32) * 0x40 + ((b1 - 0x80) as u32);
            match core::char::from_u32(v) {
                Some(c) => {
                    proof {
                        vstd::utf8::char_u32_cast(c, v);
                    }
                    Some(c)
                },
                None => None,
            }
        } else {
            None
        }
    } else if bytes.len() == 3 {
        let b0 = bytes[0];
        let b1 = bytes[1];
        let b2 = bytes[2];
        if 0xE0 <= b0 && b0 <= 0xEF && 0x80 <= b1 && b1 <= 0xBF && 0x80 <= b2 && b2 <= 0xBF {
            let v: u32 = ((b0 - 0xE0) as u32) * 0x1000 + ((b1 - 0x80) as u32) * 0x40 + ((b2
                - 0x80) as u32);
            if 0x800 <= v && !(0xD800 <= v && v <= 0xDFFF) {
                match core::char::from_u32(v) {
                    Some(c) => {
                        proof {
                            vstd::utf8::char_u32_cast(c, v);
                        }
                        Some(c)
                    },
                    None => None,
                }
            } else {
                None
            }
        } else {
            None
        }
    } else if bytes.len() == 4 {
        let b0 = bytes[0];
        let b1 = bytes[1];
        let b2 = bytes[2];
        let b3 = bytes[3];
        if 0xF0 <= b0 && b0 <= 0xF4 && 0x80 <= b1 && b1 <= 0xBF && 0x80 <= b2 && b2 <= 0xBF && 0x80
            <= b3 && b3 <= 0xBF {
            let v: u32 = ((b0 - 0xF0) as u32) * 0x40000 + ((b1 - 0x80) as u32) * 0x1000 + ((b2
                - 0x80) as u32) * 0x40 + ((b3 - 0x80) as u32);
            if 0x10000 <= v && v <= 0x10FFFF {
                match core::char::from_u32(v) {
                    Some(c) => {
                        proof {
                            vstd::utf8::char_u32_cast(c, v);
                        }
                        Some(c)
                    },
                    None => None,
                }
            } else {
                None
            }
        } else {
            None
        }
    } else {
        None
    }
}

impl DatumPipe for DatumUTF8Decoder {
    type Input = u8;

    type Output = char;

    open spec fn pipe_step(
        pre: DatumUTF8DecoderScratch,
        at: DatumOffset,
        i: Option<u8>,
    ) -> PipeStep<DatumUTF8DecoderScratch, char> {
        utf8_decoder_step(pre, at, i)
    }

    fn feed(&mut self, at: DatumOffset, i: Option<u8>, out: &mut Vec<(DatumOffset, char)>) -> (r:
        DatumResult<()>) {
        let ghost step = utf8_decoder_step(old(self)@, at, opt_view(i));
        let byte = match i {
            None => {
                if self.buffer.len() != 0 {
                    return Err(
                        DatumError {
                            kind: DatumErrorKind::Interrupted,
                            offset: at,
                            message: "utf-8 decoder: interrupted sequence",
                        },
                    );
                } else {
                    proof {
                        assert(emitted_views(final(out)@) =~= emitted_views(old(out)@)
                            + step.emitted);
                    }
                    return Ok(());
                }
            },
            Some(b) => b,
        };
        if self.buffer.len() >= 4 {
            // a sequence kept on continuing past the longest encoding
            // without ever becoming valid
            return Err(
                DatumError {
                    kind: DatumErrorKind::BadData,
                    offset: at,
                    message: "utf-8 decoder: overlong sequence",
                },
            );
        } else if self.buffer.len() == 0 {
            if byte <= 127 {
                out.push((at, byte as char));
                proof {
                    assert(emitted_views(final(out)@) =~= emitted_views(old(out)@) + step.emitted);
                }
            } else if byte <= 0xBF {
                return Err(
                    DatumError {
                        kind: DatumErrorKind::BadData,
                        offset: at,
                        message: "utf-8 decoder: continuation at start",
                    },
                );
            } else {
                self.buffer.push(byte);
                self.start = at;
                proof {
                    assert(self@.0 =~= seq![byte]);
                }
            }
        } else if byte < 0x80 || byte > 0xBF {
            return Err(
                DatumError {
                    kind: DatumErrorKind::BadData,
                    offset: at,
                    message: "utf-8 decoder: start byte mid-sequence",
                },
            );
        } else {
            self.buffer.push(byte);
            match utf8_complete_char_exec(&self.buffer) {
                Some(c) => {
                    out.push((self.start, c));
                    self.buffer.clear();
                    proof {
                        assert(self@.0 =~= Seq::<u8>::empty());
                        assert(emitted_views(final(out)@) =~= emitted_views(old(out)@)
                            + step.emitted);
                    }
                },
                None => {
                    proof {
                        assert(emitted_views(final(out)@) =~= emitted_views(old(out)@)
                            + step.emitted);
                    }
                },
            }
        }
        Ok(())
    }
}


impl DatumBoundedPipe for DatumUTF8Decoder {
    /// One byte in, at most one character out.
    open spec fn max_outputs_per_step() -> nat {
        1
    }

    proof fn lemma_output_bounded(
        pre: DatumUTF8DecoderScratch,
        at: DatumOffset,
        i: Option<u8>,
    ) {
    }
}

} // verus!

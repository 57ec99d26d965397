//! Writer assistant: spacing and indentation between written tokens, so that
//! consecutive values re-tokenize as they were written.

use vstd::prelude::*;

use crate::atom::DatumAtom;
use crate::atom::spec_atom_write;
use crate::token::DatumToken;
use crate::token::spec_token_write;
use crate::token_core::DatumTokenType;

verus! {

/// What separates the next token from what was already written.
#[derive(Clone, Copy, PartialEq, Eq, Structural, Debug)]
pub enum DatumWriterState {
    /// Nothing needed: at the start of output or just after a list start.
    Normal,
    /// A space is needed, unless the next token is a list end.
    AfterToken,
    /// A newline was written; the queued indentation is needed.
    QueuedIndent,
}

/// A run of tabs for one indentation level each.
pub open spec fn indent_chars(n: nat) -> Seq<char> {
    Seq::new(n, |i: int| '\t')
}

/// Writer over a stream of tokens: tracks what spacing the next token needs,
/// and the indentation level applied after each newline.
#[derive(Clone, Copy, PartialEq, Eq, Structural, Debug)]
pub struct DatumWriter {
    /// Indentation level applied after a newline.
    pub indent: usize,
    /// Spacing needed before the next token.
    pub state: DatumWriterState,
}

impl Default for DatumWriter {
    /// A writer at the start of output, with no indentation.
    fn default() -> (r: DatumWriter)
        ensures
            r == (DatumWriter { indent: 0, state: DatumWriterState::Normal }),
    {
        DatumWriter { indent: 0, state: DatumWriterState::Normal }
    }
}

/// The spacing the writer emits before a token: nothing at the start of
/// output, a space between tokens (but not before a list end), the queued
/// indentation after a newline.
pub open spec fn whitespace_chars(w: DatumWriter, list_end: bool) -> Seq<char> {
    match w.state {
        DatumWriterState::Normal => Seq::empty(),
        DatumWriterState::AfterToken => if list_end {
            Seq::empty()
        } else {
            seq![' ']
        },
        DatumWriterState::QueuedIndent => indent_chars(w.indent as nat),
    }
}

/// The text the writer emits for a token, and the state it leaves behind:
/// spacing, then the token; nothing is needed after a list start, a space
/// after anything else.
pub open spec fn writer_token_chars(w: DatumWriter, t: crate::token::DatumTokenView) -> Seq<char> {
    whitespace_chars(w, t.token_type() == DatumTokenType::ListEnd) + spec_token_write(t)
}

/// The writer state after a token.
pub open spec fn writer_state_after(w: DatumWriter, tt: DatumTokenType) -> DatumWriter {
    DatumWriter {
        indent: w.indent,
        state: if tt == DatumTokenType::ListStart {
            DatumWriterState::Normal
        } else {
            DatumWriterState::AfterToken
        },
    }
}

/// The text of one comment body: the text with each newline followed by the
/// indentation and a fresh `; `, and a final newline.
pub open spec fn comment_body_chars(text: Seq<char>, indent: nat) -> Seq<char>
    decreases text.len(),
{
    if text.len() == 0 {
        seq!['\n']
    } else if text[0] == '\n' {
        seq!['\n'] + indent_chars(indent) + seq![';', ' '] + comment_body_chars(
            text.skip(1),
            indent,
        )
    } else {
        seq![text[0]] + comment_body_chars(text.skip(1), indent)
    }
}

/// Appends one tab per indentation level.
fn write_indent(n: usize, f: &mut Vec<char>)
    ensures
        final(f)@ == old(f)@ + indent_chars(n as nat),
{
    let mut k: usize = 0;
    while k < n
        invariant
            k <= n,
            f@ == old(f)@ + indent_chars(k as nat),
        decreases n - k,
    {
        f.push('\t');
        k = k + 1;
        proof {
            assert(f@ =~= old(f)@ + indent_chars(k as nat));
        }
    }
}

impl DatumWriter {
    /// Emits the spacing the next token needs and clears it. `list_end` says
    /// the next token is a list end, which needs no separating space.
    pub fn emit_whitespace(&mut self, f: &mut Vec<char>, list_end: bool)
        ensures
            final(f)@ == old(f)@ + whitespace_chars(*old(self), list_end),
            final(self).indent == old(self).indent,
            final(self).state == DatumWriterState::Normal,
    {
        match self.state {
            DatumWriterState::Normal => {},
            DatumWriterState::AfterToken => {
                if !list_end {
                    f.push(' ');
                    proof {
                        assert(f@ =~= old(f)@ + whitespace_chars(*old(self), list_end));
                    }
                }
            },
            DatumWriterState::QueuedIndent => {
                write_indent(self.indent, f);
            },
        }
        self.state = DatumWriterState::Normal;
    }

    /// Writes a token with the spacing it needs.
    pub fn write_token(&mut self, f: &mut Vec<char>, token: &DatumToken)
        ensures
            final(f)@ == old(f)@ + writer_token_chars(*old(self), token@),
            *final(self) == writer_state_after(*old(self), token@.token_type()),
    {
        let tt = token.token_type();
        self.emit_whitespace(f, matches!(tt, DatumTokenType::ListEnd));
        token.write(f);
        self.state = if matches!(tt, DatumTokenType::ListStart) {
            DatumWriterState::Normal
        } else {
            DatumWriterState::AfterToken
        };
    }

    /// Writes an atom with the spacing it needs.
    pub fn write_atom(&mut self, f: &mut Vec<char>, atom: &DatumAtom)
        ensures
            final(f)@ == old(f)@ + whitespace_chars(*old(self), false) + spec_atom_write(atom@),
            *final(self) == (DatumWriter {
                indent: old(self).indent,
                state: DatumWriterState::AfterToken,
            }),
    {
        self.emit_whitespace(f, false);
        atom.write(f);
        self.state = DatumWriterState::AfterToken;
    }

    /// Writes a newline and queues the indentation for what follows.
    pub fn write_newline(&mut self, f: &mut Vec<char>)
        ensures
            final(f)@ == old(f)@ + seq!['\n'],
            *final(self) == (DatumWriter {
                indent: old(self).indent,
                state: DatumWriterState::QueuedIndent,
            }),
    {
        f.push('\n');
        self.state = DatumWriterState::QueuedIndent;
        proof {
            assert(f@ =~= old(f)@ + seq!['\n']);
        }
    }

    /// Writes a line comment, verbatim: `; ` before each line of the text,
    /// the indentation applied at each new line, and a final newline.
    pub fn write_comment(&mut self, f: &mut Vec<char>, text: &Vec<char>)
        ensures
            final(f)@ == old(f)@ + whitespace_chars(*old(self), false) + seq![';', ' ']
                + comment_body_chars(text@, old(self).indent as nat),
            *final(self) == (DatumWriter {
                indent: old(self).indent,
                state: DatumWriterState::QueuedIndent,
            }),
    {
        self.emit_whitespace(f, false);
        f.push(';');
        f.push(' ');
        let ghost base = f@;
        proof {
            assert(text@.skip(0) =~= text@);
        }
        let mut k: usize = 0;
        while k < text.len()
            invariant
                k <= text@.len(),
                base + comment_body_chars(text@, self.indent as nat) == f@ + comment_body_chars(
                    text@.skip(k as int),
                    self.indent as nat,
                ),
                self.indent == old(self).indent,
                base == old(f)@ + whitespace_chars(*old(self), false) + seq![';', ' '],
            decreases text@.len() - k,
        {
            let c = text[k];
            proof {
                assert(text@.skip(k as int)[0] == c);
                assert(text@.skip(k as int).skip(1) =~= text@.skip(k as int + 1));
            }
            if c == '\n' {
                f.push('\n');
                write_indent(self.indent, f);
                f.push(';');
                f.push(' ');
                proof {
                    assert(base + comment_body_chars(text@, self.indent as nat) =~= f@
                        + comment_body_chars(text@.skip(k as int + 1), self.indent as nat));
                }
            } else {
                f.push(c);
                proof {
                    assert(base + comment_body_chars(text@, self.indent as nat) =~= f@
                        + comment_body_chars(text@.skip(k as int + 1), self.indent as nat));
                }
            }
            k = k + 1;
        }
        proof {
            assert(text@.skip(text@.len() as int) =~= Seq::<char>::empty());
        }
        f.push('\n');
        self.state = DatumWriterState::QueuedIndent;
        proof {
            assert(f@ =~= old(f)@ + whitespace_chars(*old(self), false) + seq![';', ' ']
                + comment_body_chars(text@, old(self).indent as nat));
        }
    }
}

} // verus!

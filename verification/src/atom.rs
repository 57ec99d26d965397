//! Atomic Datum values, and the conversion between tokens and atoms: the
//! bridge between the tokenization model and the value model.

use vstd::prelude::*;

use crate::errors::DatumError;
use crate::errors::DatumErrorId;
use crate::errors::DatumErrorKind;
use crate::errors::DatumResult;
use crate::errors::bad_data_at;
use crate::numbers::lower_eq_word;
use crate::numbers::lower_seq;
use crate::numbers::chars_eq_word;
use crate::numbers::parse_i64_hex;
use crate::numbers::spec_i64_text;
use crate::numbers::spec_parse_i64_hex;
use crate::numbers::sign_body;
use crate::token::DatumToken;
use crate::token::DatumTokenView;
use crate::token::float_token_text_wf;
use crate::token::float_write_chars;
use crate::token::string_body_chars;
use crate::token::symbol_write_chars;
use crate::token::write_float_chars;
use crate::numbers::write_i64_dec;
use crate::token::write_string_chars;
use crate::token::write_symbol_chars;

verus! {

/// Atomic Datum value. Accordingly to its place between tokens and trees, it
/// carries no offsets. Floating-point values are carried as validated text,
/// as in [`DatumToken`].
#[derive(Clone, PartialEq, Debug)]
pub enum DatumAtom {
    /// String contents.
    String(Vec<char>),
    /// Symbol text.
    Symbol(Vec<char>),
    /// Integer value.
    Integer(i64),
    /// Floating-point text.
    Float(Vec<char>),
    /// Boolean.
    Boolean(bool),
    /// Nil.
    Nil,
}

/// The view of a [`DatumAtom`]: the same shape with text as character
/// sequences.
#[verifier::ext_equal]
pub enum DatumAtomView {
    /// String contents.
    String(Seq<char>),
    /// Symbol text.
    Symbol(Seq<char>),
    /// Integer value.
    Integer(i64),
    /// Floating-point text.
    Float(Seq<char>),
    /// Boolean.
    Boolean(bool),
    /// Nil.
    Nil,
}

impl View for DatumAtom {
    type V = DatumAtomView;

    open spec fn view(&self) -> DatumAtomView {
        match self {
            DatumAtom::String(b) => DatumAtomView::String(b@),
            DatumAtom::Symbol(b) => DatumAtomView::Symbol(b@),
            DatumAtom::Integer(v) => DatumAtomView::Integer(*v),
            DatumAtom::Float(b) => DatumAtomView::Float(b@),
            DatumAtom::Boolean(b) => DatumAtomView::Boolean(*b),
            DatumAtom::Nil => DatumAtomView::Nil,
        }
    }
}

impl Default for DatumAtom {
    /// Nil.
    fn default() -> (r: Self)
        ensures
            r == DatumAtom::Nil,
    {
        Self::Nil
    }
}

impl DatumAtomView {
    /// Well-formedness: a floating-point atom carries writable text.
    pub open spec fn wf(self) -> bool {
        match self {
            DatumAtomView::Float(t) => float_token_text_wf(t),
            _ => true,
        }
    }
}

/// The atom a token converts to. Strings, symbols and numbers convert
/// directly. A special ID applies the special-ID grammar, all but the empty
/// symbol marker case-insensitively: `t` and `f` are booleans, `nil` is nil,
/// `{}#` is the empty symbol, the three spellings `i+nan.0`, `i+inf.0` and
/// `i-inf.0` are the special floating-point values, and `x` followed by hex
/// digits is a hex integer; anything else is bad data. List punctuation
/// never converts.
pub open spec fn spec_atom_from_token(t: DatumTokenView) -> Result<DatumAtomView, DatumErrorId> {
    match t {
        DatumTokenView::String(_, b) => Ok(DatumAtomView::String(b)),
        DatumTokenView::Symbol(_, b) => Ok(DatumAtomView::Symbol(b)),
        DatumTokenView::SpecialID(at, b) => {
            let lb = lower_seq(b);
            if lb == seq!['t'] {
                Ok(DatumAtomView::Boolean(true))
            } else if lb == seq!['f'] {
                Ok(DatumAtomView::Boolean(false))
            } else if lb == seq!['n', 'i', 'l'] {
                Ok(DatumAtomView::Nil)
            } else if b == seq!['{', '}', '#'] {
                Ok(DatumAtomView::Symbol(Seq::empty()))
            } else if lb == seq!['i', '+', 'n', 'a', 'n', '.', '0'] {
                Ok(DatumAtomView::Float(seq!['n', 'a', 'n']))
            } else if lb == seq!['i', '+', 'i', 'n', 'f', '.', '0'] {
                Ok(DatumAtomView::Float(seq!['i', 'n', 'f']))
            } else if lb == seq!['i', '-', 'i', 'n', 'f', '.', '0'] {
                Ok(DatumAtomView::Float(seq!['-', 'i', 'n', 'f']))
            } else if b.len() > 0 && (b[0] == 'x' || b[0] == 'X') {
                match spec_parse_i64_hex(b.skip(1)) {
                    Some(v) => Ok(DatumAtomView::Integer(v)),
                    None => Err(bad_data_at(at)),
                }
            } else {
                Err(bad_data_at(at))
            }
        },
        DatumTokenView::Integer(_, v) => Ok(DatumAtomView::Integer(v)),
        DatumTokenView::Float(_, b) => Ok(DatumAtomView::Float(b)),
        DatumTokenView::ListStart(at) => Err(bad_data_at(at)),
        DatumTokenView::ListEnd(at) => Err(bad_data_at(at)),
    }
}

/// The text written for an atom: as the corresponding token, with booleans
/// and nil as their special IDs.
pub open spec fn spec_atom_write(a: DatumAtomView) -> Seq<char> {
    match a {
        DatumAtomView::String(b) => seq!['"'] + string_body_chars(b) + seq!['"'],
        DatumAtomView::Symbol(b) => symbol_write_chars(b),
        DatumAtomView::Integer(v) => spec_i64_text(v),
        DatumAtomView::Float(b) => float_write_chars(b),
        DatumAtomView::Boolean(true) => seq!['#', 't'],
        DatumAtomView::Boolean(false) => seq!['#', 'f'],
        DatumAtomView::Nil => seq!['#', 'n', 'i', 'l'],
    }
}

impl DatumAtom {
    /// Tries to convert from a token; see [`spec_atom_from_token`]. Due to
    /// the text involved, this is done by ownership transfer.
    pub fn try_from(token: DatumToken) -> (r: DatumResult<DatumAtom>)
        ensures
            ({
                let sr = spec_atom_from_token(token@);
                match r {
                    Ok(a) => sr == Ok::<DatumAtomView, DatumErrorId>(a@) && (token@.wf()
                        ==> a@.wf()),
                    Err(e) => sr == Err::<DatumAtomView, DatumErrorId>(e.id()),
                }
            }),
    {
        match token {
            DatumToken::String(_, b) => Ok(DatumAtom::String(b)),
            DatumToken::Symbol(_, b) => Ok(DatumAtom::Symbol(b)),
            DatumToken::SpecialID(at, b) => {
                let word_t = vec!['t'];
                let word_f = vec!['f'];
                let word_nil = vec!['n', 'i', 'l'];
                let word_empty = vec!['{', '}', '#'];
                let word_nan = vec!['i', '+', 'n', 'a', 'n', '.', '0'];
                let word_pinf = vec!['i', '+', 'i', 'n', 'f', '.', '0'];
                let word_ninf = vec!['i', '-', 'i', 'n', 'f', '.', '0'];
                proof {
                    assert(word_t@ =~= seq!['t']);
                    assert(word_f@ =~= seq!['f']);
                    assert(word_nil@ =~= seq!['n', 'i', 'l']);
                    assert(word_empty@ =~= seq!['{', '}', '#']);
                    assert(word_nan@ =~= seq!['i', '+', 'n', 'a', 'n', '.', '0']);
                    assert(word_pinf@ =~= seq!['i', '+', 'i', 'n', 'f', '.', '0']);
                    assert(word_ninf@ =~= seq!['i', '-', 'i', 'n', 'f', '.', '0']);
                }
                if lower_eq_word(&b, &word_t) {
                    Ok(DatumAtom::Boolean(true))
                } else if lower_eq_word(&b, &word_f) {
                    Ok(DatumAtom::Boolean(false))
                } else if lower_eq_word(&b, &word_nil) {
                    Ok(DatumAtom::Nil)
                } else if chars_eq_word(&b, &word_empty) {
                    Ok(DatumAtom::Symbol(Vec::new()))
                } else if lower_eq_word(&b, &word_nan) {
                    let fv = vec!['n', 'a', 'n'];
                    proof {
                        assert(fv@ =~= seq!['n', 'a', 'n']);
                        assert(sign_body(fv@) =~= fv@);
                        assert(lower_seq(sign_body(fv@)) =~= seq!['n', 'a', 'n']);
                    }
                    Ok(DatumAtom::Float(fv))
                } else if lower_eq_word(&b, &word_pinf) {
                    let fv = vec!['i', 'n', 'f'];
                    proof {
                        assert(fv@ =~= seq!['i', 'n', 'f']);
                        assert(sign_body(fv@) =~= fv@);
                        assert(lower_seq(sign_body(fv@)) =~= seq!['i', 'n', 'f']);
                    }
                    Ok(DatumAtom::Float(fv))
                } else if lower_eq_word(&b, &word_ninf) {
                    let fv = vec!['-', 'i', 'n', 'f'];
                    proof {
                        assert(fv@ =~= seq!['-', 'i', 'n', 'f']);
                        assert(sign_body(fv@) =~= seq!['i', 'n', 'f']);
                        assert(lower_seq(sign_body(fv@)) =~= seq!['i', 'n', 'f']);
                    }
                    Ok(DatumAtom::Float(fv))
                } else if b.len() > 0 && (b[0] == 'x' || b[0] == 'X') {
                    let mut digits: Vec<char> = Vec::new();
                    let mut k: usize = 1;
                    while k < b.len()
                        invariant
                            1 <= k <= b@.len(),
                            digits@ == b@.subrange(1, k as int),
                        decreases b@.len() - k,
                    {
                        digits.push(b[k]);
                        k = k + 1;
                        proof {
                            assert(digits@ =~= b@.subrange(1, k as int));
                        }
                    }
                    proof {
                        assert(b@.subrange(1, b@.len() as int) =~= b@.skip(1));
                    }
                    match parse_i64_hex(&digits) {
                        Some(v) => Ok(DatumAtom::Integer(v)),
                        None => Err(
                            DatumError {
                                kind: DatumErrorKind::BadData,
                                offset: at,
                                message: "atom: invalid hex integer",
                            },
                        ),
                    }
                } else {
                    Err(
                        DatumError {
                            kind: DatumErrorKind::BadData,
                            offset: at,
                            message: "atom: invalid special ID",
                        },
                    )
                }
            },
            DatumToken::Integer(_, v) => Ok(DatumAtom::Integer(v)),
            DatumToken::Float(_, b) => Ok(DatumAtom::Float(b)),
            DatumToken::ListStart(at) => Err(
                DatumError {
                    kind: DatumErrorKind::BadData,
                    offset: at,
                    message: "atom: token not atomizable",
                },
            ),
            DatumToken::ListEnd(at) => Err(
                DatumError {
                    kind: DatumErrorKind::BadData,
                    offset: at,
                    message: "atom: token not atomizable",
                },
            ),
        }
    }

    /// Writes this atom as valid, parsable Datum text.
    pub fn write(&self, f: &mut Vec<char>)
        ensures
            final(f)@ == old(f)@ + spec_atom_write(self@),
    {
        match self {
            DatumAtom::String(b) => {
                write_string_chars(b, f);
            },
            DatumAtom::Symbol(b) => {
                write_symbol_chars(b, f);
            },
            DatumAtom::Integer(v) => {
                write_i64_dec(*v, f);
            },
            DatumAtom::Float(b) => {
                write_float_chars(b, f);
            },
            DatumAtom::Boolean(v) => {
                f.push('#');
                if *v {
                    f.push('t');
                } else {
                    f.push('f');
                }
                proof {
                    assert(f@ =~= old(f)@ + spec_atom_write(self@));
                }
            },
            DatumAtom::Nil => {
                f.push('#');
                f.push('n');
                f.push('i');
                f.push('l');
                proof {
                    assert(f@ =~= old(f)@ + spec_atom_write(self@));
                }
            },
        }
    }
}


impl DatumAtom {
    /// The string contents, if this atom is a string.
    pub fn as_str(&self) -> (r: Option<&Vec<char>>)
        ensures
            match r {
                Some(b) => self@ == DatumAtomView::String(b@),
                None => !(self@ is String),
            },
    {
        match self {
            DatumAtom::String(b) => Some(b),
            _ => None,
        }
    }

    /// The symbol text, if this atom is a symbol.
    pub fn as_sym(&self) -> (r: Option<&Vec<char>>)
        ensures
            match r {
                Some(b) => self@ == DatumAtomView::Symbol(b@),
                None => !(self@ is Symbol),
            },
    {
        match self {
            DatumAtom::Symbol(b) => Some(b),
            _ => None,
        }
    }

    /// The integer value, if this atom is an integer.
    pub fn as_i64(&self) -> (r: Option<i64>)
        ensures
            match r {
                Some(v) => self@ == DatumAtomView::Integer(v),
                None => !(self@ is Integer),
            },
    {
        match self {
            DatumAtom::Integer(v) => Some(*v),
            _ => None,
        }
    }

    /// The boolean value, if this atom is a boolean.
    pub fn as_bool(&self) -> (r: Option<bool>)
        ensures
            match r {
                Some(v) => self@ == DatumAtomView::Boolean(v),
                None => !(self@ is Boolean),
            },
    {
        match self {
            DatumAtom::Boolean(v) => Some(*v),
            _ => None,
        }
    }

    /// Whether this atom is nil.
    pub fn as_nil(&self) -> (r: Option<()>)
        ensures
            r is Some <==> self@ is Nil,
    {
        match self {
            DatumAtom::Nil => Some(()),
            _ => None,
        }
    }
}

} // verus!

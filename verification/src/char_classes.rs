//! Character classification, and the escape sequences that re-create a
//! classified character when read back.

use vstd::prelude::*;

verus! {

/// Datum character class: the lexical role a decoded character plays.
#[derive(Clone, Copy, PartialEq, Eq, Structural, Debug)]
pub enum DatumCharClass {
    /// Escaped characters, and anything with no other role.
    Content,
    /// Space and tab.
    Whitespace,
    /// Newline.
    Newline,
    /// `;`
    LineComment,
    /// `"`
    String,
    /// `(`
    ListStart,
    /// `)`
    ListEnd,
    /// `#`
    SpecialID,
    /// `-`
    Sign,
    /// `0` to `9`
    Digit,
}

/// Class of an unescaped character, or `None` for characters that may not
/// appear literally: backslash (the escape introducer), control characters
/// below space other than tab and newline, and delete.
pub open spec fn classify(v: char) -> Option<DatumCharClass> {
    let n = v as u32;
    if n == 10 {
        Some(DatumCharClass::Newline)
    } else if n == 9 || n == 32 {
        Some(DatumCharClass::Whitespace)
    } else if n < 32 || n == 127 || n == 92 {
        None
    } else if n == 59 {
        Some(DatumCharClass::LineComment)
    } else if n == 34 {
        Some(DatumCharClass::String)
    } else if n == 40 {
        Some(DatumCharClass::ListStart)
    } else if n == 41 {
        Some(DatumCharClass::ListEnd)
    } else if n == 35 {
        Some(DatumCharClass::SpecialID)
    } else if n == 45 {
        Some(DatumCharClass::Sign)
    } else if 48 <= n && n <= 57 {
        Some(DatumCharClass::Digit)
    } else {
        Some(DatumCharClass::Content)
    }
}

impl DatumCharClass {
    /// Whether this class can continue an identifier-like token.
    pub open spec fn spec_potential_identifier(self) -> bool {
        match self {
            DatumCharClass::Content => true,
            DatumCharClass::Sign => true,
            DatumCharClass::Digit => true,
            DatumCharClass::SpecialID => true,
            _ => false,
        }
    }

    /// If this character class is a potential identifier.
    pub fn potential_identifier(&self) -> (r: bool)
        ensures
            r == self.spec_potential_identifier(),
    {
        matches!(self, Self::Content | Self::Sign | Self::Digit | Self::SpecialID)
    }

    /// Whether this class starts a number.
    pub open spec fn spec_numeric_start(self) -> bool {
        self == DatumCharClass::Sign || self == DatumCharClass::Digit
    }

    /// If this character class starts a number.
    pub fn numeric_start(&self) -> (r: bool)
        ensures
            r == self.spec_numeric_start(),
    {
        matches!(self, Self::Sign | Self::Digit)
    }

    /// Identifies a character. Characters that may not appear literally
    /// return [`None`].
    pub fn identify(v: char) -> (r: Option<Self>)
        ensures
            r == classify(v),
    {
        let n = v as u32;
        if n == 10 {
            Some(DatumCharClass::Newline)
        } else if n == 9 || n == 32 {
            Some(DatumCharClass::Whitespace)
        } else if n < 32 || n == 127 || n == 92 {
            None
        } else if n == 59 {
            Some(DatumCharClass::LineComment)
        } else if n == 34 {
            Some(DatumCharClass::String)
        } else if n == 40 {
            Some(DatumCharClass::ListStart)
        } else if n == 41 {
            Some(DatumCharClass::ListEnd)
        } else if n == 35 {
            Some(DatumCharClass::SpecialID)
        } else if n == 45 {
            Some(DatumCharClass::Sign)
        } else if 48 <= n && n <= 57 {
            Some(DatumCharClass::Digit)
        } else {
            Some(DatumCharClass::Content)
        }
    }
}

/// The character for a hex digit value below 16: `0`-`9` then `a`-`f`.
pub open spec fn spec_hex_digit(v: u8) -> char {
    if v >= 10 {
        (97 + v - 10) as char
    } else {
        (48 + v) as char
    }
}

/// Character for one hex digit value.
fn make_hex_digit(v: u8) -> (r: char)
    requires
        v < 16,
    ensures
        r == spec_hex_digit(v),
{
    if v >= 10 {
        (97u8 + (v - 10)) as char
    } else {
        (48u8 + v) as char
    }
}

/// The text of a hex escape for a byte: backslash, `x`, two digits, `;`.
pub open spec fn hex_escape_chars(v: u8) -> Seq<char> {
    seq!['\\', 'x', spec_hex_digit(v / 16), spec_hex_digit(v % 16), ';']
}

/// Writes a hex escape for a byte.
pub fn datum_write_byte_hex_escape(v: u8, f: &mut Vec<char>)
    ensures
        final(f)@ == old(f)@ + hex_escape_chars(v),
{
    proof {
        assert(v >> 4 == v / 16 && v / 16 < 16) by (bit_vector);
        assert(v & 0xF == v % 16 && v % 16 < 16) by (bit_vector);
    }
    f.push('\\');
    f.push('x');
    f.push(make_hex_digit(v >> 4));
    f.push(make_hex_digit(v & 0xF));
    f.push(';');
    proof {
        assert(f@ =~= old(f)@ + hex_escape_chars(v));
    }
}

/// Datum character paired with its class.
///
/// It is not possible to create a value of this type that the writer cannot
/// re-emit: every constructor establishes [`DatumChar::wf`].
#[derive(Clone, Copy, PartialEq, Eq, Structural, Debug)]
pub struct DatumChar {
    /// The raw value of this character.
    char: char,
    /// The class of this character.
    class: DatumCharClass,
}

/// Specification-level constructor: the classified character with the given
/// raw character and class. [`lemma_datum_char_new`] and
/// [`lemma_datum_char_ext`] characterize it completely.
pub closed spec fn spec_datum_char(c: char, cl: DatumCharClass) -> DatumChar {
    DatumChar { char: c, class: cl }
}

/// The fields of [`spec_datum_char`] are the arguments it was given.
pub broadcast proof fn lemma_datum_char_new(c: char, cl: DatumCharClass)
    ensures
        (#[trigger] spec_datum_char(c, cl)).spec_char() == c,
        spec_datum_char(c, cl).spec_class() == cl,
{
}

/// A classified character is determined by its raw character and class.
pub broadcast proof fn lemma_datum_char_ext(dc: DatumChar)
    ensures
        spec_datum_char(#[trigger] dc.spec_char(), dc.spec_class()) == dc,
{
}

impl DatumChar {
    /// The raw character.
    pub closed spec fn spec_char(self) -> char {
        self.char
    }

    /// The class.
    pub closed spec fn spec_class(self) -> DatumCharClass {
        self.class
    }

    /// A classified character is well-formed when the writer can emit text
    /// that decodes back to the identical pair: either the character is
    /// carried as escapable content, or the class is the character's own.
    pub open spec fn wf(self) -> bool {
        self.spec_class() == DatumCharClass::Content || classify(self.spec_char()) == Some(
            self.spec_class(),
        )
    }

    /// Returns the character in Datum's class/character stream.
    pub fn char(&self) -> (r: char)
        ensures
            r == self.spec_char(),
    {
        self.char
    }

    /// Returns the class in Datum's class/character stream.
    pub fn class(&self) -> (r: DatumCharClass)
        ensures
            r == self.spec_class(),
    {
        self.class
    }

    /// The text the writer emits for this classified character: the character
    /// itself when self-identifying, else an escape that re-creates it as
    /// content.
    pub open spec fn write_chars(self) -> Seq<char> {
        if self.spec_class() == DatumCharClass::Content {
            let c = self.spec_char();
            let n = c as u32;
            if n == 10 {
                seq!['\\', 'n']
            } else if n == 13 {
                seq!['\\', 'r']
            } else if n == 9 {
                seq!['\\', 't']
            } else if n < 32 || n == 127 {
                hex_escape_chars(n as u8)
            } else if classify(c) == Some(DatumCharClass::Content) {
                seq![c]
            } else {
                seq!['\\', c]
            }
        } else {
            seq![self.spec_char()]
        }
    }

    /// Writes the text that will be read back as this [`DatumChar`].
    pub fn write(&self, f: &mut Vec<char>)
        ensures
            final(f)@ == old(f)@ + self.write_chars(),
    {
        let v = self.char;
        let n = v as u32;
        if matches!(self.class, DatumCharClass::Content) {
            if n == 10 {
                f.push('\\');
                f.push('n');
            } else if n == 13 {
                f.push('\\');
                f.push('r');
            } else if n == 9 {
                f.push('\\');
                f.push('t');
            } else if n < 32 || n == 127 {
                datum_write_byte_hex_escape(n as u8, f);
            } else {
                match DatumCharClass::identify(v) {
                    Some(DatumCharClass::Content) => {
                        f.push(v);
                    },
                    _ => {
                        f.push('\\');
                        f.push(v);
                    },
                }
            }
        } else {
            f.push(v);
        }
        proof {
            assert(f@ =~= old(f)@ + self.write_chars());
        }
    }

    /// Identifies an unescaped character and returns the corresponding
    /// [`DatumChar`], or [`None`] for characters that may not appear
    /// literally.
    pub fn identify(v: char) -> (r: Option<DatumChar>)
        ensures
            r == match classify(v) {
                None => None::<DatumChar>,
                Some(cl) => Some(spec_datum_char(v, cl)),
            },
            r is Some ==> r.unwrap().spec_char() == v && classify(v) == Some(r.unwrap().spec_class())
                && r.unwrap().wf(),
    {
        match DatumCharClass::identify(v) {
            None => None,
            Some(class) => Some(DatumChar { char: v, class }),
        }
    }

    /// Creates a content character for the given value.
    pub fn content(v: char) -> (r: DatumChar)
        ensures
            r == spec_datum_char(v, DatumCharClass::Content),
            r.spec_char() == v,
            r.spec_class() == DatumCharClass::Content,
            r.wf(),
    {
        DatumChar { char: v, class: DatumCharClass::Content }
    }

    /// The classified character that string writing emits for a payload
    /// character: content for the few force-escaped characters and for
    /// unclassifiable ones, the character's own class otherwise.
    pub open spec fn spec_string_content(v: char) -> DatumChar {
        let n = v as u32;
        if n == 10 || n == 9 || n == 34 {
            spec_datum_char(v, DatumCharClass::Content)
        } else {
            match classify(v) {
                None => spec_datum_char(v, DatumCharClass::Content),
                Some(c) => spec_datum_char(v, c),
            }
        }
    }

    /// Creates a reasonable string-content character for the given value.
    /// Used in string writing.
    pub fn string_content(v: char) -> (r: DatumChar)
        ensures
            r == Self::spec_string_content(v),
            r.spec_char() == v,
            r.wf(),
    {
        let n = v as u32;
        if n == 10 || n == 9 || n == 34 {
            Self::content(v)
        } else {
            match Self::identify(v) {
                None => Self::content(v),
                Some(rchr) => rchr,
            }
        }
    }

    /// The classified character that identifier writing emits for a payload
    /// character: the character's own class when that class can continue an
    /// identifier, content otherwise.
    pub open spec fn spec_potential_identifier(v: char) -> DatumChar {
        match classify(v) {
            None => spec_datum_char(v, DatumCharClass::Content),
            Some(c) => if c.spec_potential_identifier() {
                spec_datum_char(v, c)
            } else {
                spec_datum_char(v, DatumCharClass::Content)
            },
        }
    }

    /// Creates a potential identifier character for the given value.
    pub fn potential_identifier(v: char) -> (r: DatumChar)
        ensures
            r == Self::spec_potential_identifier(v),
            r.spec_char() == v,
            r.wf(),
    {
        match Self::identify(v) {
            None => Self::content(v),
            Some(rchr) => if rchr.class().potential_identifier() {
                rchr
            } else {
                Self::content(v)
            },
        }
    }
}

impl View for DatumChar {
    type V = DatumChar;

    open spec fn view(&self) -> DatumChar {
        *self
    }
}

impl Default for DatumChar {
    /// Whitespace `' '`, which cannot corrupt surrounding output.
    fn default() -> (r: Self)
        ensures
            r.spec_char() == ' ',
            r.spec_class() == DatumCharClass::Whitespace,
            r.wf(),
    {
        DatumChar { char: ' ', class: DatumCharClass::Whitespace }
    }
}

} // verus!

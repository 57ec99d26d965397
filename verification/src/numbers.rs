//! Numeric token text: decimal and hex integer parsing and formatting, and
//! the syntax check for floating-point token text.
//!
//! Numbers in Datum tokens are resolved at tokenization time, so that every
//! constructible token is writable. Integers are parsed and written here;
//! floating-point values are carried as their text, validated against the
//! grammar below, since their numeric value plays no role in the codec.

use vstd::prelude::*;

use crate::char_classes::spec_hex_digit;
use crate::decoder::hex_digit_value;
use crate::decoder::spec_hex_digit_value;

verus! {

/// Whether a character is a decimal digit.
pub open spec fn is_dec_digit(c: char) -> bool {
    48 <= (c as u32) && (c as u32) <= 57
}

/// Value of a decimal digit character.
pub open spec fn dec_digit_val(c: char) -> nat {
    ((c as u32) - 48) as nat
}

/// Whether every character of the sequence is a decimal digit.
pub open spec fn all_dec_digits(s: Seq<char>) -> bool {
    forall|k: int| 0 <= k < s.len() ==> is_dec_digit(#[trigger] s[k])
}

/// The number a sequence of decimal digits denotes.
pub open spec fn dec_digits_value(s: Seq<char>) -> nat
    decreases s.len(),
{
    if s.len() == 0 {
        0
    } else {
        dec_digits_value(s.drop_last()) * 10 + dec_digit_val(s.last())
    }
}

/// The decimal digits of a number, most significant first.
pub open spec fn dec_digits(n: nat) -> Seq<char>
    decreases n,
{
    if n < 10 {
        seq![spec_hex_digit(n as u8)]
    } else {
        dec_digits(n / 10).push(spec_hex_digit((n % 10) as u8))
    }
}

/// The decimal text of a signed 64-bit integer: a minus sign when negative,
/// then the digits of its magnitude.
pub open spec fn spec_i64_text(v: i64) -> Seq<char> {
    if v < 0 {
        seq!['-'] + dec_digits((-(v as int)) as nat)
    } else {
        dec_digits(v as nat)
    }
}

/// What decimal text denotes a signed 64-bit integer: an optional sign,
/// then at least one decimal digit, denoting a value in range.
pub open spec fn spec_parse_i64(s: Seq<char>) -> Option<i64> {
    let signed = s.len() > 0 && (s[0] == '+' || s[0] == '-');
    let neg = s.len() > 0 && s[0] == '-';
    let ds = if signed {
        s.skip(1)
    } else {
        s
    };
    if ds.len() > 0 && all_dec_digits(ds) {
        let mag = dec_digits_value(ds);
        if neg && mag <= 0x8000_0000_0000_0000 {
            Some((-(mag as int)) as i64)
        } else if !neg && mag <= 0x7fff_ffff_ffff_ffff {
            Some(mag as i64)
        } else {
            None
        }
    } else {
        None
    }
}

/// A digit sequence denotes at least what any of its prefixes denotes.
proof fn lemma_dec_digits_value_mono(s: Seq<char>, k: int)
    requires
        0 <= k <= s.len(),
    ensures
        dec_digits_value(s.take(k)) <= dec_digits_value(s),
    decreases s.len() - k,
{
    if k < s.len() {
        assert(s.take(k + 1).drop_last() =~= s.take(k));
        assert(dec_digits_value(s.take(k)) <= dec_digits_value(s.take(k + 1)));
        lemma_dec_digits_value_mono(s, k + 1);
    } else {
        assert(s.take(k) =~= s);
    }
}

/// The digits of a number denote that number, and are at least one plain
/// digit.
pub proof fn lemma_dec_digits_denote(n: nat)
    ensures
        all_dec_digits(dec_digits(n)),
        dec_digits_value(dec_digits(n)) == n,
        dec_digits(n).len() >= 1,
        is_dec_digit(dec_digits(n)[0]),
    decreases n,
{
    if n < 10 {
        assert(dec_digits(n) =~= seq![spec_hex_digit(n as u8)]);
        assert(dec_digits_value(dec_digits(n).drop_last()) == 0);
    } else {
        lemma_dec_digits_denote(n / 10);
        let whole = dec_digits(n);
        let prefix = dec_digits(n / 10);
        assert(whole =~= prefix.push(spec_hex_digit((n % 10) as u8)));
        assert(whole.drop_last() =~= prefix);
        assert(is_dec_digit(spec_hex_digit((n % 10) as u8)));
        assert(dec_digit_val(spec_hex_digit((n % 10) as u8)) == n % 10);
        assert(forall|k: int|
            0 <= k < whole.len() ==> is_dec_digit(#[trigger] whole[k]));
    }
}

/// Writing an integer and parsing the text back gives the integer: the
/// numeric-fidelity law for integers, at the level of digits.
pub proof fn lemma_i64_text_round_trip(v: i64)
    ensures
        spec_parse_i64(spec_i64_text(v)) == Some(v),
{
    if v < 0 {
        let mag = (-(v as int)) as nat;
        lemma_dec_digits_denote(mag);
        let text = spec_i64_text(v);
        assert(text[0] == '-');
        assert(text.skip(1) =~= dec_digits(mag));
    } else {
        lemma_dec_digits_denote(v as nat);
        let text = spec_i64_text(v);
        assert(is_dec_digit(text[0]));
        assert(text[0] != '-');
    }
}

/// Appends the decimal digits of a number, most significant first.
fn push_dec_digits(n: u64, out: &mut Vec<char>)
    ensures
        final(out)@ == old(out)@ + dec_digits(n as nat),
    decreases n,
{
    if n < 10 {
        out.push((48u8 + (n as u8)) as char);
        proof {
            assert(final(out)@ =~= old(out)@ + dec_digits(n as nat));
        }
    } else {
        push_dec_digits(n / 10, out);
        out.push((48u8 + ((n % 10) as u8)) as char);
        proof {
            assert(final(out)@ =~= old(out)@ + dec_digits(n as nat));
        }
    }
}

/// Appends the decimal text of a signed 64-bit integer.
pub fn write_i64_dec(v: i64, out: &mut Vec<char>)
    ensures
        final(out)@ == old(out)@ + spec_i64_text(v),
{
    if v < 0 {
        out.push('-');
        let mag: u64 = if v == i64::MIN {
            0x8000_0000_0000_0000u64
        } else {
            (-v) as u64
        };
        push_dec_digits(mag, out);
        proof {
            assert(final(out)@ =~= old(out)@ + spec_i64_text(v));
        }
    } else {
        push_dec_digits(v as u64, out);
    }
}

/// Parses decimal text as a signed 64-bit integer: an optional sign, then
/// at least one decimal digit, rejecting values out of range.
pub fn parse_i64_dec(s: &Vec<char>) -> (r: Option<i64>)
    ensures
        r == spec_parse_i64(s@),
{
    let signed = s.len() > 0 && (s[0] == '+' || s[0] == '-');
    let neg = s.len() > 0 && s[0] == '-';
    let start: usize = if signed {
        1
    } else {
        0
    };
    if s.len() == start {
        return None;
    }
    let ghost ds = s@.skip(start as int);
    proof {
        if !signed {
            assert(ds =~= s@);
        }
    }
    let mut acc: u64 = 0;
    let mut k: usize = start;
    while k < s.len()
        invariant
            start <= k <= s@.len(),
            start == if signed { 1int } else { 0int },
            signed == (s@.len() > 0 && (s@[0] == '+' || s@[0] == '-')),
            neg == (s@.len() > 0 && s@[0] == '-'),
            ds == s@.skip(start as int),
            all_dec_digits(ds.take(k - start)),
            acc == dec_digits_value(ds.take(k - start)),
        decreases s@.len() - k,
    {
        let c = s[k];
        let n = c as u32;
        if !(48 <= n && n <= 57) {
            proof {
                assert(!is_dec_digit(ds[k - start]));
                assert(!all_dec_digits(ds));
                if !signed {
                    assert(ds =~= s@);
                } else {
                    assert(ds =~= s@.skip(1));
                }
            }
            return None;
        }
        let d = (n - 48) as u64;
        if acc > 0xffff_ffff_ffff_ffff / 10 || 10 * acc > 0xffff_ffff_ffff_ffff - d {
            // the digits seen so far already denote more than any 64-bit
            // integer, and further digits cannot shrink the value
            proof {
                assert(ds.take(k - start + 1).drop_last() =~= ds.take(k - start));
                assert(dec_digits_value(ds.take(k - start + 1)) > 0x8000_0000_0000_0000);
                lemma_dec_digits_value_mono(ds, k - start + 1);
                if all_dec_digits(ds) {
                    assert(dec_digits_value(ds) > 0x8000_0000_0000_0000);
                }
                if !signed {
                    assert(ds =~= s@);
                } else {
                    assert(ds =~= s@.skip(1));
                }
            }
            return None;
        }
        acc = 10 * acc + d;
        k = k + 1;
        proof {
            assert(ds.take(k - start).drop_last() =~= ds.take(k - start - 1));
            assert(ds.take(k - start).last() == c);
        }
    }
    proof {
        assert(ds.take(s@.len() - start) =~= ds);
        if !signed {
            assert(ds =~= s@);
            assert(s@[0] != '-' && s@[0] != '+');
        } else {
            assert(ds =~= s@.skip(1));
        }
    }
    if neg {
        if acc > 0x8000_0000_0000_0000u64 {
            return None;
        }
        if acc == 0x8000_0000_0000_0000u64 {
            return Some(i64::MIN);
        }
        Some(-(acc as i64))
    } else {
        if acc > 0x7fff_ffff_ffff_ffffu64 {
            return None;
        }
        Some(acc as i64)
    }
}


/// Whether every character of the sequence is a hex digit (either case).
pub open spec fn all_hex_digits(s: Seq<char>) -> bool {
    forall|k: int| 0 <= k < s.len() ==> spec_hex_digit_value(#[trigger] s[k]) is Some
}

/// The number a sequence of hex digits denotes.
pub open spec fn hex_digits_value(s: Seq<char>) -> nat
    decreases s.len(),
{
    if s.len() == 0 {
        0
    } else {
        hex_digits_value(s.drop_last()) * 16 + spec_hex_digit_value(s.last()).unwrap_or(0) as nat
    }
}

/// A hex digit sequence denotes at least what any of its prefixes denotes.
proof fn lemma_hex_digits_value_mono(s: Seq<char>, k: int)
    requires
        0 <= k <= s.len(),
    ensures
        hex_digits_value(s.take(k)) <= hex_digits_value(s),
    decreases s.len() - k,
{
    if k < s.len() {
        assert(s.take(k + 1).drop_last() =~= s.take(k));
        assert(hex_digits_value(s.take(k)) <= hex_digits_value(s.take(k + 1)));
        lemma_hex_digits_value_mono(s, k + 1);
    } else {
        assert(s.take(k) =~= s);
    }
}

/// What hex text denotes a signed 64-bit integer: an optional sign, then at
/// least one hex digit of either case, denoting a value in range.
pub open spec fn spec_parse_i64_hex(s: Seq<char>) -> Option<i64> {
    let signed = s.len() > 0 && (s[0] == '+' || s[0] == '-');
    let neg = s.len() > 0 && s[0] == '-';
    let ds = if signed {
        s.skip(1)
    } else {
        s
    };
    if ds.len() > 0 && all_hex_digits(ds) {
        let mag = hex_digits_value(ds);
        if neg && mag <= 0x8000_0000_0000_0000 {
            Some((-(mag as int)) as i64)
        } else if !neg && mag <= 0x7fff_ffff_ffff_ffff {
            Some(mag as i64)
        } else {
            None
        }
    } else {
        None
    }
}

/// Parses hex text as a signed 64-bit integer: an optional sign, then at
/// least one hex digit of either case, rejecting values out of range.
pub fn parse_i64_hex(s: &Vec<char>) -> (r: Option<i64>)
    ensures
        r == spec_parse_i64_hex(s@),
{
    let signed = s.len() > 0 && (s[0] == '+' || s[0] == '-');
    let neg = s.len() > 0 && s[0] == '-';
    let start: usize = if signed {
        1
    } else {
        0
    };
    if s.len() == start {
        return None;
    }
    let ghost ds = s@.skip(start as int);
    proof {
        if !signed {
            assert(ds =~= s@);
        }
    }
    let mut acc: u64 = 0;
    let mut k: usize = start;
    while k < s.len()
        invariant
            start <= k <= s@.len(),
            start == if signed { 1int } else { 0int },
            signed == (s@.len() > 0 && (s@[0] == '+' || s@[0] == '-')),
            neg == (s@.len() > 0 && s@[0] == '-'),
            ds == s@.skip(start as int),
            all_hex_digits(ds.take(k - start)),
            acc == hex_digits_value(ds.take(k - start)),
        decreases s@.len() - k,
    {
        let c = s[k];
        let d = match hex_digit_value(c) {
            Some(d) => d as u64,
            None => {
                proof {
                    assert(spec_hex_digit_value(ds[k - start]) is None);
                    assert(!all_hex_digits(ds));
                    if !signed {
                        assert(ds =~= s@);
                    } else {
                        assert(ds =~= s@.skip(1));
                    }
                }
                return None;
            },
        };
        if acc > 0xffff_ffff_ffff_ffff / 16 || 16 * acc > 0xffff_ffff_ffff_ffff - d {
            // the digits seen so far already denote more than any 64-bit
            // integer, and further digits cannot shrink the value
            proof {
                assert(ds.take(k - start + 1).drop_last() =~= ds.take(k - start));
                assert(hex_digits_value(ds.take(k - start + 1)) > 0x8000_0000_0000_0000);
                lemma_hex_digits_value_mono(ds, k - start + 1);
                if all_hex_digits(ds) {
                    assert(hex_digits_value(ds) > 0x8000_0000_0000_0000);
                }
                if !signed {
                    assert(ds =~= s@);
                } else {
                    assert(ds =~= s@.skip(1));
                }
            }
            return None;
        }
        acc = 16 * acc + d;
        k = k + 1;
        proof {
            assert(ds.take(k - start).drop_last() =~= ds.take(k - start - 1));
            assert(ds.take(k - start).last() == c);
        }
    }
    proof {
        assert(ds.take(s@.len() - start) =~= ds);
        if !signed {
            assert(ds =~= s@);
            assert(s@[0] != '-' && s@[0] != '+');
        } else {
            assert(ds =~= s@.skip(1));
        }
    }
    if neg {
        if acc > 0x8000_0000_0000_0000u64 {
            return None;
        }
        if acc == 0x8000_0000_0000_0000u64 {
            return Some(i64::MIN);
        }
        Some(-(acc as i64))
    } else {
        if acc > 0x7fff_ffff_ffff_ffffu64 {
            return None;
        }
        Some(acc as i64)
    }
}

/// The lower-case form of an ASCII letter; other characters unchanged.
pub open spec fn spec_ascii_lower(c: char) -> char {
    let n = c as u32;
    if 65 <= n && n <= 90 {
        ((n + 32) as u8) as char
    } else {
        c
    }
}

/// Lower-cases ASCII letters.
fn ascii_lower(c: char) -> (r: char)
    ensures
        r == spec_ascii_lower(c),
{
    let n = c as u32;
    if 65 <= n && n <= 90 {
        ((n + 32) as u8) as char
    } else {
        c
    }
}

/// A sequence lower-cased character by character.
pub open spec fn lower_seq(s: Seq<char>) -> Seq<char> {
    s.map_values(|c: char| spec_ascii_lower(c))
}

/// The body of numeric text: what follows an optional leading sign.
pub open spec fn sign_body(s: Seq<char>) -> Seq<char> {
    if s.len() > 0 && (s[0] == '+' || s[0] == '-') {
        s.skip(1)
    } else {
        s
    }
}

/// Whether the text is a not-a-number spelling: an optional sign, then
/// `nan` in either case.
pub open spec fn float_text_is_nan(s: Seq<char>) -> bool {
    lower_seq(sign_body(s)) == seq!['n', 'a', 'n']
}

/// Whether the text is an infinity spelling: an optional sign, then `inf`
/// or `infinity` in either case.
pub open spec fn float_text_is_inf(s: Seq<char>) -> bool {
    let b = lower_seq(sign_body(s));
    b == seq!['i', 'n', 'f'] || b == seq!['i', 'n', 'f', 'i', 'n', 'i', 't', 'y']
}

/// Whether numeric text denotes a negative value or spelling.
pub open spec fn float_text_negative(s: Seq<char>) -> bool {
    s.len() > 0 && s[0] == '-'
}

/// One transition of the recognizer for finite floating-point number bodies.
/// The grammar is digits, an optional dot with optional further digits (or a
/// dot followed by digits), then an optional exponent: `e` or `E`, an
/// optional sign, digits. States: 0 start, 1 integer digits (accepting),
/// 2 after a leading dot, 3 after a dot (accepting), 4 after the exponent
/// letter, 5 after the exponent sign, 6 exponent digits (accepting),
/// 7 rejected.
pub open spec fn float_dfa(st: u8, c: char) -> u8 {
    let digit = is_dec_digit(c);
    if st == 0 {
        if digit {
            1
        } else if c == '.' {
            2
        } else {
            7
        }
    } else if st == 1 {
        if digit {
            1
        } else if c == '.' {
            3
        } else if c == 'e' || c == 'E' {
            4
        } else {
            7
        }
    } else if st == 2 {
        if digit {
            3
        } else {
            7
        }
    } else if st == 3 {
        if digit {
            3
        } else if c == 'e' || c == 'E' {
            4
        } else {
            7
        }
    } else if st == 4 {
        if digit {
            6
        } else if c == '+' || c == '-' {
            5
        } else {
            7
        }
    } else if st == 5 {
        if digit {
            6
        } else {
            7
        }
    } else if st == 6 {
        if digit {
            6
        } else {
            7
        }
    } else {
        7
    }
}

/// The recognizer state after reading the whole sequence from state 0.
pub open spec fn float_dfa_run(s: Seq<char>) -> u8
    decreases s.len(),
{
    if s.len() == 0 {
        0
    } else {
        float_dfa(float_dfa_run(s.drop_last()), s.last())
    }
}

/// Whether the text is a finite floating-point number: an optional sign,
/// then a body the recognizer accepts.
pub open spec fn float_text_is_number(s: Seq<char>) -> bool {
    let f = float_dfa_run(sign_body(s));
    f == 1 || f == 3 || f == 6
}

/// Whether text reads back as a floating-point value: an optional sign, then
/// a not-a-number spelling, an infinity spelling, or a finite number.
pub open spec fn float_text_wf(s: Seq<char>) -> bool {
    float_text_is_nan(s) || float_text_is_inf(s) || float_text_is_number(s)
}

/// Whether the lower-cased body of `s` is exactly `word`.
fn body_is_word(s: &Vec<char>, start: usize, word: &Vec<char>) -> (r: bool)
    requires
        start as int == s@.len() - sign_body(s@).len(),
    ensures
        r == (lower_seq(sign_body(s@)) == word@),
{
    if s.len() - start != word.len() {
        proof {
            assert(lower_seq(sign_body(s@)).len() == sign_body(s@).len());
        }
        return false;
    }
    let mut k: usize = 0;
    while k < word.len()
        invariant
            0 <= k <= word@.len(),
            start + word@.len() == s@.len(),
            start as int == s@.len() - sign_body(s@).len(),
            forall|j: int| 0 <= j < k ==> lower_seq(sign_body(s@))[j] == word@[j],
        decreases word@.len() - k,
    {
        if ascii_lower(s[start + k]) != word[k] {
            proof {
                assert(lower_seq(sign_body(s@))[k as int] != word@[k as int]);
            }
            return false;
        }
        k = k + 1;
    }
    proof {
        assert(lower_seq(sign_body(s@)) =~= word@);
    }
    true
}

/// Checks text against [`float_text_wf`]: would this read back as a
/// floating-point value?
pub fn float_text_acceptable(s: &Vec<char>) -> (r: bool)
    ensures
        r == float_text_wf(s@),
{
    let start: usize = if s.len() > 0 && (s[0] == '+' || s[0] == '-') {
        1
    } else {
        0
    };
    proof {
        if start == 0 {
            assert(sign_body(s@) =~= s@);
        }
    }
    let nan_word = vec!['n', 'a', 'n'];
    let inf_word = vec!['i', 'n', 'f'];
    let infinity_word = vec!['i', 'n', 'f', 'i', 'n', 'i', 't', 'y'];
    if body_is_word(s, start, &nan_word) {
        return true;
    }
    if body_is_word(s, start, &inf_word) {
        return true;
    }
    if body_is_word(s, start, &infinity_word) {
        return true;
    }
    let mut st: u8 = 0;
    let mut k: usize = start;
    while k < s.len()
        invariant
            start <= k <= s@.len(),
            start as int == s@.len() - sign_body(s@).len(),
            st == float_dfa_run(sign_body(s@).take(k - start)),
        decreases s@.len() - k,
    {
        let c = s[k];
        let n = c as u32;
        let digit = 48 <= n && n <= 57;
        st = if st == 0 {
            if digit {
                1
            } else if c == '.' {
                2
            } else {
                7
            }
        } else if st == 1 {
            if digit {
                1
            } else if c == '.' {
                3
            } else if c == 'e' || c == 'E' {
                4
            } else {
                7
            }
        } else if st == 2 {
            if digit {
                3
            } else {
                7
            }
        } else if st == 3 {
            if digit {
                3
            } else if c == 'e' || c == 'E' {
                4
            } else {
                7
            }
        } else if st == 4 {
            if digit {
                6
            } else if c == '+' || c == '-' {
                5
            } else {
                7
            }
        } else if st == 5 {
            if digit {
                6
            } else {
                7
            }
        } else if st == 6 {
            if digit {
                6
            } else {
                7
            }
        } else {
            7
        };
        k = k + 1;
        proof {
            assert(sign_body(s@).take(k - start).drop_last() =~= sign_body(s@).take(
                k - start - 1,
            ));
            assert(sign_body(s@).take(k - start).last() == c);
        }
    }
    proof {
        assert(sign_body(s@).take(s@.len() - start) =~= sign_body(s@));
    }
    st == 1 || st == 3 || st == 6
}

/// Whether text carries a mark that it is floating-point: a dot or an
/// exponent letter.
pub open spec fn has_float_indicator(s: Seq<char>) -> bool {
    exists|k: int| 0 <= k < s.len() && (s[k] == '.' || s[k] == 'e' || s[k] == 'E')
}

/// Looks for a dot or an exponent letter in the text.
pub fn find_float_indicator(s: &Vec<char>) -> (r: bool)
    ensures
        r == has_float_indicator(s@),
{
    let mut k: usize = 0;
    while k < s.len()
        invariant
            0 <= k <= s@.len(),
            forall|j: int| 0 <= j < k ==> !(s@[j] == '.' || s@[j] == 'e' || s@[j] == 'E'),
        decreases s@.len() - k,
    {
        let c = s[k];
        if c == '.' || c == 'e' || c == 'E' {
            return true;
        }
        k = k + 1;
    }
    false
}


/// Checks text against [`float_text_is_nan`].
pub fn float_text_nan(s: &Vec<char>) -> (r: bool)
    ensures
        r == float_text_is_nan(s@),
{
    let start: usize = if s.len() > 0 && (s[0] == '+' || s[0] == '-') {
        1
    } else {
        0
    };
    proof {
        if start == 0 {
            assert(sign_body(s@) =~= s@);
        }
    }
    let nan_word = vec!['n', 'a', 'n'];
    body_is_word(s, start, &nan_word)
}

/// Checks text against [`float_text_is_inf`].
pub fn float_text_infinite(s: &Vec<char>) -> (r: bool)
    ensures
        r == float_text_is_inf(s@),
{
    let start: usize = if s.len() > 0 && (s[0] == '+' || s[0] == '-') {
        1
    } else {
        0
    };
    proof {
        if start == 0 {
            assert(sign_body(s@) =~= s@);
        }
    }
    let inf_word = vec!['i', 'n', 'f'];
    let infinity_word = vec!['i', 'n', 'f', 'i', 'n', 'i', 't', 'y'];
    if body_is_word(s, start, &inf_word) {
        return true;
    }
    body_is_word(s, start, &infinity_word)
}


/// Whether the text, lower-cased, is exactly `word`.
pub fn lower_eq_word(s: &Vec<char>, word: &Vec<char>) -> (r: bool)
    ensures
        r == (lower_seq(s@) == word@),
{
    if s.len() != word.len() {
        proof {
            assert(lower_seq(s@).len() == s@.len());
        }
        return false;
    }
    let mut k: usize = 0;
    while k < word.len()
        invariant
            0 <= k <= word@.len(),
            word@.len() == s@.len(),
            forall|j: int| 0 <= j < k ==> lower_seq(s@)[j] == word@[j],
        decreases word@.len() - k,
    {
        if ascii_lower(s[k]) != word[k] {
            proof {
                assert(lower_seq(s@)[k as int] != word@[k as int]);
            }
            return false;
        }
        k = k + 1;
    }
    proof {
        assert(lower_seq(s@) =~= word@);
    }
    true
}

/// Whether the text is exactly `word`, case-sensitively.
pub fn chars_eq_word(s: &Vec<char>, word: &Vec<char>) -> (r: bool)
    ensures
        r == (s@ == word@),
{
    if s.len() != word.len() {
        return false;
    }
    let mut k: usize = 0;
    while k < word.len()
        invariant
            0 <= k <= word@.len(),
            word@.len() == s@.len(),
            forall|j: int| 0 <= j < k ==> s@[j] == word@[j],
        decreases word@.len() - k,
    {
        if s[k] != word[k] {
            return false;
        }
        k = k + 1;
    }
    proof {
        assert(s@ =~= word@);
    }
    true
}

} // verus!

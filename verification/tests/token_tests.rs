use datum::DatumAtom;
use datum::DatumToken;
use datum::DatumTokenType;

fn chars(s: &str) -> Vec<char> {
    s.chars().collect()
}

fn written(token: &DatumToken) -> String {
    let mut out: Vec<char> = Vec::new();
    token.write(&mut out);
    out.iter().collect()
}

#[test]
fn test_token_write() {
    assert_eq!(
        written(&DatumToken::String(0, chars("Test\\\r\n\t"))),
        "\"Test\\\\\\r\\n\\t\""
    );
    assert_eq!(written(&DatumToken::Symbol(0, chars(""))), "#{}#");
    assert_eq!(written(&DatumToken::Symbol(0, chars("test"))), "test");
    assert_eq!(written(&DatumToken::SpecialID(0, chars("test"))), "#test");
    let flt = DatumToken::Float(0, chars(&format!("{}", -1.0f64)));
    assert_eq!(written(&flt), "-1.0");
    // make sure the above wasn't implemented via rounding or something
    let flt = DatumToken::Float(0, chars(&format!("{}", -1.07915331907856f64)));
    assert_eq!(written(&flt), "-1.07915331907856");
    let int = DatumToken::Integer(0, 1);
    assert_eq!(written(&int), "1");
    let ls = DatumToken::ListStart(0);
    let le = DatumToken::ListEnd(0);
    assert_eq!(written(&ls), "(");
    assert_eq!(written(&le), ")");
}

#[test]
fn these_cannot_be_atomized() {
    let tkn = DatumToken::ListStart(0);
    DatumAtom::try_from(tkn).unwrap_err();
    let tkn = DatumToken::ListEnd(0);
    DatumAtom::try_from(tkn).unwrap_err();
}

#[test]
fn token_resolves_numbers() {
    // integers are resolved at tokenization time
    let tok = DatumToken::try_from(DatumTokenType::Numeric, 5, chars("-10")).unwrap();
    assert_eq!(tok, DatumToken::Integer(5, -10));
    // a plain sign alone does not reach the numeric path as text, but a bad
    // numeric is permanently bad data at the token's offset
    let err = DatumToken::try_from(DatumTokenType::Numeric, 5, chars("--10")).unwrap_err();
    assert_eq!(err.kind, datum::DatumErrorKind::BadData);
    assert_eq!(err.offset, 5);
    // integer overflow falls back to floating-point text
    let tok = DatumToken::try_from(
        DatumTokenType::Numeric,
        0,
        chars("99999999999999999999"),
    )
    .unwrap();
    assert_eq!(tok, DatumToken::Float(0, chars("99999999999999999999")));
    assert_eq!(written(&tok), "99999999999999999999.0");
    // scientific notation keeps its text
    let tok = DatumToken::try_from(DatumTokenType::Numeric, 0, chars("1e-5")).unwrap();
    assert_eq!(tok, DatumToken::Float(0, chars("1e-5")));
    assert_eq!(written(&tok), "1e-5");
    // and what it writes really parses as a float in this very process
    assert!(written(&tok).parse::<f64>().is_ok());
}

#[test]
fn token_write_extreme_integers() {
    assert_eq!(written(&DatumToken::Integer(0, i64::MIN)), "-9223372036854775808");
    assert_eq!(written(&DatumToken::Integer(0, i64::MAX)), "9223372036854775807");
    // and they read back exactly
    let tok = DatumToken::try_from(
        DatumTokenType::Numeric,
        0,
        chars("-9223372036854775808"),
    )
    .unwrap();
    assert_eq!(tok, DatumToken::Integer(0, i64::MIN));
    // one past the edge is no longer an integer
    let tok = DatumToken::try_from(
        DatumTokenType::Numeric,
        0,
        chars("-9223372036854775809"),
    )
    .unwrap();
    assert_eq!(tok, DatumToken::Float(0, chars("-9223372036854775809")));
}

#[test]
fn token_float_specials() {
    // special values write as the three reserved spellings
    let nan = DatumToken::Float(0, chars(&format!("{}", f64::NAN)));
    assert_eq!(written(&nan), "#i+nan.0");
    let pinf = DatumToken::Float(0, chars(&format!("{}", f64::INFINITY)));
    assert_eq!(written(&pinf), "#i+inf.0");
    let ninf = DatumToken::Float(0, chars(&format!("{}", f64::NEG_INFINITY)));
    assert_eq!(written(&ninf), "#i-inf.0");
}

#[test]
fn token_accessors() {
    let tok = DatumToken::String(9, chars("abc"));
    assert_eq!(tok.token_type(), DatumTokenType::String);
    assert_eq!(tok.offset(), 9);
    assert_eq!(tok.buffer(), Some(&chars("abc")));
    let tok = DatumToken::Integer(4, 7);
    assert_eq!(tok.token_type(), DatumTokenType::Numeric);
    assert_eq!(tok.offset(), 4);
    assert_eq!(tok.buffer(), None);
    assert_eq!(DatumToken::default(), DatumToken::ListEnd(0));
}

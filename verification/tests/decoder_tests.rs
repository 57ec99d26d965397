use datum::DatumChar;
use datum::DatumCharClass;
use datum::DatumDecoder;
use datum::DatumOffset;
use datum::DatumPipe;
use datum::feed_iter_to_vec;

fn decoder_test(input: &str, output: &str, out_class: DatumCharClass) {
    let mut decoder = DatumDecoder::default();
    let mut output_iterator = output.chars();
    for v in input.chars() {
        let mut got: Vec<(DatumOffset, DatumChar)> = Vec::new();
        decoder.feed(0, Some(v), &mut got).unwrap();
        for (_, c) in got {
            assert_eq!(c.char(), output_iterator.next().expect("early output end"));
            assert_eq!(c.class(), out_class);
        }
    }
    assert_eq!(decoder, DatumDecoder::default());
    let mut rest: Vec<(DatumOffset, DatumChar)> = Vec::new();
    decoder.feed(0, None, &mut rest).unwrap();
    assert!(rest.is_empty());
    assert_eq!(output_iterator.next(), None);
}

/// Tests the decoder for a single character. This verifies all sorts of
/// useful properties, especially that the starting offset is always returned.
fn decoder_test_char(input: &str, output: &str, out_class: DatumCharClass) {
    let mut decoder = DatumDecoder::default();
    let mut output_iterator = output.chars();
    for (k, v) in input.chars().enumerate() {
        let mut got: Vec<(DatumOffset, DatumChar)> = Vec::new();
        decoder.feed((100 + k) as u64, Some(v), &mut got).unwrap();
        for (at, c) in got {
            assert_eq!(at, 100);
            assert_eq!(c.char(), output_iterator.next().expect("early output end"));
            assert_eq!(c.class(), out_class);
        }
    }
    assert_eq!(decoder, DatumDecoder::default());
    let mut rest: Vec<(DatumOffset, DatumChar)> = Vec::new();
    decoder.feed(0, None, &mut rest).unwrap();
    assert!(rest.is_empty());
    assert_eq!(output_iterator.next(), None);
}

fn decoder_should_fail(input: &str) {
    let mut decoder = DatumDecoder::default();
    for v in input.chars() {
        let mut got: Vec<(DatumOffset, DatumChar)> = Vec::new();
        if decoder.feed(0, Some(v), &mut got).is_err() {
            return;
        }
    }
    panic!("decoder was supposed to fail, case: {}", input);
}

fn decoder_should_not_allow_eof(input: &str) {
    let mut decoder = DatumDecoder::default();
    for v in input.chars() {
        let mut got: Vec<(DatumOffset, DatumChar)> = Vec::new();
        decoder.feed(0, Some(v), &mut got).unwrap();
    }
    let mut rest: Vec<(DatumOffset, DatumChar)> = Vec::new();
    assert!(decoder.feed(0, None, &mut rest).is_err());
}

#[test]
fn decoder_results_test() {
    let mut decoder = DatumDecoder::default();
    let mut none: Vec<(DatumOffset, DatumChar)> = Vec::new();
    decoder.feed(0, Some('\\'), &mut none).unwrap();
    decoder.feed(0, Some('x'), &mut none).unwrap();
    decoder.feed(0, Some('1'), &mut none).unwrap();
    decoder.feed(0, Some('0'), &mut none).unwrap();
    decoder.feed(0, Some('F'), &mut none).unwrap();
    decoder.feed(0, Some('F'), &mut none).unwrap();
    decoder.feed(0, Some('F'), &mut none).unwrap();
    decoder.feed(0, Some('F'), &mut none).unwrap();
    assert!(none.is_empty());
    let out = [
        DatumChar::content('\u{10FFFF}'),
        DatumChar::content('a'),
    ];
    let mut tmp: Vec<DatumChar> = Vec::new();
    feed_iter_to_vec(&mut decoder, &mut tmp, vec![';', 'a'], true).unwrap();
    assert_eq!(tmp, out);
}

#[test]
fn all_decoder_test_cases() {
    // -- also see the byte decoder tests
    decoder_test(
        "thequickbrownfoxjumpsoverthelazydog",
        "thequickbrownfoxjumpsoverthelazydog",
        DatumCharClass::Content,
    );
    decoder_test(
        "THEQUICKBROWNFOXJUMPSOVERTHELAZYDOG",
        "THEQUICKBROWNFOXJUMPSOVERTHELAZYDOG",
        DatumCharClass::Content,
    );
    decoder_test(
        "!£$%^&*_+=[]{}~@:?/>.<,|",
        "!£$%^&*_+=[]{}~@:?/>.<,|",
        DatumCharClass::Content,
    );
    // a few simple sanity checks
    decoder_test_char("\\n", "\n", DatumCharClass::Content);
    decoder_test_char("\\r", "\r", DatumCharClass::Content);
    decoder_test_char("\\t", "\t", DatumCharClass::Content);
    decoder_test_char("\n", "\n", DatumCharClass::Newline);
    decoder_test_char(";", ";", DatumCharClass::LineComment);
    decoder_test_char("\"", "\"", DatumCharClass::String);
    decoder_test_char("(", "(", DatumCharClass::ListStart);
    decoder_test_char(")", ")", DatumCharClass::ListEnd);
    decoder_test_char("#", "#", DatumCharClass::SpecialID);
    decoder_test_char("\\;", ";", DatumCharClass::Content);
    // Hex escape check
    decoder_test_char("\\x0A;", "\n", DatumCharClass::Content);
    // UTF-8 encoding check
    decoder_test_char("\\xB9;", "¹", DatumCharClass::Content);
    decoder_test_char("\\x10FFff;", "\u{10FFFF}", DatumCharClass::Content);
    decoder_test_char("\u{10FFFF}", "\u{10FFFF}", DatumCharClass::Content);
    // --

    // failure tests
    decoder_should_fail("\\\n");
    decoder_should_fail("\\x-");
    decoder_should_fail("\\xFFFFFF;");
    decoder_should_not_allow_eof("\\");
    decoder_should_not_allow_eof("\\x");
    decoder_should_not_allow_eof("\\xA");
}

#[test]
fn decoder_error_kinds() {
    // a forbidden control character is permanently bad data
    let mut decoder = DatumDecoder::default();
    let mut got: Vec<(DatumOffset, DatumChar)> = Vec::new();
    let err = decoder.feed(7, Some('\u{1}'), &mut got).unwrap_err();
    assert_eq!(err.kind, datum::DatumErrorKind::BadData);
    assert_eq!(err.offset, 7);
    // end of input mid-escape is an interruption, and resets the decoder
    let mut decoder = DatumDecoder::default();
    decoder.feed(3, Some('\\'), &mut got).unwrap();
    let err = decoder.feed(4, None, &mut got).unwrap_err();
    assert_eq!(err.kind, datum::DatumErrorKind::Interrupted);
    assert_eq!(decoder, DatumDecoder::default());
    assert!(got.is_empty());
}

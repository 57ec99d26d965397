use datum::DatumAtom;
use datum::DatumChar;
use datum::DatumCharClass;
use datum::DatumDecoder;
use datum::DatumErrorKind;
use datum::DatumLineNumberTracker;
use datum::DatumOffset;
use datum::DatumPipe;
use datum::DatumValue;
use datum::datum_char_to_value_pipeline;
use datum::feed_iter_to_vec;

fn chars(s: &str) -> Vec<char> {
    s.chars().collect()
}

fn parse_all(input: &str) -> Vec<DatumValue> {
    let mut pipeline = datum_char_to_value_pipeline();
    let mut out: Vec<DatumValue> = Vec::new();
    feed_iter_to_vec(&mut pipeline, &mut out, chars(input), true).unwrap();
    out
}

#[test]
fn parses_simple_expression() {
    let out = parse_all("(+ 1 2)");
    assert_eq!(
        out,
        vec![DatumValue::List(vec![
            DatumValue::Atom(DatumAtom::Symbol(chars("+"))),
            DatumValue::Atom(DatumAtom::Integer(1)),
            DatumValue::Atom(DatumAtom::Integer(2)),
        ])]
    );
}

#[test]
fn sign_is_numeric_only_when_continued() {
    assert_eq!(
        parse_all("-10"),
        vec![DatumValue::Atom(DatumAtom::Integer(-10))]
    );
    assert_eq!(
        parse_all("-"),
        vec![DatumValue::Atom(DatumAtom::Symbol(chars("-")))]
    );
    // two signs in a row are neither an integer nor a float
    let mut pipeline = datum_char_to_value_pipeline();
    let mut out: Vec<DatumValue> = Vec::new();
    let err = feed_iter_to_vec(&mut pipeline, &mut out, chars("--5 "), true).unwrap_err();
    assert_eq!(err.kind, DatumErrorKind::BadData);
}

#[test]
fn comment_only_document_is_empty() {
    assert_eq!(parse_all("; comment\n"), vec![]);
}

#[test]
fn hex_escape_decodes_to_content() {
    let mut decoder = DatumDecoder::default();
    let mut out: Vec<(DatumOffset, DatumChar)> = Vec::new();
    for (k, c) in "\\x41;".chars().enumerate() {
        decoder.feed(k as u64, Some(c), &mut out).unwrap();
    }
    assert_eq!(out.len(), 1);
    assert_eq!(out[0].0, 0);
    assert_eq!(out[0].1.char(), 'A');
    assert_eq!(out[0].1.class(), DatumCharClass::Content);
}

#[test]
fn list_end_alone_is_bad_data_at_zero() {
    let mut pipeline = datum_char_to_value_pipeline();
    let mut out: Vec<DatumValue> = Vec::new();
    let err = feed_iter_to_vec(&mut pipeline, &mut out, chars(")"), true).unwrap_err();
    assert_eq!(err.kind, DatumErrorKind::BadData);
    assert_eq!(err.offset, 0);
}

#[test]
fn unterminated_string_is_interrupted() {
    let mut pipeline = datum_char_to_value_pipeline();
    let mut out: Vec<DatumValue> = Vec::new();
    let err = feed_iter_to_vec(&mut pipeline, &mut out, chars("\"abc"), true).unwrap_err();
    assert_eq!(err.kind, DatumErrorKind::Interrupted);
}

#[test]
fn unterminated_list_is_interrupted() {
    let mut pipeline = datum_char_to_value_pipeline();
    let mut out: Vec<DatumValue> = Vec::new();
    let err = feed_iter_to_vec(&mut pipeline, &mut out, chars("(a b"), true).unwrap_err();
    assert_eq!(err.kind, DatumErrorKind::Interrupted);
}

#[test]
fn streaming_matches_whole_input() {
    // feeding the same text in two pieces gives the same values as feeding it
    // at once, offsets included
    let text = "(these (are) some) values";
    let mut whole = datum_char_to_value_pipeline();
    let mut whole_out: Vec<(DatumOffset, DatumValue)> = Vec::new();
    let mut split = datum_char_to_value_pipeline();
    let mut split_out: Vec<(DatumOffset, DatumValue)> = Vec::new();
    let all: Vec<char> = chars(text);
    for (k, c) in all.iter().enumerate() {
        whole.feed(k as u64, Some(*c), &mut whole_out).unwrap();
    }
    whole.feed(all.len() as u64, None, &mut whole_out).unwrap();
    for (k, c) in all.iter().enumerate().take(7) {
        split.feed(k as u64, Some(*c), &mut split_out).unwrap();
    }
    for (k, c) in all.iter().enumerate().skip(7) {
        split.feed(k as u64, Some(*c), &mut split_out).unwrap();
    }
    split.feed(all.len() as u64, None, &mut split_out).unwrap();
    assert_eq!(whole_out, split_out);
    // values point at the offset their first token began
    assert_eq!(whole_out[0].0, 0);
    assert_eq!(whole_out[1].0, 19);
}

#[test]
fn line_number_tracker_counts_newlines() {
    let mut tracker = DatumLineNumberTracker::new();
    assert_eq!(tracker.line_number(), 1);
    let mut out: Vec<(DatumOffset, char)> = Vec::new();
    for c in "a\nb\nc".chars() {
        tracker.feed(0, Some(c), &mut out).unwrap();
    }
    assert_eq!(tracker.line_number(), 3);
    let passed: Vec<char> = out.iter().map(|p| p.1).collect();
    assert_eq!(passed, chars("a\nb\nc"));
}

#[test]
fn special_ids_follow_grammar() {
    assert_eq!(
        parse_all("#t #f #nil #x100 #X-10"),
        vec![
            DatumValue::Atom(DatumAtom::Boolean(true)),
            DatumValue::Atom(DatumAtom::Boolean(false)),
            DatumValue::Atom(DatumAtom::Nil),
            DatumValue::Atom(DatumAtom::Integer(256)),
            DatumValue::Atom(DatumAtom::Integer(-16)),
        ]
    );
    assert_eq!(
        parse_all("#{}#"),
        vec![DatumValue::Atom(DatumAtom::Symbol(vec![]))]
    );
}

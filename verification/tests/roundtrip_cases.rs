use datum::DatumAtom;
use datum::DatumToken;
use datum::DatumValue;
use datum::DatumWriter;
use datum::datum_byte_to_value_pipeline;
use datum::datum_char_to_token_pipeline;
use datum::datum_char_to_value_pipeline;
use datum::feed_iter_to_vec;

fn chars(s: &str) -> Vec<char> {
    s.chars().collect()
}

fn do_roundtrip_test(input: &str, output: &str) {
    let mut dectok1 = datum_char_to_token_pipeline();
    let mut tokenization: Vec<DatumToken> = Vec::new();
    feed_iter_to_vec(&mut dectok1, &mut tokenization, chars(input), true).unwrap();
    // ---
    let mut dtparse = datum_char_to_value_pipeline();
    let mut out: Vec<DatumValue> = Vec::new();
    feed_iter_to_vec(&mut dtparse, &mut out, chars(input), true)
        .unwrap_or_else(|_| panic!("problem parsing, dump {:?}", tokenization));
    let mut out_str: Vec<char> = Vec::new();
    let mut writer = DatumWriter::default();
    for v in &out {
        v.write_to(&mut out_str, &mut writer);
        writer.write_newline(&mut out_str);
    }
    let out_string: String = out_str.iter().collect();
    assert_eq!(out_string, output);
    // --- same again but with bytes
    let mut dtparse = datum_byte_to_value_pipeline();
    let mut out_b: Vec<DatumValue> = Vec::new();
    feed_iter_to_vec(&mut dtparse, &mut out_b, input.bytes().collect(), true).unwrap();
    let mut out_str_b: Vec<char> = Vec::new();
    let mut writer = DatumWriter::default();
    for v in &out_b {
        v.write_to(&mut out_str_b, &mut writer);
        writer.write_newline(&mut out_str_b);
    }
    let out_string_b: String = out_str_b.iter().collect();
    assert_eq!(out_string_b, output);
    // the two paths agree on the values themselves, not just their text
    assert_eq!(out, out_b);
}

fn tokenizer_should_error_eof(input: &str) {
    let mut dectok1 = datum_char_to_token_pipeline();
    let mut ignoredout: Vec<DatumToken> = Vec::new();
    feed_iter_to_vec(&mut dectok1, &mut ignoredout, chars(input), false).unwrap();
    let mut rest: Vec<(u64, DatumToken)> = Vec::new();
    assert!(datum::DatumPipe::feed(&mut dectok1, 0, None, &mut rest).is_err());
}

fn parser_should_error(input: &str) {
    let mut dtparse = datum_char_to_value_pipeline();
    let mut out: Vec<DatumValue> = Vec::new();
    assert!(feed_iter_to_vec(&mut dtparse, &mut out, chars(input), true).is_err());
}

#[test]
fn roundtrip_tests() {
    let niltest: DatumAtom = DatumAtom::Nil;
    assert_eq!(DatumAtom::default(), niltest);

    // EOF and such tests
    do_roundtrip_test("", "");
    do_roundtrip_test("-10", "-10\n");
    do_roundtrip_test("-", "-\n");
    do_roundtrip_test("\\-a", "\\-a\n");
    do_roundtrip_test("#t", "#t\n");
    do_roundtrip_test("; line comment\n", "");
    do_roundtrip_test("\n", "");

    // Hexints
    do_roundtrip_test("#x100", "256\n");
    parser_should_error("#xZ");

    tokenizer_should_error_eof("\"a");

    parser_should_error(")");
    parser_should_error("(");
    parser_should_error("#atom_conv_failure");
    parser_should_error("#i0_numeric_conv_failure");

    // writer silly tests
    let mut writer_fmt: Vec<char> = Vec::new();
    let mut writer_fmt_test = DatumWriter::default();
    writer_fmt_test.write_newline(&mut writer_fmt);
    writer_fmt_test.indent = 1;
    writer_fmt_test.write_comment(&mut writer_fmt, &chars("lof\nlif\nidk?"));
    let got: String = writer_fmt.iter().collect();
    assert_eq!(got, "\n\t; lof\n\t; lif\n\t; idk?\n");
}

#[test]
fn roundtrip_more_documents() {
    do_roundtrip_test("(+ 1 2)", "(+ 1 2)\n");
    do_roundtrip_test("(() (a b) \"c d\")", "(() (a b) \"c d\")\n");
    do_roundtrip_test("#i+nan.0 #i+inf.0 #i-inf.0", "#i+nan.0\n#i+inf.0\n#i-inf.0\n");
    do_roundtrip_test("#I+NAN.0", "#i+nan.0\n");
    do_roundtrip_test("#Nil #F #T", "#nil\n#f\n#t\n");
    do_roundtrip_test("1.5 -0.25 1e-5", "1.5\n-0.25\n1e-5\n");
    do_roundtrip_test("\"\\x41;\"", "\"A\"\n");
    do_roundtrip_test("#{}#", "#{}#\n");
    do_roundtrip_test("\\1abc", "\\1abc\n");
}

use datum::DatumOffset;
use datum::DatumPipe;
use datum::DatumUTF8Decoder;

fn byte_decoder_should_fail(input: &[u8]) {
    let mut decoder = DatumUTF8Decoder::default();
    for v in input {
        let mut got: Vec<(DatumOffset, char)> = Vec::new();
        if decoder.feed(0, Some(*v), &mut got).is_err() {
            return;
        }
    }
    panic!("decoder was supposed to fail");
}

fn byte_decoder_should_not_allow_eof(input: &[u8]) {
    let mut decoder = DatumUTF8Decoder::default();
    for v in input {
        let mut got: Vec<(DatumOffset, char)> = Vec::new();
        decoder.feed(0, Some(*v), &mut got).unwrap();
    }
    let mut rest: Vec<(DatumOffset, char)> = Vec::new();
    assert!(decoder.feed(0, None, &mut rest).is_err());
}

#[test]
fn byte_decoder_tests() {
    // failure tests
    // random continuation
    byte_decoder_should_fail(&[0x80]);
    // start of sequence, but nothing else
    byte_decoder_should_not_allow_eof(&[0xC2]);
    // it just keeps going and going!
    byte_decoder_should_fail(&[0xC2, 0x80, 0x80, 0x80, 0x80]);
    // interrupted 'characters'
    byte_decoder_should_fail(&[0xC2, 0xC2]);
}

#[test]
fn byte_decoder_decodes_multibyte() {
    // a three-byte encoding comes out as one character, reported at the
    // offset of its first byte
    let mut decoder = DatumUTF8Decoder::default();
    let mut got: Vec<(DatumOffset, char)> = Vec::new();
    let encoded = "\u{20AC}".as_bytes();
    assert_eq!(encoded.len(), 3);
    for (k, v) in encoded.iter().enumerate() {
        decoder.feed(40 + k as u64, Some(*v), &mut got).unwrap();
    }
    assert_eq!(got, vec![(40, '\u{20AC}')]);
    // ASCII passes straight through at its own offset
    let mut got: Vec<(DatumOffset, char)> = Vec::new();
    decoder.feed(50, Some(b'a'), &mut got).unwrap();
    assert_eq!(got, vec![(50, 'a')]);
    decoder.feed(51, None, &mut got).unwrap();
}

#[test]
fn byte_decoder_rejects_surrogates_late() {
    // an encoded surrogate never becomes valid; the decoder buffers it until
    // the sequence outgrows the longest encoding
    let mut decoder = DatumUTF8Decoder::default();
    let mut got: Vec<(DatumOffset, char)> = Vec::new();
    decoder.feed(0, Some(0xED), &mut got).unwrap();
    decoder.feed(1, Some(0xA0), &mut got).unwrap();
    decoder.feed(2, Some(0x80), &mut got).unwrap();
    decoder.feed(3, Some(0x80), &mut got).unwrap();
    let err = decoder.feed(4, Some(0x80), &mut got).unwrap_err();
    assert_eq!(err.kind, datum::DatumErrorKind::BadData);
    assert!(got.is_empty());
}

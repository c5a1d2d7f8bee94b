use rustaceans::base64::decode;

#[test]
fn decode_empty_text_is_empty() {
    assert_eq!(decode(b""), Some(vec![]));
}

#[test]
fn decode_one_byte_with_two_pads() {
    assert_eq!(decode(b"YQ=="), Some(b"a".to_vec()));
}

#[test]
fn decode_two_bytes_with_one_pad() {
    assert_eq!(decode(b"YWI="), Some(b"ab".to_vec()));
}

#[test]
fn decode_three_bytes_without_pad() {
    assert_eq!(decode(b"YWJj"), Some(b"abc".to_vec()));
}

#[test]
fn decode_several_groups() {
    assert_eq!(decode(b"dXNlcjpwYXNz"), Some(b"user:pass".to_vec()));
    assert_eq!(decode(b"YWRhOnNlY3JldA=="), Some(b"ada:secret".to_vec()));
    assert_eq!(decode(b"aGVsbG8gd29ybGQ="), Some(b"hello world".to_vec()));
}

#[test]
fn decode_plus_and_slash() {
    assert_eq!(decode(b"+/8="), Some(vec![0xfb, 0xff]));
    assert_eq!(decode(b"////"), Some(vec![0xff, 0xff, 0xff]));
    assert_eq!(decode(b"AAAA"), Some(vec![0, 0, 0]));
}

#[test]
fn decode_every_symbol_of_the_alphabet() {
    let text = b"ABCDEFGHIJKLMNOPQRSTUVWXYZabcdefghijklmnopqrstuvwxyz0123456789+/";
    let bytes = decode(text).expect("the alphabet is a text");
    assert_eq!(bytes.len(), 48);
    // Sextets 0, 1, 2, 3 make the bytes 0x00, 0x10, 0x83.
    assert_eq!(&bytes[0..3], &[0x00, 0x10, 0x83]);
    // Sextets 60, 61, 62, 63 make the bytes 0xf3, 0xdf, 0xbf.
    assert_eq!(&bytes[45..48], &[0xf3, 0xdf, 0xbf]);
}

#[test]
fn decode_rejects_a_length_that_is_no_multiple_of_four() {
    assert_eq!(decode(b"Y"), None);
    assert_eq!(decode(b"YQ"), None);
    assert_eq!(decode(b"YQ="), None);
    assert_eq!(decode(b"YWJjZ"), None);
}

#[test]
fn decode_rejects_symbols_outside_the_alphabet() {
    assert_eq!(decode(b"Y Q="), None);
    assert_eq!(decode(b"****"), None);
    assert_eq!(decode(b"YW-j"), None);
    assert_eq!(decode(b"YW_j"), None);
    assert_eq!(decode(b"YWJj\n\n\n\n"), None);
    assert_eq!(decode(&[0xff, 0x41, 0x41, 0x41]), None);
}

#[test]
fn decode_rejects_padding_in_the_wrong_place() {
    assert_eq!(decode(b"===="), None);
    assert_eq!(decode(b"Y==="), None);
    assert_eq!(decode(b"YQ=a"), None);
    assert_eq!(decode(b"=QQQ"), None);
    assert_eq!(decode(b"YQ==YWJj"), None);
    assert_eq!(decode(b"YWI=YWJj"), None);
}

#[test]
fn decode_rejects_stray_bits_in_the_last_symbol() {
    // "YQ==" is the text of "a"; "YR==" has the same first byte and a bit left over.
    assert_eq!(decode(b"YR=="), None);
    assert_eq!(decode(b"YWJ="), None);
}

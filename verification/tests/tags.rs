use anchordb::tags::{decode_tags, encode_tags};
use anchordb::text::text_from_utf8;

#[test]
fn tags_round_trip() {
    let tags = vec!["src/foo.rs".to_string(), "lines:10-20".to_string(), "".to_string(), "é".to_string()];
    let bytes = encode_tags(&tags);
    assert_eq!(decode_tags(&bytes), Ok(tags));
}

#[test]
fn tags_encoding_layout() {
    let tags = vec!["ab".to_string(), "c".to_string()];
    assert_eq!(encode_tags(&tags), vec![2, 0, b'a', b'b', 1, 0, b'c']);
    assert_eq!(encode_tags(&[]), Vec::<u8>::new());
    assert_eq!(decode_tags(&[]), Ok(vec![]));
}

#[test]
fn long_tag_is_cut_to_65535_bytes() {
    let long = "x".repeat(70000);
    let bytes = encode_tags(&[long.clone()]);
    assert_eq!(bytes.len(), 2 + 65535);
    assert_eq!(&bytes[0..2], &[0xff, 0xff]);
    assert_eq!(decode_tags(&bytes), Ok(vec![long[..65535].to_string()]));
}

#[test]
fn decode_tags_errors() {
    assert_eq!(decode_tags(&[1]), Err("truncated tag length"));
    assert_eq!(decode_tags(&[3, 0, b'a']), Err("truncated tag bytes"));
    assert_eq!(decode_tags(&[1, 0, 0xff]), Err("tag is not valid utf-8"));
    // The first fault met is the one reported.
    assert_eq!(decode_tags(&[1, 0, 0xff, 9]), Err("tag is not valid utf-8"));
    assert_eq!(decode_tags(&[1, 0, b'a', 5, 0]), Err("truncated tag bytes"));
}

#[test]
fn utf8_decoding() {
    assert_eq!(text_from_utf8(b"hello"), Some("hello".to_string()));
    assert_eq!(text_from_utf8(&[0xc3, 0xa9]), Some("é".to_string()));
    assert_eq!(text_from_utf8(&[0xff, 0xfe, 0xfd]), None);
    assert_eq!(text_from_utf8(&[]), Some(String::new()));
}

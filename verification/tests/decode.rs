//! The decoding that comes before the rules.

use limen::engine::decode::{
    decode_escapes, hex_val, percent_decode_bytes, percent_decode_lossy, single_percent_decode,
};

#[test]
fn hex_digits_have_values() {
    assert_eq!(hex_val(b'0'), Some(0));
    assert_eq!(hex_val(b'9'), Some(9));
    assert_eq!(hex_val(b'a'), Some(10));
    assert_eq!(hex_val(b'F'), Some(15));
    assert_eq!(hex_val(b'g'), None);
    assert_eq!(hex_val(b'%'), None);
}

#[test]
fn percent_escapes_become_bytes() {
    assert_eq!(percent_decode_bytes(b"%41%2F+x"), b"A/ x".to_vec());
    assert_eq!(percent_decode_bytes(b"%4"), b"%4".to_vec());
    assert_eq!(percent_decode_bytes(b"%zz%"), b"%zz%".to_vec());
    assert_eq!(percent_decode_bytes(b""), Vec::<u8>::new());
}

#[test]
fn one_round_takes_one_layer_away() {
    assert_eq!(single_percent_decode("%252e"), "%2e");
    assert_eq!(single_percent_decode("%2e"), ".");
}

#[test]
fn bytes_that_are_no_text_are_replaced() {
    assert_eq!(single_percent_decode("a%ffb"), "a\u{fffd}b");
    assert_eq!(single_percent_decode("%e4%bd%a0"), "你");
}

#[test]
fn nested_layers_are_taken_away() {
    assert_eq!(percent_decode_lossy("%2e"), ".");
    assert_eq!(percent_decode_lossy("%252e"), ".");
    assert_eq!(percent_decode_lossy("%25252e"), ".");
    assert_eq!(percent_decode_lossy("plain"), "plain");
}

#[test]
fn encoded_bytes_come_back() {
    let mut encoded = String::new();
    for b in 0u8..=127 {
        encoded.push_str(&format!("%{:02x}", b));
    }
    let decoded = percent_decode_bytes(encoded.as_bytes());
    assert_eq!(decoded, (0u8..=127).collect::<Vec<u8>>());
}

#[test]
fn escapes_of_every_form_are_read() {
    assert_eq!(decode_escapes("\\x41"), "A");
    assert_eq!(decode_escapes("\\u4f60"), "你");
    assert_eq!(decode_escapes("&#65;"), "A");
    assert_eq!(decode_escapes("&#x4f60;"), "你");
    assert_eq!(decode_escapes("<\\x73cript>"), "<script>");
}

#[test]
fn escapes_that_name_no_character_stay() {
    assert_eq!(decode_escapes("\\ud800"), "\\ud800");
    assert_eq!(decode_escapes("&#1114112;"), "&#1114112;");
    assert_eq!(decode_escapes("&#x110000;"), "&#x110000;");
    assert_eq!(decode_escapes("&#x100000041;"), "&#x100000041;");
    assert_eq!(decode_escapes("&#x10000000000000041;"), "&#x10000000000000041;");
    assert_eq!(decode_escapes("&#x000000000000041;"), "A");
    assert_eq!(decode_escapes("&#x10ffff;"), "\u{10ffff}");
}

#[test]
fn text_without_escapes_is_unchanged() {
    let s = "GET /index.html?a=1&b=2";
    assert_eq!(decode_escapes(s), s);
}

#[test]
fn characters_beyond_ascii_are_kept() {
    assert_eq!(decode_escapes("你好\\x41é"), "你好Aé");
    assert_eq!(decode_escapes("é&#233;"), "éé");
    assert_eq!(decode_escapes("\\x4é"), "\\x4é");
    assert_eq!(decode_escapes("&#é;"), "&#é;");
}

#[test]
fn rounds_go_on_while_they_shorten() {
    assert_eq!(percent_decode_lossy("%2525252e"), "%2e");
    assert_eq!(percent_decode_lossy("%25zz"), "%zz");
    assert_eq!(percent_decode_lossy("100%"), "100%");
    assert_eq!(percent_decode_lossy("%2b"), "+");
    assert_eq!(percent_decode_lossy("%252b"), "+");
    for s in ["%2525252e", "%25zz", "a+b%", "%e4%bd%a0"] {
        assert!(percent_decode_lossy(s).len() <= single_percent_decode(s).len());
    }
}

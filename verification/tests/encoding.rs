use cipher::encryption::{
    base64_decode, base64_encode, decode_bytes, encode_bytes, new_insecure_encryption,
    text_from_utf8, EncryptionSystem, InsecureEncryptionSystem,
};

#[test]
fn test_base64() {
    let source = "hello world".to_string();
    let encoded = base64_encode(&source).unwrap();
    assert_eq!(encoded, "aGVsbG8gd29ybGQ=".to_string());
    let decoded = base64_decode(&encoded).unwrap();
    assert_eq!(source, decoded);
}

#[test]
fn encoding_pads_and_uses_the_url_safe_alphabet() {
    assert_eq!(encode_bytes(&[]).unwrap(), "");
    assert_eq!(encode_bytes(b"f").unwrap(), "Zg==");
    assert_eq!(encode_bytes(b"fo").unwrap(), "Zm8=");
    assert_eq!(encode_bytes(b"foo").unwrap(), "Zm9v");
    assert_eq!(encode_bytes(&[0xfb, 0xff]).unwrap(), "-_8=");
    assert_eq!(decode_bytes("-_8=").unwrap(), vec![0xfb, 0xff]);
    assert_eq!(decode_bytes("").unwrap(), Vec::<u8>::new());
}

#[test]
fn decoding_recovers_every_text() {
    for text in ["", "a", "ab", "abc", "secret", "s\u{e9}cret \u{1f512}", "<<SECURE>>"] {
        let encoded = base64_encode(text).unwrap();
        assert_eq!(base64_decode(&encoded).unwrap(), text);
    }
}

#[test]
fn text_that_encodes_nothing_is_refused() {
    for text in ["a", "ab=c", "Zg=", "Zg", "+/8=", "a b c d", "\u{e9}"] {
        let e = base64_decode(text).unwrap_err();
        assert_eq!(e.context(), "base64 decode error");
        assert!(!e.detail().is_empty());
        let e = decode_bytes(text).unwrap_err();
        assert_eq!(e.context(), "base64 decode error");
    }
}

#[test]
fn bytes_that_are_no_text_are_refused() {
    let e = base64_decode("_w==").unwrap_err();
    assert_eq!(e.context(), "utf8 decode error");
    assert!(!e.detail().is_empty());
    let e = text_from_utf8(vec![0x61, 0xc3]).unwrap_err();
    assert_eq!(e.context(), "utf8 decode error");
    let e = text_from_utf8(vec![0xed, 0xa0, 0x80]).unwrap_err();
    assert_eq!(e.context(), "utf8 decode error");
    assert_eq!(text_from_utf8(vec![0x61, 0xc3, 0xa9]).unwrap(), "a\u{e9}");
    assert_eq!(text_from_utf8(vec![]).unwrap(), "");
}

#[test]
fn insecure_system_encodes_and_decodes() {
    let system = new_insecure_encryption().unwrap();
    assert_eq!(system.encrypt("def").unwrap(), "ZGVm");
    assert_eq!(system.decrypt("ZGVm").unwrap(), "def");
    assert_eq!(InsecureEncryptionSystem.encrypt("hello world").unwrap(), "aGVsbG8gd29ybGQ=");
    let e = InsecureEncryptionSystem.decrypt("not base64").unwrap_err();
    assert_eq!(e.context(), "base64 decode error");
}

#[test]
fn encoding_holds_no_character_of_a_marker() {
    let mut bytes: Vec<u8> = Vec::new();
    for value in 0..=255u8 {
        bytes.push(value);
        bytes.push(value.wrapping_mul(31).wrapping_add(7));
        let text = encode_bytes(&bytes).unwrap();
        assert_eq!(text.len(), (bytes.len() + 2) / 3 * 4);
        assert!(text
            .chars()
            .all(|c| c.is_ascii_alphanumeric() || c == '-' || c == '_' || c == '='));
        assert_eq!(decode_bytes(&text).unwrap(), bytes);
    }
}

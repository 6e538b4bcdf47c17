use capture_replay::common::LuStr33;
use capture_replay::common::LuWStr33;
use capture_replay::common::LuWStr41;
use capture_replay::text::encode_utf16;
use capture_replay::text::push_decimal;
use capture_replay::text::FixedAsciiString;
use capture_replay::text::FixedWideString;
use capture_replay::wire::ByteReader;
use capture_replay::wire::DecodeError;

#[test]
fn ascii_string_is_always_full_width() {
    for text in ["", "a", "hello", "exactly thirty-two characters ok!", "a text that is much longer than the buffer can hold"] {
        let value = LuStr33::from_text(text);
        let mut sink = Vec::new();
        value.serialize(&mut sink);
        assert_eq!(sink.len(), 33);
    }
}

#[test]
fn ascii_string_from_text_pads_with_zeros() {
    let value = FixedAsciiString::<6>::from_text("abc");
    assert_eq!(value.0, [b'a', b'b', b'c', 0, 0, 0]);
}

#[test]
fn ascii_string_from_text_keeps_a_terminator() {
    let value = FixedAsciiString::<4>::from_text("abcdef");
    assert_eq!(value.0, [b'a', b'b', b'c', 0]);
    let value = FixedAsciiString::<4>::from_text("abc");
    assert_eq!(value.0, [b'a', b'b', b'c', 0]);
    let value = FixedAsciiString::<1>::from_text("abc");
    assert_eq!(value.0, [0]);
    let value = FixedAsciiString::<0>::from_text("abc");
    assert_eq!(value.0, []);
}

#[test]
fn ascii_string_decodes_bytes_unchanged() {
    let data = [0xffu8, 0, 65, 200, 7];
    let mut reader = ByteReader::new(&data);
    let value = FixedAsciiString::<4>::deserialize(&mut reader).unwrap();
    assert_eq!(value.0, [0xff, 0, 65, 200]);
    assert_eq!(reader.remaining(), 1);
}

#[test]
fn ascii_string_needs_its_width() {
    let data = [1u8; 32];
    let mut reader = ByteReader::new(&data);
    assert_eq!(LuStr33::deserialize(&mut reader), Err(DecodeError::UnexpectedEnd));
    assert_eq!(reader.remaining(), 32);
}

#[test]
fn ascii_string_round_trip() {
    let value = LuStr33::from_text("round trip");
    let mut sink = Vec::new();
    value.serialize(&mut sink);
    let mut reader = ByteReader::new(&sink);
    assert_eq!(LuStr33::deserialize(&mut reader), Ok(value));
    assert_eq!(reader.remaining(), 0);
    let raw = FixedAsciiString::<3>([9, 8, 7]);
    let mut sink = Vec::new();
    raw.serialize(&mut sink);
    assert_eq!(sink, vec![9u8, 8, 7]);
    let mut reader = ByteReader::new(&sink);
    assert_eq!(FixedAsciiString::<3>::deserialize(&mut reader), Ok(raw));
}

#[test]
fn ascii_string_text() {
    assert_eq!(LuStr33::from_text("hello").text(), Some("hello".to_string()));
    assert_eq!(LuStr33::from_text("").text(), Some(String::new()));
    assert_eq!(FixedAsciiString::<4>([b'a', 0, b'b', 0]).text(), Some("a".to_string()));
    assert_eq!(FixedAsciiString::<3>([0xc3, 0xa9, 0]).text(), Some("\u{e9}".to_string()));
}

#[test]
fn ascii_string_text_needs_a_terminator_and_utf8() {
    assert_eq!(FixedAsciiString::<3>([b'a', b'b', b'c']).text(), None);
    assert_eq!(FixedAsciiString::<3>([0xff, b'b', 0]).text(), None);
    assert_eq!(FixedAsciiString::<0>([]).text(), None);
}

#[test]
fn ascii_string_terminator() {
    assert_eq!(FixedAsciiString::<4>([1, 2, 0, 0]).terminator(), 2);
    assert_eq!(FixedAsciiString::<4>([0, 2, 0, 0]).terminator(), 0);
    assert_eq!(FixedAsciiString::<4>([1, 2, 3, 4]).terminator(), 4);
}

#[test]
fn wide_string_is_always_full_width() {
    for text in ["", "a", "hello", "a text that is much longer than the buffer can hold, by far"] {
        let value = LuWStr33::from_text(text);
        let mut sink = Vec::new();
        value.serialize(&mut sink);
        assert_eq!(sink.len(), 66);
    }
    let mut sink = Vec::new();
    LuWStr41::from_text("x").serialize(&mut sink);
    assert_eq!(sink.len(), 82);
}

#[test]
fn wide_string_layout() {
    let value = FixedWideString::<3>([0x1234, 0x00ff, 0]);
    let mut sink = vec![1u8];
    value.serialize(&mut sink);
    assert_eq!(sink, vec![1u8, 0x34, 0x12, 0xff, 0x00, 0, 0]);
}

#[test]
fn wide_string_decodes_little_endian_units() {
    let data = [0x34u8, 0x12, 0xff, 0x00, 0x00, 0xd8, 5];
    let mut reader = ByteReader::new(&data);
    let value = FixedWideString::<3>::deserialize(&mut reader).unwrap();
    assert_eq!(value.0, [0x1234, 0x00ff, 0xd800]);
    assert_eq!(reader.remaining(), 1);
}

#[test]
fn wide_string_needs_its_width() {
    let data = [1u8; 5];
    let mut reader = ByteReader::new(&data);
    assert_eq!(FixedWideString::<3>::deserialize(&mut reader), Err(DecodeError::UnexpectedEnd));
    assert_eq!(reader.remaining(), 5);
}

#[test]
fn wide_string_round_trip() {
    let value = LuWStr33::from_text("round trip \u{1f600}");
    let mut sink = Vec::new();
    value.serialize(&mut sink);
    let mut reader = ByteReader::new(&sink);
    assert_eq!(LuWStr33::deserialize(&mut reader), Ok(value));
    assert_eq!(reader.remaining(), 0);
    let raw = FixedWideString::<2>([0xffff, 0xdc00]);
    let mut sink = Vec::new();
    raw.serialize(&mut sink);
    let mut reader = ByteReader::new(&sink);
    assert_eq!(FixedWideString::<2>::deserialize(&mut reader), Ok(raw));
}

#[test]
fn wide_string_from_text() {
    let value = FixedWideString::<5>::from_text("ab");
    assert_eq!(value.0, [0x61, 0x62, 0, 0, 0]);
    let value = FixedWideString::<3>::from_text("abcdef");
    assert_eq!(value.0, [0x61, 0x62, 0]);
    let value = FixedWideString::<4>::from_text("\u{1f600}");
    assert_eq!(value.0, [0xd83d, 0xde00, 0, 0]);
    let value = FixedWideString::<2>::from_text("\u{1f600}");
    assert_eq!(value.0, [0xd83d, 0]);
}

#[test]
fn utf16_units_of_text() {
    assert_eq!(encode_utf16(""), Vec::<u16>::new());
    assert_eq!(encode_utf16("a\u{e9}"), vec![0x61u16, 0xe9]);
    assert_eq!(encode_utf16("\u{ffff}"), vec![0xffffu16]);
    assert_eq!(encode_utf16("\u{10000}"), vec![0xd800u16, 0xdc00]);
    assert_eq!(encode_utf16("\u{10ffff}"), vec![0xdbffu16, 0xdfff]);
    let text = "mixed \u{20ac} and \u{1f600}!";
    assert_eq!(encode_utf16(text), text.encode_utf16().collect::<Vec<u16>>());
}

#[test]
fn wide_string_text() {
    assert_eq!(LuWStr33::from_text("hello").text(), Some("hello".to_string()));
    assert_eq!(LuWStr33::from_text("\u{1f600}x").text(), Some("\u{1f600}x".to_string()));
    assert_eq!(FixedWideString::<3>([0x61, 0, 0x62]).text(), Some("a".to_string()));
    assert_eq!(FixedWideString::<1>([0]).text(), Some(String::new()));
}

#[test]
fn wide_string_text_needs_a_terminator_and_utf16() {
    assert_eq!(FixedWideString::<2>([0x61, 0x62]).text(), None);
    assert_eq!(FixedWideString::<2>([0xd800, 0]).text(), None);
    assert_eq!(FixedWideString::<0>([]).text(), None);
}

#[test]
fn wide_string_terminator() {
    assert_eq!(FixedWideString::<3>([7, 0, 0]).terminator(), 1);
    assert_eq!(FixedWideString::<3>([7, 8, 9]).terminator(), 3);
}

#[test]
fn decimal_digits() {
    for (value, digits) in [
        (0u64, "0"),
        (7, "7"),
        (10, "10"),
        (109, "109"),
        (65535, "65535"),
        (u64::MAX, "18446744073709551615"),
    ] {
        let mut text = String::from("n=");
        push_decimal(&mut text, value);
        assert_eq!(text, format!("n={}", digits));
    }
}

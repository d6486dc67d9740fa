use ask::client::stream::Utf8DecodeError;
use ask::client::{decode_utf8_chunk, think_tag_prefix_len};

#[test]
fn stream_test_decode_utf8_chunk_split_code_point() {
    let mut raw_buf = Vec::new();
    let mut str_buf = String::new();

    // 🦀 emoji in UTF-8: [240, 159, 166, 128]
    let part1 = &[240, 159];
    let part2 = &[166, 128];

    assert!(decode_utf8_chunk(&mut raw_buf, part1, &mut str_buf).is_ok());
    assert_eq!(str_buf, "");
    assert_eq!(raw_buf, part1);

    assert!(decode_utf8_chunk(&mut raw_buf, part2, &mut str_buf).is_ok());
    assert_eq!(str_buf, "🦀");
    assert!(raw_buf.is_empty());
}

#[test]
fn client_test_decode_utf8_chunk_split_code_point() {
    let mut raw_buf = Vec::new();
    let mut str_buf = String::new();

    // 🦀 emoji in UTF-8: [240, 159, 166, 128]
    let part1 = &[240, 159];
    let part2 = &[166, 128];

    assert!(decode_utf8_chunk(&mut raw_buf, part1, &mut str_buf).is_ok());
    assert_eq!(str_buf, "");
    assert_eq!(raw_buf, part1);

    assert!(decode_utf8_chunk(&mut raw_buf, part2, &mut str_buf).is_ok());
    assert_eq!(str_buf, "🦀");
    assert!(raw_buf.is_empty());
}

#[test]
fn test_think_tag_prefix_len() {
    assert_eq!(think_tag_prefix_len("hello <"), 1);
    assert_eq!(think_tag_prefix_len("hello <th"), 3);
    assert_eq!(think_tag_prefix_len("hello <think"), 6);
    assert_eq!(think_tag_prefix_len("hello <think>"), 0); // Full tag handled separately
    assert_eq!(think_tag_prefix_len("hello world"), 0);
    assert_eq!(think_tag_prefix_len(""), 0);
}

#[test]
fn think_tag_prefix_len_other_lengths() {
    assert_eq!(think_tag_prefix_len("<t"), 2);
    assert_eq!(think_tag_prefix_len("a <thi"), 4);
    assert_eq!(think_tag_prefix_len("a <thin"), 5);
    assert_eq!(think_tag_prefix_len("a <think><"), 1);
    assert_eq!(think_tag_prefix_len("</think"), 0);
}

#[test]
fn decode_utf8_chunk_byte_by_byte_equals_whole() {
    let text = "héllo wörld 🦀 ok";
    let mut raw_buf = Vec::new();
    let mut str_buf = String::new();
    for b in text.as_bytes() {
        assert!(decode_utf8_chunk(&mut raw_buf, &[*b], &mut str_buf).is_ok());
    }
    assert_eq!(str_buf, text);
    assert!(raw_buf.is_empty());
}

#[test]
fn decode_utf8_chunk_keeps_valid_prefix_before_error() {
    let mut raw_buf = Vec::new();
    let mut str_buf = String::from("x");
    let r = decode_utf8_chunk(&mut raw_buf, &[b'a', b'b', 0xff, b'c'], &mut str_buf);
    let e = r.unwrap_err();
    assert_eq!(e, Utf8DecodeError { valid_up_to: 0, error_len: Some(1) });
    assert_eq!(str_buf, "xab");
    assert_eq!(raw_buf, vec![0xff, b'c']);
}

#[test]
fn decode_utf8_chunk_keeps_incomplete_tail() {
    let mut raw_buf = Vec::new();
    let mut str_buf = String::new();
    assert!(decode_utf8_chunk(&mut raw_buf, &[b'o', b'k', 0xe2, 0x82], &mut str_buf).is_ok());
    assert_eq!(str_buf, "ok");
    assert_eq!(raw_buf, vec![0xe2, 0x82]);
    assert!(decode_utf8_chunk(&mut raw_buf, &[0xac], &mut str_buf).is_ok());
    assert_eq!(str_buf, "ok€");
    assert!(raw_buf.is_empty());
}

#[test]
fn utf8_decode_error_messages() {
    let invalid = Utf8DecodeError { valid_up_to: 3, error_len: Some(2) };
    assert_eq!(invalid.message(), "invalid utf-8 sequence of 2 bytes from index 3");
    let incomplete = Utf8DecodeError { valid_up_to: 10, error_len: None };
    assert_eq!(incomplete.message(), "incomplete utf-8 byte sequence from index 10");
    // The wording is that of std's own error.
    let std_err = std::str::from_utf8(&[b'a', 0xff]).unwrap_err();
    let ours = Utf8DecodeError { valid_up_to: std_err.valid_up_to(), error_len: Some(1) };
    assert_eq!(ours.message(), std_err.to_string());
}

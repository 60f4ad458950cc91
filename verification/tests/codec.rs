use wtf8_codec::code_points::CodePoints;
use wtf8_codec::convert::decode_utf16;
use wtf8_codec::convert::encode_utf16;
use wtf8_codec::convert::from_bytes;
use wtf8_codec::convert::from_bytes_unchecked;
use wtf8_codec::convert::from_vec;
use wtf8_codec::error::EncodingError;
use wtf8_codec::wide::DecodeWide;
use wtf8_codec::wide::EncodeWide;

const INVALID_STRING: &[u8] = b"\xF1foo\xF1\x80bar\xF1\x80\x80baz";

#[test]
fn test_invalid_bytes() {
    assert_eq!(
        Err(EncodingError::Byte(b'f')),
        from_bytes(&INVALID_STRING.to_vec()),
    );
    assert_eq!(
        Err(EncodingError::Byte(b'f')),
        from_vec(INVALID_STRING.to_vec()),
    );
}

#[test]
fn test_invalid_vec() {
    assert_eq!(
        Err(EncodingError::Byte(b'f')),
        from_vec(INVALID_STRING.to_vec()),
    );
}

#[test]
fn test_round_trip_ascii() {
    let bytes = b"hello".to_vec();
    let wide = from_bytes(&bytes).unwrap();
    assert_eq!(wide, vec![0x68, 0x65, 0x6C, 0x6C, 0x6F]);
    assert_eq!(decode_utf16(&wide), bytes);
}

#[test]
fn test_round_trip_two_byte() {
    let bytes = vec![0xC3, 0xA9];
    let wide = from_bytes(&bytes).unwrap();
    assert_eq!(wide, vec![0xE9]);
    assert_eq!(decode_utf16(&wide), bytes);
}

#[test]
fn test_round_trip_empty() {
    let bytes: Vec<u8> = Vec::new();
    let wide = from_bytes(&bytes).unwrap();
    assert_eq!(wide, Vec::<u16>::new());
    assert_eq!(decode_utf16(&wide), bytes);
}

#[test]
fn test_lone_high_surrogate_accepted() {
    let bytes = vec![0xED, 0xA0, 0x80];
    let wide = from_bytes(&bytes).unwrap();
    assert_eq!(wide, vec![0xD800]);
    assert_eq!(decode_utf16(&wide), bytes);
}

#[test]
fn test_lone_low_surrogate_accepted() {
    let bytes = vec![0xED, 0xB0, 0x80];
    let wide = from_bytes(&bytes).unwrap();
    assert_eq!(wide, vec![0xDC00]);
    assert_eq!(decode_utf16(&wide), bytes);
}

#[test]
fn test_lone_surrogate_before_other_text() {
    let bytes = vec![0xED, 0xA0, 0x80, b'a'];
    let wide = from_bytes(&bytes).unwrap();
    assert_eq!(wide, vec![0xD800, 0x61]);
    assert_eq!(decode_utf16(&wide), bytes);
}

#[test]
fn test_surrogate_pair_rejected() {
    // U+1F600 written as a split three-plus-three-byte surrogate pair.
    let bytes = vec![0xED, 0xA0, 0xBD, 0xED, 0xB8, 0x80];
    assert_eq!(Err(EncodingError::CodePoint(0xDE00)), from_bytes(&bytes));
}

#[test]
fn test_overlong_three_byte_rejected() {
    let bytes = vec![0xE0, 0x80, 0x80];
    assert_eq!(Err(EncodingError::CodePoint(0)), from_bytes(&bytes));
}

#[test]
fn test_overlong_four_byte_rejected() {
    let bytes = vec![0xF0, 0x80, 0x80, 0x80];
    assert_eq!(Err(EncodingError::CodePoint(0)), from_bytes(&bytes));
}

#[test]
fn test_out_of_range_four_byte_rejected() {
    let bytes = vec![0xF4, 0x90, 0x80, 0x80];
    assert_eq!(Err(EncodingError::CodePoint(0x110000)), from_bytes(&bytes));
}

#[test]
fn test_invalid_leading_bytes_rejected() {
    assert_eq!(Err(EncodingError::Byte(0xC0)), from_bytes(&vec![0xC0]));
    assert_eq!(Err(EncodingError::Byte(0xC1)), from_bytes(&vec![0xC1, 0x80]));
    assert_eq!(Err(EncodingError::Byte(0xF5)), from_bytes(&vec![0xF5, 0x80]));
    assert_eq!(Err(EncodingError::Byte(0x80)), from_bytes(&vec![0x80]));
}

#[test]
fn test_unexpected_end_rejected() {
    assert_eq!(Err(EncodingError::End), from_bytes(&vec![0xC3]));
    assert_eq!(Err(EncodingError::End), from_bytes(&vec![0xE2, 0x82]));
    assert_eq!(Err(EncodingError::End), from_bytes(&vec![0xF0, 0x9F, 0x98]));
}

#[test]
fn test_resynchronization() {
    // An invalid continuation after a four-byte leader is reported once,
    // and decoding resumes at the offending byte.
    let mut decoder = CodePoints::new(vec![0xF1, b'f', b'o', b'o']);
    assert_eq!(Some(Err(EncodingError::Byte(b'f'))), decoder.next());
    assert_eq!(Some(Ok(0x66)), decoder.next());
    assert_eq!(Some(Ok(0x6F)), decoder.next());
    assert_eq!(Some(Ok(0x6F)), decoder.next());
    assert_eq!(None, decoder.next());
}

#[test]
fn test_surrogate_pair_split_and_merge() {
    // U+1F600 in its canonical four-byte form becomes one surrogate pair.
    let bytes = vec![0xF0, 0x9F, 0x98, 0x80];
    let wide = from_bytes(&bytes).unwrap();
    assert_eq!(wide, vec![0xD83D, 0xDE00]);
    assert_eq!(decode_utf16(&vec![0xD83D, 0xDE00]), bytes);
}

#[test]
fn test_encode_idempotent() {
    let bytes = vec![
        b'a', 0xC3, 0xA9, 0xED, 0xA0, 0x80, 0xF0, 0x9F, 0x98, 0x80,
    ];
    let first = from_bytes(&bytes).unwrap();
    let back = decode_utf16(&first);
    assert_eq!(back, bytes);
    let second = from_bytes(&back).unwrap();
    assert_eq!(first, second);
}

#[test]
fn test_unchecked_conversion_matches_checked_on_valid_input() {
    let bytes = vec![b'a', 0xC3, 0xA9, 0xED, 0xA0, 0x80];
    assert_eq!(from_bytes(&bytes).unwrap(), from_bytes_unchecked(&bytes));
}

#[test]
fn test_unchecked_conversion_skips_errors() {
    let bytes = vec![0xF1, b'f', b'o', b'o'];
    assert_eq!(encode_utf16(&bytes), vec![0x66, 0x6F, 0x6F]);
    assert_eq!(from_bytes_unchecked(&bytes), vec![0x66, 0x6F, 0x6F]);
}

#[test]
fn test_encode_wide_steps() {
    let mut encoder = EncodeWide::new(vec![0xF0, 0x9F, 0x98, 0x80, b'z']);
    assert_eq!(Some(Ok(0xD83D)), encoder.next());
    assert_eq!(Some(Ok(0xDE00)), encoder.next());
    assert_eq!(Some(Ok(0x7A)), encoder.next());
    assert_eq!(None, encoder.next());
}

#[test]
fn test_decode_wide_steps() {
    let mut decoder = DecodeWide::new(vec![0xD83D, 0xDE00]);
    assert_eq!(Some(0xF0), decoder.next());
    assert_eq!(Some(0x9F), decoder.next());
    assert_eq!(Some(0x98), decoder.next());
    assert_eq!(Some(0x80), decoder.next());
    assert_eq!(None, decoder.next());
}

#[test]
fn test_size_hint() {
    let encoder = EncodeWide::new(vec![0xF0, 0x9F, 0x98, 0x80, b'z', b'z', b'z']);
    assert_eq!((3, Some(7)), encoder.size_hint());
    let empty = EncodeWide::new(Vec::new());
    assert_eq!((0, Some(0)), empty.size_hint());
}

#[test]
fn test_inner_iter_reports_unconsumed_source() {
    let mut decoder = CodePoints::new(vec![0xC3, 0xA9, b'x']);
    assert_eq!(3, decoder.inner_iter());
    assert_eq!(Some(Ok(0xE9)), decoder.next());
    assert_eq!(1, decoder.inner_iter());
}

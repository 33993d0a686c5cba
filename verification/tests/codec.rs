use bytes::BufMut;
use socket_toolbox::codec::{MessageDecoder, MessageEncoder};
use socket_toolbox::error::Error;
use socket_toolbox::msg::{ItemFormat, ItemValue, Message, MessageFormat};

fn encode(fmt: &MessageFormat, msg: &Message) -> Result<Vec<u8>, Error> {
    MessageEncoder::new(fmt).encode(msg)
}

fn decode(fmt: &MessageFormat, bytes: &[u8]) -> Result<Message, Error> {
    MessageDecoder::new(fmt, bytes).decode()
}

#[test]
fn encode_and_decode_ok() {
    let fmt = MessageFormat::new(&[
        ItemFormat::Len { len: 2 },
        ItemFormat::Uint { len: 2 },
        ItemFormat::Int { len: 1 },
        ItemFormat::FixedString { len: 8 },
        ItemFormat::VarString { len_idx: 0 },
    ])
    .unwrap();

    let msg = Message::new(vec![
        ItemValue::Len(16),
        ItemValue::Uint(2333),
        ItemValue::Int(127),
        ItemValue::String("aaaabbbb".to_string()),
        ItemValue::String("aaaabbbbccccdddd".to_string()),
    ]);

    let bytes = encode(&fmt, &msg);
    assert!(bytes.is_ok());

    let decoded_msg = decode(&fmt, bytes.unwrap().as_slice());

    assert!(decoded_msg.is_ok());

    assert_eq!(msg, decoded_msg.unwrap());
}

#[test]
fn five_field_message_encodes_to_29_bytes() {
    let fmt = MessageFormat::new(&[
        ItemFormat::Len { len: 2 },
        ItemFormat::Uint { len: 2 },
        ItemFormat::Int { len: 1 },
        ItemFormat::FixedString { len: 8 },
        ItemFormat::VarString { len_idx: 0 },
    ])
    .unwrap();
    let msg = Message::new(vec![
        ItemValue::Len(16),
        ItemValue::Uint(2333),
        ItemValue::Int(127),
        ItemValue::String("aaaabbbb".to_string()),
        ItemValue::String("aaaabbbbccccdddd".to_string()),
    ]);
    let bytes = encode(&fmt, &msg).unwrap();
    assert_eq!(bytes.len(), 29);
    assert_eq!(&bytes[0..2], &[0x00, 0x10]);
    assert_eq!(&bytes[2..4], &[0x09, 0x1d]);
    assert_eq!(bytes[4], 0x7f);
    assert_eq!(&bytes[5..13], b"aaaabbbb");
    assert_eq!(&bytes[13..29], b"aaaabbbbccccdddd");
}

#[test]
fn int_width_one_minus_one_is_0xff() {
    let fmt = MessageFormat::new(&[ItemFormat::Int { len: 1 }]).unwrap();
    let msg = Message::new(vec![ItemValue::Int(-1)]);
    let bytes = encode(&fmt, &msg).unwrap();
    assert_eq!(bytes, vec![0xffu8]);

    let decoded = decode(&fmt, &[0xffu8]).unwrap();
    assert_eq!(decoded.values(), &vec![ItemValue::Int(-1)]);
}

#[test]
fn int_round_trips_across_widths() {
    for (len, value) in [
        (1usize, -128i64),
        (1, 127),
        (2, -32768),
        (3, 8_388_607),
        (4, -2_147_483_648),
        (8, i64::MIN),
        (8, i64::MAX),
    ] {
        let fmt = MessageFormat::new(&[ItemFormat::Int { len }]).unwrap();
        let msg = Message::new(vec![ItemValue::Int(value)]);
        let bytes = encode(&fmt, &msg).unwrap();
        assert_eq!(bytes.len(), len);
        assert_eq!(decode(&fmt, &bytes).unwrap(), msg);
    }
}

#[test]
fn uint_big_endian_layout_matches_reference() {
    // The library's big-endian integers agree with the `bytes` crate's.
    for (len, value) in [(1usize, 0xabu64), (2, 0x1234), (4, 0xdeadbeef), (8, u64::MAX)] {
        let fmt = MessageFormat::new(&[ItemFormat::Uint { len }]).unwrap();
        let msg = Message::new(vec![ItemValue::Uint(value)]);
        let encoded = encode(&fmt, &msg).unwrap();
        let mut reference: Vec<u8> = Vec::new();
        reference.put_uint(value, len);
        assert_eq!(encoded, reference);
    }
}

#[test]
fn uint_wider_than_width_keeps_low_bytes() {
    let fmt = MessageFormat::new(&[ItemFormat::Uint { len: 1 }]).unwrap();
    let msg = Message::new(vec![ItemValue::Uint(0x1ff)]);
    let bytes = encode(&fmt, &msg).unwrap();
    assert_eq!(bytes, vec![0xffu8]);
    let decoded = decode(&fmt, &bytes).unwrap();
    assert_eq!(decoded.values(), &vec![ItemValue::Uint(0xff)]);
}

#[test]
fn short_fixed_string_is_zero_padded() {
    let fmt = MessageFormat::new(&[ItemFormat::FixedString { len: 4 }]).unwrap();
    let msg = Message::new(vec![ItemValue::String("ab".to_string())]);
    let bytes = encode(&fmt, &msg).unwrap();
    assert_eq!(bytes, b"ab\0\0".to_vec());
}

#[test]
fn var_bytes_round_trip() {
    let fmt = MessageFormat::new(&[
        ItemFormat::Len { len: 1 },
        ItemFormat::FixedBytes { len: 2 },
        ItemFormat::VarBytes { len_idx: 0 },
    ])
    .unwrap();
    let msg = Message::new(vec![
        ItemValue::Len(3),
        ItemValue::Bytes(vec![0xde, 0xad]),
        ItemValue::Bytes(vec![1, 2, 3]),
    ]);
    let bytes = encode(&fmt, &msg).unwrap();
    assert_eq!(bytes, vec![0x03, 0xde, 0xad, 1, 2, 3]);
    assert_eq!(decode(&fmt, &bytes).unwrap(), msg);
}

#[test]
fn truncated_input_fails_with_end_of_stream() {
    let fmt = MessageFormat::new(&[
        ItemFormat::Len { len: 2 },
        ItemFormat::Uint { len: 2 },
        ItemFormat::Int { len: 1 },
        ItemFormat::FixedString { len: 8 },
        ItemFormat::VarString { len_idx: 0 },
    ])
    .unwrap();
    let msg = Message::new(vec![
        ItemValue::Len(16),
        ItemValue::Uint(2333),
        ItemValue::Int(127),
        ItemValue::String("aaaabbbb".to_string()),
        ItemValue::String("aaaabbbbccccdddd".to_string()),
    ]);
    let bytes = encode(&fmt, &msg).unwrap();
    for cut in [0usize, 1, 4, 12, 28] {
        let r = decode(&fmt, &bytes[..cut]);
        assert!(matches!(r, Err(Error::EndOfStream)), "cut at {}", cut);
    }
}

#[test]
fn invalid_utf8_reports_field_position() {
    let fmt = MessageFormat::new(&[
        ItemFormat::Uint { len: 1 },
        ItemFormat::FixedString { len: 2 },
    ])
    .unwrap();
    let r = decode(&fmt, &[7, 0xff, 0xfe]);
    assert!(matches!(r, Err(Error::FromUtf8 { item_idx: 1 })));
}

#[test]
fn overlong_value_reports_bound() {
    let fmt = MessageFormat::new(&[ItemFormat::FixedString { len: 2 }]).unwrap();
    let msg = Message::new(vec![ItemValue::String("abc".to_string())]);
    let r = encode(&fmt, &msg);
    assert!(matches!(
        r,
        Err(Error::ValueLenOutOfBound { specified_len: 2, item_idx: 0, len: 3 })
    ));
}

#[test]
fn var_string_longer_than_len_value_is_rejected() {
    let fmt = MessageFormat::new(&[
        ItemFormat::Len { len: 1 },
        ItemFormat::VarString { len_idx: 0 },
    ])
    .unwrap();
    let msg = Message::new(vec![
        ItemValue::Len(2),
        ItemValue::String("abc".to_string()),
    ]);
    let r = encode(&fmt, &msg);
    assert!(matches!(
        r,
        Err(Error::ValueLenOutOfBound { specified_len: 2, item_idx: 1, len: 3 })
    ));
}

#[test]
fn empty_schema_is_rejected() {
    let r = MessageFormat::new(&[]);
    assert!(matches!(r, Err(Error::MessageFormatEmpty)));
}

#[test]
fn zero_width_is_rejected() {
    let r = MessageFormat::new(&[ItemFormat::Uint { len: 0 }]);
    assert!(matches!(
        r,
        Err(Error::LenTooSmall { min_len: 1, item_idx: 0, len: 0 })
    ));
    let r = MessageFormat::new(&[ItemFormat::FixedBytes { len: 0 }]);
    assert!(matches!(
        r,
        Err(Error::LenTooSmall { min_len: 1, item_idx: 0, len: 0 })
    ));
}

#[test]
fn nine_byte_integer_width_is_rejected() {
    let r = MessageFormat::new(&[ItemFormat::Len { len: 9 }]);
    assert!(matches!(
        r,
        Err(Error::LenTooLarge { max_len: 8, item_idx: 0, len: 9 })
    ));
    // A fixed string of the same width is fine: only integers are capped.
    assert!(MessageFormat::new(&[ItemFormat::FixedString { len: 9 }]).is_ok());
}

#[test]
fn self_reference_is_rejected() {
    let r = MessageFormat::new(&[
        ItemFormat::Len { len: 1 },
        ItemFormat::VarString { len_idx: 1 },
    ]);
    assert!(matches!(
        r,
        Err(Error::LenIdxTooLarge { item_idx: 1, len_idx: 1 })
    ));
}

#[test]
fn forward_reference_is_rejected() {
    let r = MessageFormat::new(&[
        ItemFormat::VarBytes { len_idx: 1 },
        ItemFormat::Len { len: 1 },
    ]);
    assert!(matches!(
        r,
        Err(Error::LenIdxTooLarge { item_idx: 0, len_idx: 1 })
    ));
}

#[test]
fn reference_to_non_len_field_is_rejected() {
    let r = MessageFormat::new(&[
        ItemFormat::Uint { len: 2 },
        ItemFormat::VarString { len_idx: 0 },
    ]);
    assert!(matches!(
        r,
        Err(Error::NotALen { item_idx: 1, len_idx: 0 })
    ));
}

#[test]
fn validation_reports_first_violation() {
    let r = MessageFormat::new(&[
        ItemFormat::Uint { len: 2 },
        ItemFormat::Int { len: 9 },
        ItemFormat::VarString { len_idx: 0 },
    ]);
    assert!(matches!(
        r,
        Err(Error::LenTooLarge { max_len: 8, item_idx: 1, len: 9 })
    ));
}

#[test]
fn decoded_string_field_carries_its_bytes() {
    // Through the decoder, `String::from_utf8` must hand back the text
    // the bytes encode, not anything else.
    let fmt = MessageFormat::new(&[ItemFormat::FixedString { len: 3 }]).unwrap();
    let decoded = decode(&fmt, b"abc").unwrap();
    assert_eq!(decoded.values(), &vec![ItemValue::String("abc".to_string())]);
}

#[test]
fn trailing_bytes_are_ignored() {
    let fmt = MessageFormat::new(&[ItemFormat::Uint { len: 1 }]).unwrap();
    let decoded = decode(&fmt, &[9, 8, 7]).unwrap();
    assert_eq!(decoded.values(), &vec![ItemValue::Uint(9)]);
}

#[test]
fn length_resolution_defensive_errors() {
    let values = vec![ItemValue::Uint(3)];
    let r = socket_toolbox::msg::value_len_by_idx(1, 5, &values);
    assert!(matches!(r, Err(Error::LenIdxTooLarge { item_idx: 5, len_idx: 1 })));
    let r = socket_toolbox::msg::value_len_by_idx(0, 5, &values);
    assert!(matches!(r, Err(Error::NotALen { item_idx: 5, len_idx: 0 })));
    let lens = vec![ItemValue::Len(9)];
    let r = socket_toolbox::msg::value_len(&ItemFormat::VarString { len_idx: 0 }, 5, &lens);
    assert_eq!(r.unwrap(), 9);
    let r = socket_toolbox::msg::value_len(&ItemFormat::FixedString { len: 4 }, 0, &[]);
    assert_eq!(r.unwrap(), 4);
}

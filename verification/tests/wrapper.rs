use socket_toolbox::error::Error;
use socket_toolbox::msg::{ItemFormat, ItemValue};
use socket_toolbox::wrapper::{
    ItemFormatWrapper, ItemKindWrapper, ItemValueWrapper, ParseError,
};

#[test]
fn parse_decimal_uint_values() {
    let r = ItemValueWrapper::Uint("2333".to_string()).parse();
    assert_eq!(r, Ok(ItemValue::Uint(2333)));
    let r = ItemValueWrapper::Uint("+7".to_string()).parse();
    assert_eq!(r, Ok(ItemValue::Uint(7)));
    let r = ItemValueWrapper::Uint("18446744073709551615".to_string()).parse();
    assert_eq!(r, Ok(ItemValue::Uint(u64::MAX)));
}

#[test]
fn reject_malformed_uint_values() {
    for bad in ["", "12a", "-1", "18446744073709551616", " 5"] {
        let r = ItemValueWrapper::Uint(bad.to_string()).parse();
        match r {
            Err(ParseError::Integer { s }) => assert_eq!(s, bad),
            other => panic!("expected Integer error for {:?}, got {:?}", bad, other),
        }
    }
}

#[test]
fn parse_decimal_int_values() {
    let r = ItemValueWrapper::Int("-8".to_string()).parse();
    assert_eq!(r, Ok(ItemValue::Int(-8)));
    let r = ItemValueWrapper::Int("+127".to_string()).parse();
    assert_eq!(r, Ok(ItemValue::Int(127)));
    let r = ItemValueWrapper::Int("-9223372036854775808".to_string()).parse();
    assert_eq!(r, Ok(ItemValue::Int(i64::MIN)));
    let r = ItemValueWrapper::Int("9223372036854775807".to_string()).parse();
    assert_eq!(r, Ok(ItemValue::Int(i64::MAX)));
}

#[test]
fn reject_out_of_range_int_values() {
    for bad in ["9223372036854775808", "-9223372036854775809", "--1", ""] {
        let r = ItemValueWrapper::Int(bad.to_string()).parse();
        match r {
            Err(ParseError::Integer { s }) => assert_eq!(s, bad),
            other => panic!("expected Integer error for {:?}, got {:?}", bad, other),
        }
    }
}

#[test]
fn parse_hex_byte_values() {
    let r = ItemValueWrapper::Bytes("0aFF".to_string()).parse();
    assert_eq!(r, Ok(ItemValue::Bytes(vec![0x0a, 0xff])));
    let r = ItemValueWrapper::Bytes("".to_string()).parse();
    assert_eq!(r, Ok(ItemValue::Bytes(vec![])));
}

#[test]
fn hex_agrees_with_the_hex_crate() {
    for text in ["deadbeef", "00ff10", "0A1b2C"] {
        let ours = ItemValueWrapper::Bytes(text.to_string()).parse();
        let theirs = hex::decode(text).unwrap();
        assert_eq!(ours, Ok(ItemValue::Bytes(theirs)));
    }
    let bytes = vec![0xde, 0xad, 0x00, 0x1b];
    let ours = ItemValueWrapper::from_item_value(&ItemValue::Bytes(bytes.clone()));
    assert_eq!(ours, ItemValueWrapper::Bytes(hex::encode(&bytes)));
}

#[test]
fn reject_malformed_hex_values() {
    for bad in ["abc", "zz", "0x10"] {
        let r = ItemValueWrapper::Bytes(bad.to_string()).parse();
        match r {
            Err(ParseError::Bytes { s }) => assert_eq!(s, bad),
            other => panic!("expected Bytes error for {:?}, got {:?}", bad, other),
        }
    }
}

#[test]
fn string_and_len_values_pass_through() {
    let r = ItemValueWrapper::String("hello".to_string()).parse();
    assert_eq!(r, Ok(ItemValue::String("hello".to_string())));
    let r = ItemValueWrapper::Len(16).parse();
    assert_eq!(r, Ok(ItemValue::Len(16)));
}

#[test]
fn render_typed_values_for_editing() {
    let r = ItemValueWrapper::from_item_value(&ItemValue::Uint(2333));
    assert_eq!(r, ItemValueWrapper::Uint("2333".to_string()));
    let r = ItemValueWrapper::from_item_value(&ItemValue::Int(-42));
    assert_eq!(r, ItemValueWrapper::Int("-42".to_string()));
    let r = ItemValueWrapper::from_item_value(&ItemValue::Int(0));
    assert_eq!(r, ItemValueWrapper::Int("0".to_string()));
    let r = ItemValueWrapper::from_item_value(&ItemValue::Int(i64::MIN));
    assert_eq!(r, ItemValueWrapper::Int("-9223372036854775808".to_string()));
    let r = ItemValueWrapper::from_item_value(&ItemValue::Len(9));
    assert_eq!(r, ItemValueWrapper::Len(9));
    let r = ItemValueWrapper::from_item_value(&ItemValue::String("abc".to_string()));
    assert_eq!(r, ItemValueWrapper::String("abc".to_string()));
}

#[test]
fn parse_item_formats() {
    let r = ItemFormatWrapper::Len { len: "2".to_string() }.parse();
    assert_eq!(r, Ok(ItemFormat::Len { len: 2 }));
    let r = ItemFormatWrapper::VarString { len_idx: "0".to_string() }.parse();
    assert_eq!(r, Ok(ItemFormat::VarString { len_idx: 0 }));
    let r = ItemFormatWrapper::FixedBytes { len: "16".to_string() }.parse();
    assert_eq!(r, Ok(ItemFormat::FixedBytes { len: 16 }));
    let r = ItemFormatWrapper::Uint { len: "x".to_string() }.parse();
    match r {
        Err(ParseError::Integer { s }) => assert_eq!(s, "x"),
        other => panic!("expected Integer error, got {:?}", other),
    }
}

#[test]
fn kinds_match_their_formats() {
    let fmt = ItemFormatWrapper::VarBytes { len_idx: "0".to_string() };
    assert_eq!(ItemKindWrapper::from_item_format(&fmt), ItemKindWrapper::VarBytes);
    let fmt = ItemFormatWrapper::Int { len: "1".to_string() };
    assert_eq!(ItemKindWrapper::from_item_format(&fmt), ItemKindWrapper::Int);
}

#[test]
fn fresh_fields_get_unit_widths() {
    let f = ItemKindWrapper::Uint.default_item_format();
    assert_eq!(f, ItemFormatWrapper::Uint { len: "1".to_string() });
    let f = ItemKindWrapper::VarString.default_item_format();
    assert_eq!(f, ItemFormatWrapper::VarString { len_idx: "0".to_string() });
    let v = ItemKindWrapper::Len.default_item_value();
    assert_eq!(v, ItemValueWrapper::Len(0));
    let v = ItemKindWrapper::FixedBytes.default_item_value();
    assert_eq!(v, ItemValueWrapper::Bytes(String::new()));
}

#[test]
fn parse_errors_carry_their_field_position() {
    let e = ParseError::Integer { s: "x".to_string() }.global_error(3);
    match e {
        Error::IntegerParse { s, item_idx } => {
            assert_eq!(s, "x");
            assert_eq!(item_idx, 3);
        },
        other => panic!("expected IntegerParse, got {:?}", other),
    }
    let e = ParseError::Bytes { s: "zz".to_string() }.global_error(1);
    match e {
        Error::BytesParse { s, item_idx } => {
            assert_eq!(s, "zz");
            assert_eq!(item_idx, 1);
        },
        other => panic!("expected BytesParse, got {:?}", other),
    }
}

#[test]
fn rendered_values_parse_back() {
    for v in [0u64, 7, 2333, u64::MAX] {
        let w = ItemValueWrapper::from_item_value(&ItemValue::Uint(v));
        assert_eq!(w.parse(), Ok(ItemValue::Uint(v)));
    }
    for v in [0i64, -1, i64::MIN, i64::MAX] {
        let w = ItemValueWrapper::from_item_value(&ItemValue::Int(v));
        assert_eq!(w.parse(), Ok(ItemValue::Int(v)));
    }
    for bytes in [vec![], vec![0x00], vec![0xde, 0xad, 0xbe, 0xef]] {
        let w = ItemValueWrapper::from_item_value(&ItemValue::Bytes(bytes.clone()));
        assert_eq!(w.parse(), Ok(ItemValue::Bytes(bytes)));
    }
}

//! The string-backed counterparts of the message types, as an editing
//! surface holds them: every numeric parameter is kept as the text typed
//! for it, and turned into a typed value — or a parse error naming the
//! offending text — only when a schema or message is assembled.

use vstd::prelude::*;
use vstd::utf8::encode_utf8;

use crate::error::Error;
use crate::msg::{ItemFormat, ItemValue};
use crate::text::{
    dec_digits,
    dec_digits_signed,
    hex_decode,
    hex_encode,
    i64_to_string,
    parse_i64,
    parse_u64,
    parse_usize,
    spec_hex_decode,
    spec_hex_encode,
    spec_parse_i64,
    spec_parse_u64,
    spec_parse_usize,
    u64_to_string,
};

verus! {

/// The kinds a field can be edited as, one per [`ItemFormat`] case.
#[derive(Debug, Clone, PartialEq, Eq, Structural)]
pub enum ItemKindWrapper {
    Len,
    Uint,
    Int,
    FixedString,
    VarString,
    FixedBytes,
    VarBytes,
}

/// A field format as typed: the width or length index still text.
#[derive(Debug, Clone, PartialEq)]
pub enum ItemFormatWrapper {
    Len { len: String },
    Uint { len: String },
    Int { len: String },
    FixedString { len: String },
    VarString { len_idx: String },
    FixedBytes { len: String },
    VarBytes { len_idx: String },
}

/// A field value as typed: numbers in decimal, bytes in hexadecimal.
/// A `Len` value is not edited directly — it follows the lengths of the
/// values that refer to it — so it stays numeric.
#[derive(Debug, Clone, PartialEq)]
pub enum ItemValueWrapper {
    Len(u64),
    Uint(String),
    Int(String),
    String(String),
    Bytes(String),
}

/// A failure to read a typed text as the value its field calls for,
/// carrying the offending text.
#[derive(Debug, Clone, PartialEq)]
pub enum ParseError {
    Integer { s: String },
    Bytes { s: String },
}

impl ItemKindWrapper {
    /// The kind of an edited field format.
    pub fn from_item_format(fmt: &ItemFormatWrapper) -> (r: Self)
        ensures
            r == match *fmt {
                ItemFormatWrapper::Len { .. } => ItemKindWrapper::Len,
                ItemFormatWrapper::Uint { .. } => ItemKindWrapper::Uint,
                ItemFormatWrapper::Int { .. } => ItemKindWrapper::Int,
                ItemFormatWrapper::FixedString { .. } => ItemKindWrapper::FixedString,
                ItemFormatWrapper::VarString { .. } => ItemKindWrapper::VarString,
                ItemFormatWrapper::FixedBytes { .. } => ItemKindWrapper::FixedBytes,
                ItemFormatWrapper::VarBytes { .. } => ItemKindWrapper::VarBytes,
            },
    {
        match fmt {
            ItemFormatWrapper::Len { .. } => Self::Len,
            ItemFormatWrapper::Uint { .. } => Self::Uint,
            ItemFormatWrapper::Int { .. } => Self::Int,
            ItemFormatWrapper::FixedString { .. } => Self::FixedString,
            ItemFormatWrapper::VarString { .. } => Self::VarString,
            ItemFormatWrapper::FixedBytes { .. } => Self::FixedBytes,
            ItemFormatWrapper::VarBytes { .. } => Self::VarBytes,
        }
    }

    /// A freshly added field's format for this kind: width `1`, or
    /// length index `0` for the variable kinds.
    pub fn default_item_format(&self) -> (r: ItemFormatWrapper)
        ensures
            match *self {
                ItemKindWrapper::Len => r matches ItemFormatWrapper::Len { len } && len@ == "1"@,
                ItemKindWrapper::Uint => r matches ItemFormatWrapper::Uint { len } && len@ == "1"@,
                ItemKindWrapper::Int => r matches ItemFormatWrapper::Int { len } && len@ == "1"@,
                ItemKindWrapper::FixedString => r matches ItemFormatWrapper::FixedString { len }
                    && len@ == "1"@,
                ItemKindWrapper::VarString => r matches ItemFormatWrapper::VarString { len_idx }
                    && len_idx@ == "0"@,
                ItemKindWrapper::FixedBytes => r matches ItemFormatWrapper::FixedBytes { len }
                    && len@ == "1"@,
                ItemKindWrapper::VarBytes => r matches ItemFormatWrapper::VarBytes { len_idx }
                    && len_idx@ == "0"@,
            },
    {
        match self {
            Self::Len => ItemFormatWrapper::Len { len: "1".to_owned() },
            Self::Uint => ItemFormatWrapper::Uint { len: "1".to_owned() },
            Self::Int => ItemFormatWrapper::Int { len: "1".to_owned() },
            Self::FixedString => ItemFormatWrapper::FixedString { len: "1".to_owned() },
            Self::VarString => ItemFormatWrapper::VarString { len_idx: "0".to_owned() },
            Self::FixedBytes => ItemFormatWrapper::FixedBytes { len: "1".to_owned() },
            Self::VarBytes => ItemFormatWrapper::VarBytes { len_idx: "0".to_owned() },
        }
    }

    /// A freshly added field's value for this kind: zero, or empty text
    /// and bytes.
    pub fn default_item_value(&self) -> (r: ItemValueWrapper)
        ensures
            match *self {
                ItemKindWrapper::Len => r == ItemValueWrapper::Len(0),
                ItemKindWrapper::Uint => r matches ItemValueWrapper::Uint(s) && s@ == "0"@,
                ItemKindWrapper::Int => r matches ItemValueWrapper::Int(s) && s@ == "0"@,
                ItemKindWrapper::FixedString => r matches ItemValueWrapper::String(s) && s@
                    == Seq::<char>::empty(),
                ItemKindWrapper::VarString => r matches ItemValueWrapper::String(s) && s@
                    == Seq::<char>::empty(),
                ItemKindWrapper::FixedBytes => r matches ItemValueWrapper::Bytes(s) && s@
                    == Seq::<char>::empty(),
                ItemKindWrapper::VarBytes => r matches ItemValueWrapper::Bytes(s) && s@
                    == Seq::<char>::empty(),
            },
    {
        match self {
            Self::Len => ItemValueWrapper::Len(0),
            Self::Uint => ItemValueWrapper::Uint("0".to_owned()),
            Self::Int => ItemValueWrapper::Int("0".to_owned()),
            Self::FixedString => ItemValueWrapper::String(String::new()),
            Self::VarString => ItemValueWrapper::String(String::new()),
            Self::FixedBytes => ItemValueWrapper::Bytes(String::new()),
            Self::VarBytes => ItemValueWrapper::Bytes(String::new()),
        }
    }
}

impl ParseError {
    /// The toolbox-wide error for this parse failure, carrying the
    /// position of the field whose text it was.
    pub fn global_error(&self, item_idx: usize) -> (r: Error)
        ensures
            match *self {
                ParseError::Integer { s: ref es } => r matches Error::IntegerParse {
                    s,
                    item_idx: i,
                } && s == *es && i == item_idx,
                ParseError::Bytes { s: ref es } => r matches Error::BytesParse { s, item_idx: i }
                    && s == *es && i == item_idx,
            },
    {
        match self {
            ParseError::Integer { s } => Error::IntegerParse { s: s.clone(), item_idx },
            ParseError::Bytes { s } => Error::BytesParse { s: s.clone(), item_idx },
        }
    }
}

impl ItemValueWrapper {
    /// The typed value of an edited field value: decimal integers read
    /// under the standard grammar, byte fields read as hexadecimal
    /// digit pairs; a text that does not parse is reported as-is.
    pub fn parse(&self) -> (r: Result<ItemValue, ParseError>)
        ensures
            match *self {
                ItemValueWrapper::Len(v) => r == Ok::<ItemValue, ParseError>(ItemValue::Len(v)),
                ItemValueWrapper::Uint(ref s) => match spec_parse_u64(encode_utf8(s@)) {
                    Some(v) => r == Ok::<ItemValue, ParseError>(ItemValue::Uint(v)),
                    None => r matches Err(ParseError::Integer { s: es }) && es == *s,
                },
                ItemValueWrapper::Int(ref s) => match spec_parse_i64(encode_utf8(s@)) {
                    Some(v) => r == Ok::<ItemValue, ParseError>(ItemValue::Int(v)),
                    None => r matches Err(ParseError::Integer { s: es }) && es == *s,
                },
                ItemValueWrapper::String(ref s) => r matches Ok(ItemValue::String(rs)) && rs == *s,
                ItemValueWrapper::Bytes(ref s) => match spec_hex_decode(encode_utf8(s@)) {
                    Some(bs) => r matches Ok(ItemValue::Bytes(rb)) && rb@ == bs,
                    None => r matches Err(ParseError::Bytes { s: es }) && es == *s,
                },
            },
    {
        match self {
            Self::Len(v) => Ok(ItemValue::Len(*v)),
            Self::Uint(s) => match parse_u64(s.as_str()) {
                Some(v) => Ok(ItemValue::Uint(v)),
                None => Err(ParseError::Integer { s: s.clone() }),
            },
            Self::Int(s) => match parse_i64(s.as_str()) {
                Some(v) => Ok(ItemValue::Int(v)),
                None => Err(ParseError::Integer { s: s.clone() }),
            },
            Self::String(s) => Ok(ItemValue::String(s.clone())),
            Self::Bytes(s) => match hex_decode(s.as_str()) {
                Some(b) => Ok(ItemValue::Bytes(b)),
                None => Err(ParseError::Bytes { s: s.clone() }),
            },
        }
    }

    /// The editable rendering of a typed value: integers in decimal,
    /// bytes in lowercase hexadecimal.
    pub fn from_item_value(value: &ItemValue) -> (r: Self)
        ensures
            match *value {
                ItemValue::Len(v) => r == ItemValueWrapper::Len(v),
                ItemValue::Uint(v) => r matches ItemValueWrapper::Uint(s) && encode_utf8(s@)
                    == dec_digits(v as nat),
                ItemValue::Int(v) => r matches ItemValueWrapper::Int(s) && encode_utf8(s@)
                    == dec_digits_signed(v),
                ItemValue::String(ref st) => r matches ItemValueWrapper::String(s) && s == *st,
                ItemValue::Bytes(ref b) => r matches ItemValueWrapper::Bytes(s) && encode_utf8(s@)
                    == spec_hex_encode(b@),
            },
    {
        match value {
            ItemValue::Len(v) => Self::Len(*v),
            ItemValue::Uint(v) => Self::Uint(u64_to_string(*v)),
            ItemValue::Int(v) => Self::Int(i64_to_string(*v)),
            ItemValue::String(s) => Self::String(s.clone()),
            ItemValue::Bytes(b) => Self::Bytes(hex_encode(b.as_slice())),
        }
    }
}

impl ItemFormatWrapper {
    /// The typed field format of an edited one: the width or length
    /// index read as a decimal `usize`; a text that does not parse is
    /// reported as-is.
    pub fn parse(&self) -> (r: Result<ItemFormat, ParseError>)
        ensures
            match *self {
                ItemFormatWrapper::Len { len: ref s } => match spec_parse_usize(encode_utf8(s@)) {
                    Some(v) => r == Ok::<ItemFormat, ParseError>(ItemFormat::Len { len: v }),
                    None => r matches Err(ParseError::Integer { s: es }) && es == *s,
                },
                ItemFormatWrapper::Uint { len: ref s } => match spec_parse_usize(encode_utf8(s@)) {
                    Some(v) => r == Ok::<ItemFormat, ParseError>(ItemFormat::Uint { len: v }),
                    None => r matches Err(ParseError::Integer { s: es }) && es == *s,
                },
                ItemFormatWrapper::Int { len: ref s } => match spec_parse_usize(encode_utf8(s@)) {
                    Some(v) => r == Ok::<ItemFormat, ParseError>(ItemFormat::Int { len: v }),
                    None => r matches Err(ParseError::Integer { s: es }) && es == *s,
                },
                ItemFormatWrapper::FixedString { len: ref s } => match spec_parse_usize(
                    encode_utf8(s@),
                ) {
                    Some(v) => r == Ok::<ItemFormat, ParseError>(ItemFormat::FixedString { len: v }),
                    None => r matches Err(ParseError::Integer { s: es }) && es == *s,
                },
                ItemFormatWrapper::VarString { len_idx: ref s } => match spec_parse_usize(
                    encode_utf8(s@),
                ) {
                    Some(v) => r == Ok::<ItemFormat, ParseError>(
                        ItemFormat::VarString { len_idx: v },
                    ),
                    None => r matches Err(ParseError::Integer { s: es }) && es == *s,
                },
                ItemFormatWrapper::FixedBytes { len: ref s } => match spec_parse_usize(
                    encode_utf8(s@),
                ) {
                    Some(v) => r == Ok::<ItemFormat, ParseError>(ItemFormat::FixedBytes { len: v }),
                    None => r matches Err(ParseError::Integer { s: es }) && es == *s,
                },
                ItemFormatWrapper::VarBytes { len_idx: ref s } => match spec_parse_usize(
                    encode_utf8(s@),
                ) {
                    Some(v) => r == Ok::<ItemFormat, ParseError>(
                        ItemFormat::VarBytes { len_idx: v },
                    ),
                    None => r matches Err(ParseError::Integer { s: es }) && es == *s,
                },
            },
    {
        match self {
            Self::Len { len } => match parse_usize(len.as_str()) {
                Some(v) => Ok(ItemFormat::Len { len: v }),
                None => Err(ParseError::Integer { s: len.clone() }),
            },
            Self::Uint { len } => match parse_usize(len.as_str()) {
                Some(v) => Ok(ItemFormat::Uint { len: v }),
                None => Err(ParseError::Integer { s: len.clone() }),
            },
            Self::Int { len } => match parse_usize(len.as_str()) {
                Some(v) => Ok(ItemFormat::Int { len: v }),
                None => Err(ParseError::Integer { s: len.clone() }),
            },
            Self::FixedString { len } => match parse_usize(len.as_str()) {
                Some(v) => Ok(ItemFormat::FixedString { len: v }),
                None => Err(ParseError::Integer { s: len.clone() }),
            },
            Self::VarString { len_idx } => match parse_usize(len_idx.as_str()) {
                Some(v) => Ok(ItemFormat::VarString { len_idx: v }),
                None => Err(ParseError::Integer { s: len_idx.clone() }),
            },
            Self::FixedBytes { len } => match parse_usize(len.as_str()) {
                Some(v) => Ok(ItemFormat::FixedBytes { len: v }),
                None => Err(ParseError::Integer { s: len.clone() }),
            },
            Self::VarBytes { len_idx } => match parse_usize(len_idx.as_str()) {
                Some(v) => Ok(ItemFormat::VarBytes { len_idx: v }),
                None => Err(ParseError::Integer { s: len_idx.clone() }),
            },
        }
    }
}

} // verus!

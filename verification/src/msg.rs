//! The message data model: field formats, the validated schema
//! (`MessageFormat`), field values, messages, and the resolution of each
//! field's byte length against the values materialized so far.

use vstd::prelude::*;

use crate::error::Error;

verus! {

/// The widest big-endian integer a field may hold, in bytes: integer
/// fields round-trip through a 64-bit container.
pub const MAX_INT_WIDTH: usize = 8;

/// How one field of a message is sized and interpreted on the wire.
///
/// Fixed kinds carry their byte width directly; `VarString` and `VarBytes`
/// take their width from the decoded value of an earlier `Len` field,
/// named by position.
#[derive(Debug, Clone, Copy, PartialEq, Eq, Structural)]
pub enum ItemFormat {
    Len { len: usize },
    Uint { len: usize },
    Int { len: usize },
    FixedString { len: usize },
    VarString { len_idx: usize },
    FixedBytes { len: usize },
    VarBytes { len_idx: usize },
}

/// The value of one decoded or to-be-encoded field.
#[derive(Debug, Clone, PartialEq)]
pub enum ItemValue {
    Len(u64),
    Uint(u64),
    Int(i64),
    String(String),
    Bytes(Vec<u8>),
}

/// The mathematical shape of an [`ItemValue`]: text as a character
/// sequence, raw bytes as a byte sequence.
pub enum ItemValueView {
    Len(u64),
    Uint(u64),
    Int(i64),
    Str(Seq<char>),
    Bytes(Seq<u8>),
}

impl View for ItemValue {
    type V = ItemValueView;

    open spec fn view(&self) -> ItemValueView {
        match self {
            ItemValue::Len(v) => ItemValueView::Len(*v),
            ItemValue::Uint(v) => ItemValueView::Uint(*v),
            ItemValue::Int(v) => ItemValueView::Int(*v),
            ItemValue::String(s) => ItemValueView::Str(s@),
            ItemValue::Bytes(b) => ItemValueView::Bytes(b@),
        }
    }
}

/// The views of a sequence of field values.
pub open spec fn vals_view(vs: Seq<ItemValue>) -> Seq<ItemValueView> {
    vs.map_values(|v: ItemValue| v@)
}

/// Whether field `i` of the schema obeys the construction rules: integer
/// widths lie in 1..=8, string and byte widths are at least 1, and a
/// variable-length field refers strictly backwards to a `Len` field.
pub open spec fn item_valid(fmts: Seq<ItemFormat>, i: int) -> bool {
    match fmts[i] {
        ItemFormat::Len { len } => 1 <= len <= MAX_INT_WIDTH,
        ItemFormat::Uint { len } => 1 <= len <= MAX_INT_WIDTH,
        ItemFormat::Int { len } => 1 <= len <= MAX_INT_WIDTH,
        ItemFormat::FixedString { len } => 1 <= len,
        ItemFormat::FixedBytes { len } => 1 <= len,
        ItemFormat::VarString { len_idx } => len_idx < i && fmts[len_idx as int] is Len,
        ItemFormat::VarBytes { len_idx } => len_idx < i && fmts[len_idx as int] is Len,
    }
}

/// The error that validation reports for field `i`, meaningful when
/// `item_valid(fmts, i)` fails.
pub open spec fn item_error(fmts: Seq<ItemFormat>, i: int) -> Error {
    match fmts[i] {
        ItemFormat::Len { len } | ItemFormat::Uint { len } | ItemFormat::Int { len } => if len < 1 {
            Error::LenTooSmall { min_len: 1, item_idx: i as usize, len }
        } else {
            Error::LenTooLarge { max_len: MAX_INT_WIDTH, item_idx: i as usize, len }
        },
        ItemFormat::FixedString { len } | ItemFormat::FixedBytes { len } => Error::LenTooSmall {
            min_len: 1,
            item_idx: i as usize,
            len,
        },
        ItemFormat::VarString { len_idx } | ItemFormat::VarBytes { len_idx } => if len_idx >= i {
            Error::LenIdxTooLarge { item_idx: i as usize, len_idx }
        } else {
            Error::NotALen { item_idx: i as usize, len_idx }
        },
    }
}

/// A schema is valid when it is non-empty and every field obeys the rules.
pub open spec fn format_valid(fmts: Seq<ItemFormat>) -> bool {
    &&& fmts.len() > 0
    &&& forall|i: int| 0 <= i < fmts.len() ==> #[trigger] item_valid(fmts, i)
}

/// An ordered, validated schema: the sequence of field formats a message
/// is laid out by. Immutable once constructed, so the construction-time
/// invariants never need re-checking.
#[derive(Debug, Clone, PartialEq)]
pub struct MessageFormat {
    fmts: Vec<ItemFormat>,
}

impl View for MessageFormat {
    type V = Seq<ItemFormat>;

    closed spec fn view(&self) -> Seq<ItemFormat> {
        self.fmts@
    }
}

impl MessageFormat {
    /// A constructed schema always satisfies the validation rules.
    pub open spec fn wf(&self) -> bool {
        format_valid(self@)
    }

    /// Validates the fields in order and keeps them; reports the first
    /// violation as the specific rule broken at the offending position.
    pub fn new(fmts: &[ItemFormat]) -> (r: Result<MessageFormat, Error>)
        ensures
            r matches Ok(m) ==> m@ == fmts@ && m.wf(),
            r is Ok <==> format_valid(fmts@),
            r matches Err(e) ==> if fmts@.len() == 0 {
                e == Error::MessageFormatEmpty
            } else {
                exists|i: int|
                    0 <= i < fmts@.len() && !(#[trigger] item_valid(fmts@, i)) && (forall|j: int|
                        0 <= j < i ==> #[trigger] item_valid(fmts@, j)) && e == item_error(fmts@, i)
            },
    {
        if fmts.len() == 0 {
            return Err(Error::MessageFormatEmpty);
        }
        let n = fmts.len();
        let mut idx: usize = 0;
        while idx < n
            invariant
                n == fmts@.len(),
                idx <= n,
                forall|j: int| 0 <= j < idx ==> #[trigger] item_valid(fmts@, j),
            decreases n - idx,
        {
            let fmt = vstd::slice::slice_index_get(fmts, idx);
            match Self::validate_fmt(fmt, idx, fmts) {
                Ok(()) => {},
                Err(e) => {
                    return Err(e);
                },
            }
            idx = idx + 1;
        }
        Ok(MessageFormat { fmts: vstd::slice::slice_to_vec(fmts) })
    }

    /// Checks the single field at `idx` against the schema rules.
    pub fn validate_fmt(fmt: &ItemFormat, idx: usize, fmts: &[ItemFormat]) -> (r: Result<
        (),
        Error,
    >)
        requires
            idx < fmts@.len(),
            *fmt == fmts@[idx as int],
        ensures
            r is Ok <==> item_valid(fmts@, idx as int),
            r matches Err(e) ==> e == item_error(fmts@, idx as int),
    {
        match fmt {
            ItemFormat::Len { len } | ItemFormat::Uint { len } | ItemFormat::Int { len } => {
                if *len < 1 {
                    Err(Error::LenTooSmall { min_len: 1, item_idx: idx, len: *len })
                } else if *len > MAX_INT_WIDTH {
                    Err(Error::LenTooLarge { max_len: MAX_INT_WIDTH, item_idx: idx, len: *len })
                } else {
                    Ok(())
                }
            },
            ItemFormat::FixedString { len } | ItemFormat::FixedBytes { len } => {
                if *len < 1 {
                    Err(Error::LenTooSmall { min_len: 1, item_idx: idx, len: *len })
                } else {
                    Ok(())
                }
            },
            ItemFormat::VarString { len_idx } | ItemFormat::VarBytes { len_idx } => {
                if *len_idx >= idx {
                    Err(Error::LenIdxTooLarge { item_idx: idx, len_idx: *len_idx })
                } else {
                    let target = vstd::slice::slice_index_get(fmts, *len_idx);
                    if matches!(target, ItemFormat::Len { .. }) {
                        Ok(())
                    } else {
                        Err(Error::NotALen { item_idx: idx, len_idx: *len_idx })
                    }
                }
            },
        }
    }

    /// The fields of the schema, in order.
    pub fn fmts(&self) -> (r: &Vec<ItemFormat>)
        ensures
            r@ == self@,
    {
        &self.fmts
    }

    /// The number of fields in the schema.
    pub fn len(&self) -> (r: usize)
        ensures
            r == self@.len(),
    {
        self.fmts.len()
    }
}

/// An ordered sequence of field values, positionally aligned with the
/// schema that produced it or will consume it.
#[derive(Debug, Clone, PartialEq)]
pub struct Message {
    pub values: Vec<ItemValue>,
}

impl View for Message {
    type V = Seq<ItemValueView>;

    open spec fn view(&self) -> Seq<ItemValueView> {
        vals_view(self.values@)
    }
}

impl Message {
    pub fn new(values: Vec<ItemValue>) -> (r: Message)
        ensures
            r.values == values,
    {
        Message { values }
    }

    pub fn values(&self) -> (r: &Vec<ItemValue>)
        ensures
            r == &self.values,
    {
        &self.values
    }
}

/// The byte length a field resolves to against the values materialized so
/// far: the declared width for fixed kinds, the referenced `Len` value for
/// variable kinds, or nothing when the reference cannot be satisfied.
pub open spec fn spec_resolved_len(fmt: ItemFormat, vals: Seq<ItemValueView>) -> Option<int> {
    match fmt {
        ItemFormat::Len { len } => Some(len as int),
        ItemFormat::Uint { len } => Some(len as int),
        ItemFormat::Int { len } => Some(len as int),
        ItemFormat::FixedString { len } => Some(len as int),
        ItemFormat::FixedBytes { len } => Some(len as int),
        ItemFormat::VarString { len_idx } | ItemFormat::VarBytes { len_idx } => if len_idx
            < vals.len() {
            match vals[len_idx as int] {
                ItemValueView::Len(v) => Some(v as int),
                _ => None,
            }
        } else {
            None
        },
    }
}

/// The error length resolution reports for the field at `item_idx`,
/// meaningful when `spec_resolved_len` yields nothing.
pub open spec fn resolved_len_error(
    fmt: ItemFormat,
    item_idx: usize,
    vals: Seq<ItemValueView>,
) -> Error {
    match fmt {
        ItemFormat::VarString { len_idx } | ItemFormat::VarBytes { len_idx } => if len_idx
            >= vals.len() {
            Error::LenIdxTooLarge { item_idx, len_idx }
        } else {
            Error::NotALen { item_idx, len_idx }
        },
        _ => Error::NotALen { item_idx, len_idx: 0 },
    }
}

/// Looks up the `Len` value at `len_idx` among the values materialized so
/// far; fails when the index is not yet populated or the value there is
/// not a length.
pub fn value_len_by_idx(len_idx: usize, item_idx: usize, values: &[ItemValue]) -> (r: Result<
    u64,
    Error,
>)
    ensures
        match r {
            Ok(l) => len_idx < values@.len() && vals_view(values@)[len_idx as int]
                == ItemValueView::Len(l),
            Err(e) => {
                &&& if len_idx >= values@.len() {
                    e == Error::LenIdxTooLarge { item_idx, len_idx }
                } else {
                    !(vals_view(values@)[len_idx as int] is Len) && e == Error::NotALen {
                        item_idx,
                        len_idx,
                    }
                }
            },
        },
{
    if len_idx < values.len() {
        match vstd::slice::slice_index_get(values, len_idx) {
            ItemValue::Len(v) => Ok(*v),
            _ => Err(Error::NotALen { item_idx, len_idx }),
        }
    } else {
        Err(Error::LenIdxTooLarge { item_idx, len_idx })
    }
}

/// Resolves the byte length of the field at `item_idx` against the values
/// materialized so far.
pub fn value_len(fmt: &ItemFormat, item_idx: usize, values: &[ItemValue]) -> (r: Result<u64, Error>)
    ensures
        match r {
            Ok(l) => spec_resolved_len(*fmt, vals_view(values@)) == Some(l as int),
            Err(e) => spec_resolved_len(*fmt, vals_view(values@)) is None && e
                == resolved_len_error(*fmt, item_idx, vals_view(values@)),
        },
{
    match fmt {
        ItemFormat::Len { len } => Ok(*len as u64),
        ItemFormat::Uint { len } => Ok(*len as u64),
        ItemFormat::Int { len } => Ok(*len as u64),
        ItemFormat::FixedString { len } => Ok(*len as u64),
        ItemFormat::FixedBytes { len } => Ok(*len as u64),
        ItemFormat::VarString { len_idx } | ItemFormat::VarBytes { len_idx } => {
            value_len_by_idx(*len_idx, item_idx, values)
        },
    }
}

} // verus!

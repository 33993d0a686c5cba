//! The error taxonomy of the toolbox: schema validation, codec, and
//! transport failures, each carrying the position or input that caused it.

use vstd::prelude::*;

verus! {

/// The classes of OS-level I/O failure that the transport logic tells apart.
#[derive(Debug, Clone, Copy, PartialEq, Eq, Structural)]
pub enum IoErrorKind {
    ConnectionReset,
    WouldBlock,
    TimedOut,
    Interrupted,
    Other,
}

/// Every failure the toolbox reports.
#[derive(Debug, Clone, PartialEq)]
pub enum Error {
    /// An OS-level I/O failure, by kind.
    Io { kind: IoErrorKind },
    /// A schema must hold at least one field.
    MessageFormatEmpty,
    /// The given string is not an IPv4 socket address.
    AddrParse { invalid_addr: String },
    /// The given string is not a decimal integer of the expected kind.
    IntegerParse { s: String, item_idx: usize },
    /// The given string is not an even-length hexadecimal digit string.
    BytesParse { s: String, item_idx: usize },
    /// No peer with this address is registered with the server.
    NoSuchClient { addr: String },
    /// The client holds no active connection.
    NotConnected,
    /// A variable-length field refers forward to itself or a later field.
    LenIdxTooLarge { item_idx: usize, len_idx: usize },
    /// The field referred to as a length source is not a `Len` field.
    NotALen { item_idx: usize, len_idx: usize },
    /// A declared byte width is below the minimum for the field's kind.
    LenTooSmall { min_len: usize, item_idx: usize, len: usize },
    /// A declared byte width is above the maximum for the field's kind.
    LenTooLarge { max_len: usize, item_idx: usize, len: usize },
    /// A value is longer than the byte width resolved for its field.
    ValueLenOutOfBound { specified_len: usize, item_idx: usize, len: usize },
    /// The input ended before the current field was complete.
    EndOfStream,
    /// A cooperative stop was requested while waiting for input.
    Stopped,
    /// The bytes of a string field are not valid UTF-8.
    FromUtf8 { item_idx: usize },
}

} // verus!

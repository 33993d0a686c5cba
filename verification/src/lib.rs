//! A runtime-defined binary message toolbox: schemas of typed fields,
//! an encoder/decoder for messages laid out by such a schema, and the
//! state machines of the TCP endpoints that exchange them.

pub mod error;
pub mod codec;
pub mod socket;
pub mod text;
pub mod wrapper;
pub mod msg;
pub mod toggle;

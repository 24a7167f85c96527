//! The bencode forms of the field types: what each is written as, and what
//! is read back.

pub mod numeric_enum;
pub mod option_bool;
pub mod socket_addr;
pub mod text;
pub mod wire;

pub use self::wire::{from_bytes, to_bytes, Same, Wire, WireError};

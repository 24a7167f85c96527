//! Bencode: values, their byte encoding, and the parser that inverts it.

pub mod dict;
pub mod encode;
pub mod laws;
pub mod number;
pub mod parse;
pub mod value;

pub use self::value::{Bencode, BencodeView};

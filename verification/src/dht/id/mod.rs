//! Fixed-width node identifiers.

pub mod id;
pub mod md4;
pub mod sha1;

pub use self::id::NodeId;
pub use self::md4::Md4Id;
pub use self::sha1::Sha1Id;

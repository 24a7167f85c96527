//! A KRPC engine core: the bencode wire codec of the KRPC envelope, the
//! transaction table that matches responses to queries, and the decisions of
//! the service loop, each with a machine-checked contract.

pub mod bencode;
pub mod codec;
pub mod dht;
pub mod rpc;
pub mod serde_extra;
pub mod service;
pub mod trans;

pub use self::codec::{KCodec, KCodecError, KData, KId, KItem};
pub use self::rpc::{KAddress, KError, KErrorKind, KMessage, KQueryArg, KTransId};
pub use self::service::{KOptions, KTransError};
pub use self::trans::KTrans;

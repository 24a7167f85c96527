//! Distributed hash table flavours carried over KRPC.

pub mod bittorrent;
pub mod id;

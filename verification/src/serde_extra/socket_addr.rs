use vstd::prelude::*;
use crate::bencode::{Bencode, BencodeView};
use super::wire::WireError;

verus! {

/// A socket address, held as plain numbers: the address in network order,
/// most significant byte first, and the port.
#[derive(Debug, Clone, Copy, PartialEq, Eq, Hash, Structural)]
#[allow(inconsistent_fields)]
pub enum SocketAddr {
    V4 { ip: u32, port: u16 },
    V6 { ip: u128, port: u16, flowinfo: u32, scope_id: u32 },
}

/// The IPv4 address made of four octets.
pub open spec fn ipv4_of(a: u8, b: u8, c: u8, d: u8) -> u32 {
    ((a as u32) << 24) | ((b as u32) << 16) | ((c as u32) << 8) | (d as u32)
}

/// The port made of its high and its low byte.
pub open spec fn port_of(high: u8, low: u8) -> u16 {
    ((high as u16) << 8) | (low as u16)
}

/// The compact form of an address: the four octets of an IPv4 address and
/// the port, most significant byte first. An IPv6 address has none, and is
/// written as nothing.
pub open spec fn compact(addr: SocketAddr) -> Seq<u8> {
    match addr {
        SocketAddr::V4 { ip, port } => seq![
            ((ip >> 24) & 0xff) as u8,
            ((ip >> 16) & 0xff) as u8,
            ((ip >> 8) & 0xff) as u8,
            (ip & 0xff) as u8,
            ((port >> 8) & 0xff) as u8,
            (port & 0xff) as u8,
        ],
        SocketAddr::V6 { .. } => Seq::empty(),
    }
}

/// The address that six bytes are the compact form of.
pub open spec fn from_compact(b: Seq<u8>) -> Option<SocketAddr> {
    if b.len() == 6 {
        Some(SocketAddr::V4 { ip: ipv4_of(b[0], b[1], b[2], b[3]), port: port_of(b[4], b[5]) })
    } else {
        None
    }
}

/// What a bencode value is read as where a compact address is asked for.
pub open spec fn addr_of_tree(tree: BencodeView) -> Result<SocketAddr, WireError> {
    match tree {
        BencodeView::Bytes(b) => match from_compact(b) {
            Some(addr) => Ok(addr),
            None => Err(WireError::InvalidSocketAddr),
        },
        _ => Err(WireError::InvalidType),
    }
}

/// The compact form of an IPv4 address is six bytes long and is read back as
/// that address.
pub proof fn lemma_compact_round_trip(addr: SocketAddr)
    requires
        addr is V4,
    ensures
        compact(addr).len() == 6,
        from_compact(compact(addr)) == Some(addr),
{
    let ip = addr->V4_ip;
    let port = addr->V4_port;
    assert(ipv4_of(
        ((ip >> 24) & 0xff) as u8,
        ((ip >> 16) & 0xff) as u8,
        ((ip >> 8) & 0xff) as u8,
        (ip & 0xff) as u8,
    ) == ip) by (bit_vector);
    assert(port_of(((port >> 8) & 0xff) as u8, (port & 0xff) as u8) == port) by (bit_vector);
}

/// Six bytes are the compact form of the address that they are read as.
pub proof fn lemma_from_compact_round_trip(b: Seq<u8>)
    requires
        b.len() == 6,
    ensures
        compact(from_compact(b)->Some_0) == b,
{
    let (b0, b1, b2, b3, b4, b5) = (b[0], b[1], b[2], b[3], b[4], b[5]);
    let ip = ipv4_of(b0, b1, b2, b3);
    let port = port_of(b4, b5);
    assert(((ip >> 24) & 0xff) as u8 == b0 && ((ip >> 16) & 0xff) as u8 == b1 && ((ip >> 8)
        & 0xff) as u8 == b2 && (ip & 0xff) as u8 == b3) by (bit_vector)
        requires
            ip == ((b0 as u32) << 24) | ((b1 as u32) << 16) | ((b2 as u32) << 8) | (b3 as u32),
    ;
    assert(((port >> 8) & 0xff) as u8 == b4 && (port & 0xff) as u8 == b5) by (bit_vector)
        requires
            port == ((b4 as u16) << 8) | (b5 as u16),
    ;
    assert(compact(from_compact(b)->Some_0) =~= b);
}

impl SocketAddr {
    /// The IPv4 socket address `a.b.c.d:port`.
    pub fn v4(a: u8, b: u8, c: u8, d: u8, port: u16) -> (addr: SocketAddr)
        ensures
            addr == (SocketAddr::V4 { ip: ipv4_of(a, b, c, d), port }),
    {
        let ip: u32 = ((a as u32) << 24) | ((b as u32) << 16) | ((c as u32) << 8) | (d as u32);
        SocketAddr::V4 { ip, port }
    }
}

/// Appends the compact form of an address.
pub fn to_bytes(buf: &mut Vec<u8>, addr: &SocketAddr)
    ensures
        final(buf)@ == old(buf)@ + compact(*addr),
{
    match addr {
        SocketAddr::V4 { ip, port } => {
            let ip: u32 = *ip;
            let port: u16 = *port;
            assert((ip >> 24) & 0xff <= 0xff && (ip >> 16) & 0xff <= 0xff && (ip >> 8) & 0xff
                <= 0xff && ip & 0xff <= 0xff) by (bit_vector);
            assert((port >> 8) & 0xff <= 0xff && port & 0xff <= 0xff) by (bit_vector);
            buf.push(((ip >> 24) & 0xff) as u8);
            buf.push(((ip >> 16) & 0xff) as u8);
            buf.push(((ip >> 8) & 0xff) as u8);
            buf.push((ip & 0xff) as u8);
            buf.push(((port >> 8) & 0xff) as u8);
            buf.push((port & 0xff) as u8);
            assert(buf@ =~= old(buf)@ + compact(*addr));
        },
        SocketAddr::V6 { .. } => {
            assert(buf@ =~= old(buf)@ + compact(*addr));
        },
    }
}

/// Reads the compact form of an address: exactly six bytes.
pub fn from_bytes(buf: &[u8]) -> (r: Result<SocketAddr, ()>)
    ensures
        r == match from_compact(buf@) {
            Some(addr) => Ok::<SocketAddr, ()>(addr),
            None => Err::<SocketAddr, ()>(()),
        },
{
    if buf.len() == 6 {
        let ip: u32 = ((buf[0] as u32) << 24) | ((buf[1] as u32) << 16) | ((buf[2] as u32) << 8)
            | (buf[3] as u32);
        let port: u16 = ((buf[4] as u16) << 8) | (buf[5] as u16);
        Ok(SocketAddr::V4 { ip, port })
    } else {
        Err(())
    }
}

/// Writes an address as a byte string that holds its compact form.
pub fn serialize(addr: &SocketAddr) -> (tree: Bencode)
    ensures
        tree@ == BencodeView::Bytes(compact(*addr)),
{
    let mut buf: Vec<u8> = Vec::new();
    to_bytes(&mut buf, addr);
    assert(buf@ =~= compact(*addr));
    Bencode::Bytes(buf)
}

/// Reads an address from a byte string that holds its compact form.
pub fn deserialize(tree: &Bencode) -> (r: Result<SocketAddr, WireError>)
    ensures
        r == addr_of_tree(tree@),
{
    match tree.as_bytes() {
        Some(buf) => match from_bytes(buf.as_slice()) {
            Ok(addr) => Ok(addr),
            Err(_) => Err(WireError::InvalidSocketAddr),
        },
        None => Err(WireError::InvalidType),
    }
}

} // verus!

use vstd::prelude::*;
use crate::bencode::dict::{
    bytes_eq, bytes_to_vec, dict_get, lemma_dict_get_found, lemma_dict_get_missing, lex_lt,
    lex_lt_from,
};
use crate::bencode::{Bencode, BencodeView};
use crate::rpc::KQueryArg;
use crate::serde_extra::option_bool::{flag_of, flag_wire};
use crate::serde_extra::socket_addr::{
    addr_of_tree, compact, from_compact, lemma_compact_round_trip, SocketAddr,
};
use crate::serde_extra::{option_bool, socket_addr, Same, Wire, WireError};
use super::id::id::id_of_tree;
use super::id::sha1;
use super::id::Sha1Id;

verus! {

/// The identifiers of the BitTorrent DHT are 160 bits wide.
pub type BtDhtId = Sha1Id;

/// The method name `ping`.
pub const NAME_PING: [u8; 4] = [0x70, 0x69, 0x6e, 0x67];

/// The method name `find_node`.
pub const NAME_FIND_NODE: [u8; 9] = [0x66, 0x69, 0x6e, 0x64, 0x5f, 0x6e, 0x6f, 0x64, 0x65];

/// The method name `get_peers`.
pub const NAME_GET_PEERS: [u8; 9] = [0x67, 0x65, 0x74, 0x5f, 0x70, 0x65, 0x65, 0x72, 0x73];

/// The method name `announce_peer`.
pub const NAME_ANNOUNCE_PEER: [u8; 13] = [
    0x61,
    0x6e,
    0x6e,
    0x6f,
    0x75,
    0x6e,
    0x63,
    0x65,
    0x5f,
    0x70,
    0x65,
    0x65,
    0x72,
];

/// The key `id`.
pub const KEY_ID: [u8; 2] = [0x69, 0x64];

/// The key `implied_port`.
pub const KEY_IMPLIED_PORT: [u8; 12] = [
    0x69,
    0x6d,
    0x70,
    0x6c,
    0x69,
    0x65,
    0x64,
    0x5f,
    0x70,
    0x6f,
    0x72,
    0x74,
];

/// The key `info_hash`.
pub const KEY_INFO_HASH: [u8; 9] = [0x69, 0x6e, 0x66, 0x6f, 0x5f, 0x68, 0x61, 0x73, 0x68];

/// The key `nodes`.
pub const KEY_NODES: [u8; 5] = [0x6e, 0x6f, 0x64, 0x65, 0x73];

/// The key `port`.
pub const KEY_PORT: [u8; 4] = [0x70, 0x6f, 0x72, 0x74];

/// The key `target`.
pub const KEY_TARGET: [u8; 6] = [0x74, 0x61, 0x72, 0x67, 0x65, 0x74];

/// The key `token`.
pub const KEY_TOKEN: [u8; 5] = [0x74, 0x6f, 0x6b, 0x65, 0x6e];

/// The key `values`.
pub const KEY_VALUES: [u8; 6] = [0x76, 0x61, 0x6c, 0x75, 0x65, 0x73];

/// The name of a query of the BitTorrent DHT.
#[derive(Debug, Copy, Clone, PartialEq, Eq, Structural)]
pub enum BtDhtQuery {
    Ping,
    FindNode,
    GetPeers,
    AnnouncePeer,
}

impl View for BtDhtQuery {
    type V = BtDhtQuery;

    open spec fn view(&self) -> BtDhtQuery {
        *self
    }
}

impl Same for BtDhtQuery {
    fn same(&self, other: &Self) -> (same: bool) {
        *self == *other
    }
}

/// The method name of a query.
pub open spec fn query_name(query: BtDhtQuery) -> Seq<u8> {
    match query {
        BtDhtQuery::Ping => NAME_PING@,
        BtDhtQuery::FindNode => NAME_FIND_NODE@,
        BtDhtQuery::GetPeers => NAME_GET_PEERS@,
        BtDhtQuery::AnnouncePeer => NAME_ANNOUNCE_PEER@,
    }
}

/// What a bencode value is read as where a query's name is asked for: one of
/// the four method names, as a byte string. Every other byte string is a
/// method that is not supported.
pub open spec fn query_of_tree(tree: BencodeView) -> Result<BtDhtQuery, WireError> {
    match tree {
        BencodeView::Bytes(name) => {
            if name == NAME_PING@ {
                Ok(BtDhtQuery::Ping)
            } else if name == NAME_FIND_NODE@ {
                Ok(BtDhtQuery::FindNode)
            } else if name == NAME_GET_PEERS@ {
                Ok(BtDhtQuery::GetPeers)
            } else if name == NAME_ANNOUNCE_PEER@ {
                Ok(BtDhtQuery::AnnouncePeer)
            } else {
                Err(WireError::UnsupportedMethod)
            }
        },
        _ => Err(WireError::InvalidType),
    }
}

/// The four method names are distinct.
pub proof fn lemma_query_names()
    ensures
        NAME_PING@ != NAME_FIND_NODE@,
        NAME_PING@ != NAME_GET_PEERS@,
        NAME_PING@ != NAME_ANNOUNCE_PEER@,
        NAME_FIND_NODE@ != NAME_GET_PEERS@,
        NAME_FIND_NODE@ != NAME_ANNOUNCE_PEER@,
        NAME_GET_PEERS@ != NAME_ANNOUNCE_PEER@,
{
    assert(NAME_PING@[0] == 0x70 && NAME_FIND_NODE@[0] == 0x66 && NAME_GET_PEERS@[0] == 0x67
        && NAME_ANNOUNCE_PEER@[0] == 0x61);
}

impl Wire for BtDhtQuery {
    open spec fn writable(value: BtDhtQuery) -> bool {
        true
    }

    open spec fn wire(value: BtDhtQuery) -> BencodeView {
        BencodeView::Bytes(query_name(value))
    }

    open spec fn unwire(tree: BencodeView) -> Result<BtDhtQuery, WireError> {
        query_of_tree(tree)
    }

    proof fn lemma_round_trip(value: BtDhtQuery) {
        lemma_query_names();
    }

    proof fn lemma_sorted(value: BtDhtQuery) {
    }

    fn serialize(&self) -> (tree: Bencode) {
        match self {
            BtDhtQuery::Ping => Bencode::bytes(NAME_PING.as_slice()),
            BtDhtQuery::FindNode => Bencode::bytes(NAME_FIND_NODE.as_slice()),
            BtDhtQuery::GetPeers => Bencode::bytes(NAME_GET_PEERS.as_slice()),
            BtDhtQuery::AnnouncePeer => Bencode::bytes(NAME_ANNOUNCE_PEER.as_slice()),
        }
    }

    fn deserialize(tree: &Bencode) -> (r: Result<Self, WireError>) {
        match tree.as_bytes() {
            Some(name) => {
                let name = name.as_slice();
                if bytes_eq(name, NAME_PING.as_slice()) {
                    Ok(BtDhtQuery::Ping)
                } else if bytes_eq(name, NAME_FIND_NODE.as_slice()) {
                    Ok(BtDhtQuery::FindNode)
                } else if bytes_eq(name, NAME_GET_PEERS.as_slice()) {
                    Ok(BtDhtQuery::GetPeers)
                } else if bytes_eq(name, NAME_ANNOUNCE_PEER.as_slice()) {
                    Ok(BtDhtQuery::AnnouncePeer)
                } else {
                    Err(WireError::UnsupportedMethod)
                }
            },
            None => Err(WireError::InvalidType),
        }
    }
}

/// An opaque token that a node hands out with the peers it knows and asks
/// back with an announcement.
pub type BtDhtToken = Vec<u8>;

/// The argument of a query, as a mathematical value.
pub enum BtDhtArgView {
    AnnouncePeer {
        id: Seq<u8>,
        implied_port: bool,
        info_hash: Seq<u8>,
        port: u16,
        token: Seq<u8>,
    },
    GetPeers { id: Seq<u8>, info_hash: Seq<u8> },
    FindNode { id: Seq<u8>, target: Seq<u8> },
    Ping { id: Seq<u8> },
}

/// The argument of a query. On the wire nothing names the variant: it is
/// told by the keys that are there.
#[derive(Debug, Clone, PartialEq, Eq)]
pub enum BtDhtArg {
    AnnouncePeer {
        id: BtDhtId,
        implied_port: bool,
        info_hash: BtDhtId,
        port: u16,
        token: BtDhtToken,
    },
    GetPeers { id: BtDhtId, info_hash: BtDhtId },
    FindNode { id: BtDhtId, target: BtDhtId },
    Ping { id: BtDhtId },
}

impl View for BtDhtArg {
    type V = BtDhtArgView;

    open spec fn view(&self) -> BtDhtArgView {
        match *self {
            BtDhtArg::AnnouncePeer {
                id,
                implied_port,
                info_hash,
                port,
                token,
            } => BtDhtArgView::AnnouncePeer {
                id: id@,
                implied_port,
                info_hash: info_hash@,
                port,
                token: token@,
            },
            BtDhtArg::GetPeers { id, info_hash } => BtDhtArgView::GetPeers {
                id: id@,
                info_hash: info_hash@,
            },
            BtDhtArg::FindNode { id, target } => BtDhtArgView::FindNode {
                id: id@,
                target: target@,
            },
            BtDhtArg::Ping { id } => BtDhtArgView::Ping { id: id@ },
        }
    }
}

impl KQueryArg for BtDhtArg {
    type Query = BtDhtQuery;

    open spec fn query_of(arg: BtDhtArgView) -> BtDhtQuery {
        match arg {
            BtDhtArgView::Ping { .. } => BtDhtQuery::Ping,
            BtDhtArgView::FindNode { .. } => BtDhtQuery::FindNode,
            BtDhtArgView::GetPeers { .. } => BtDhtQuery::GetPeers,
            BtDhtArgView::AnnouncePeer { .. } => BtDhtQuery::AnnouncePeer,
        }
    }

    fn query(&self) -> (query: BtDhtQuery) {
        match self {
            BtDhtArg::Ping { .. } => BtDhtQuery::Ping,
            BtDhtArg::FindNode { .. } => BtDhtQuery::FindNode,
            BtDhtArg::GetPeers { .. } => BtDhtQuery::GetPeers,
            BtDhtArg::AnnouncePeer { .. } => BtDhtQuery::AnnouncePeer,
        }
    }
}

/// The identifier under `key`: there where the key holds a byte string of
/// twenty bytes.
pub open spec fn id_field(entries: Seq<(Seq<u8>, BencodeView)>, key: Seq<u8>) -> Option<Seq<u8>> {
    match dict_get(entries, key) {
        Some(tree) => match id_of_tree(tree, 20) {
            Ok(id) => Some(id),
            Err(_) => None,
        },
        None => None,
    }
}

/// The byte string under `key`.
pub open spec fn bytes_field(entries: Seq<(Seq<u8>, BencodeView)>, key: Seq<u8>) -> Option<
    Seq<u8>,
> {
    match dict_get(entries, key) {
        Some(BencodeView::Bytes(b)) => Some(b),
        _ => None,
    }
}

/// The port under `key`: there where the key holds an integer from 0 to
/// 65535.
pub open spec fn port_field(entries: Seq<(Seq<u8>, BencodeView)>, key: Seq<u8>) -> Option<u16> {
    match dict_get(entries, key) {
        Some(BencodeView::Int(i)) => if 0 <= i <= 0xffff {
            Some(i as u16)
        } else {
            None
        },
        _ => None,
    }
}

/// The entries read as an announcement: `id`, `info_hash`, `port` and
/// `token` are required, `implied_port` is a flag.
pub open spec fn announce_peer_of(entries: Seq<(Seq<u8>, BencodeView)>) -> Option<BtDhtArgView> {
    match (
        id_field(entries, KEY_ID@),
        id_field(entries, KEY_INFO_HASH@),
        port_field(entries, KEY_PORT@),
        bytes_field(entries, KEY_TOKEN@),
    ) {
        (Some(id), Some(info_hash), Some(port), Some(token)) => Some(
            BtDhtArgView::AnnouncePeer {
                id,
                implied_port: flag_of(dict_get(entries, KEY_IMPLIED_PORT@)),
                info_hash,
                port,
                token,
            },
        ),
        _ => None,
    }
}

/// The entries read as a request for peers: `id` and `info_hash` are
/// required.
pub open spec fn get_peers_of(entries: Seq<(Seq<u8>, BencodeView)>) -> Option<BtDhtArgView> {
    match (id_field(entries, KEY_ID@), id_field(entries, KEY_INFO_HASH@)) {
        (Some(id), Some(info_hash)) => Some(BtDhtArgView::GetPeers { id, info_hash }),
        _ => None,
    }
}

/// The entries read as a request for nodes: `id` and `target` are required.
pub open spec fn find_node_of(entries: Seq<(Seq<u8>, BencodeView)>) -> Option<BtDhtArgView> {
    match (id_field(entries, KEY_ID@), id_field(entries, KEY_TARGET@)) {
        (Some(id), Some(target)) => Some(BtDhtArgView::FindNode { id, target }),
        _ => None,
    }
}

/// The entries read as a ping: `id` is required.
pub open spec fn ping_of(entries: Seq<(Seq<u8>, BencodeView)>) -> Option<BtDhtArgView> {
    match id_field(entries, KEY_ID@) {
        Some(id) => Some(BtDhtArgView::Ping { id }),
        None => None,
    }
}

/// What a bencode value is read as where an argument is asked for: the
/// first of announcement, request for peers, request for nodes and ping whose
/// required keys the dictionary holds. Other keys are passed over.
pub open spec fn arg_of_tree(tree: BencodeView) -> Result<BtDhtArgView, WireError> {
    match tree {
        BencodeView::Dict(entries) => {
            if announce_peer_of(entries) is Some {
                Ok(announce_peer_of(entries)->Some_0)
            } else if get_peers_of(entries) is Some {
                Ok(get_peers_of(entries)->Some_0)
            } else if find_node_of(entries) is Some {
                Ok(find_node_of(entries)->Some_0)
            } else if ping_of(entries) is Some {
                Ok(ping_of(entries)->Some_0)
            } else {
                Err(WireError::NoVariant)
            }
        },
        _ => Err(WireError::NoVariant),
    }
}

/// The entry `implied_port`: there where the flag is set.
pub open spec fn implied_port_entry(implied_port: bool) -> Seq<(Seq<u8>, BencodeView)> {
    match flag_wire(implied_port) {
        Some(tree) => seq![(KEY_IMPLIED_PORT@, tree)],
        None => Seq::empty(),
    }
}

/// The keys of arguments and results are distinct, and stand in this order:
/// `id`, `implied_port`, `info_hash`, `nodes`, `port`, `target`, `token`,
/// `values`.
pub proof fn lemma_body_keys()
    ensures
        lex_lt(KEY_ID@, KEY_IMPLIED_PORT@),
        lex_lt(KEY_ID@, KEY_INFO_HASH@),
        lex_lt(KEY_ID@, KEY_NODES@),
        lex_lt(KEY_ID@, KEY_PORT@),
        lex_lt(KEY_ID@, KEY_TARGET@),
        lex_lt(KEY_ID@, KEY_TOKEN@),
        lex_lt(KEY_ID@, KEY_VALUES@),
        lex_lt(KEY_IMPLIED_PORT@, KEY_INFO_HASH@),
        lex_lt(KEY_IMPLIED_PORT@, KEY_PORT@),
        lex_lt(KEY_IMPLIED_PORT@, KEY_TOKEN@),
        lex_lt(KEY_INFO_HASH@, KEY_PORT@),
        lex_lt(KEY_INFO_HASH@, KEY_TOKEN@),
        lex_lt(KEY_NODES@, KEY_TOKEN@),
        lex_lt(KEY_PORT@, KEY_TOKEN@),
        lex_lt(KEY_TOKEN@, KEY_VALUES@),
        KEY_ID@ != KEY_IMPLIED_PORT@ && KEY_ID@ != KEY_INFO_HASH@ && KEY_ID@ != KEY_NODES@
            && KEY_ID@ != KEY_PORT@ && KEY_ID@ != KEY_TARGET@ && KEY_ID@ != KEY_TOKEN@ && KEY_ID@
            != KEY_VALUES@,
        KEY_IMPLIED_PORT@ != KEY_INFO_HASH@ && KEY_IMPLIED_PORT@ != KEY_PORT@ && KEY_IMPLIED_PORT@
            != KEY_TOKEN@ && KEY_IMPLIED_PORT@ != KEY_TARGET@,
        KEY_INFO_HASH@ != KEY_PORT@ && KEY_INFO_HASH@ != KEY_TOKEN@ && KEY_INFO_HASH@
            != KEY_TARGET@,
        KEY_NODES@ != KEY_TOKEN@ && KEY_NODES@ != KEY_VALUES@,
        KEY_PORT@ != KEY_TOKEN@ && KEY_PORT@ != KEY_TARGET@,
        KEY_TARGET@ != KEY_TOKEN@,
        KEY_TOKEN@ != KEY_VALUES@,
{
    reveal_with_fuel(lex_lt_from, 3);
    assert(KEY_ID@[0] == 0x69 && KEY_ID@[1] == 0x64);
    assert(KEY_IMPLIED_PORT@[0] == 0x69 && KEY_IMPLIED_PORT@[1] == 0x6d);
    assert(KEY_INFO_HASH@[0] == 0x69 && KEY_INFO_HASH@[1] == 0x6e);
    assert(KEY_NODES@[0] == 0x6e);
    assert(KEY_PORT@[0] == 0x70);
    assert(KEY_TARGET@[0] == 0x74 && KEY_TARGET@[1] == 0x61);
    assert(KEY_TOKEN@[0] == 0x74 && KEY_TOKEN@[1] == 0x6f);
    assert(KEY_VALUES@[0] == 0x76);
}

impl Wire for BtDhtArg {
    open spec fn writable(value: BtDhtArgView) -> bool {
        match value {
            BtDhtArgView::AnnouncePeer { id, implied_port, info_hash, port, token } => id.len()
                == 20 && info_hash.len() == 20,
            BtDhtArgView::GetPeers { id, info_hash } => id.len() == 20 && info_hash.len() == 20,
            BtDhtArgView::FindNode { id, target } => id.len() == 20 && target.len() == 20,
            BtDhtArgView::Ping { id } => id.len() == 20,
        }
    }

    open spec fn wire(value: BtDhtArgView) -> BencodeView {
        match value {
            BtDhtArgView::AnnouncePeer {
                id,
                implied_port,
                info_hash,
                port,
                token,
            } => BencodeView::Dict(
                seq![(KEY_ID@, BencodeView::Bytes(id))] + implied_port_entry(implied_port) + seq![
                    (KEY_INFO_HASH@, BencodeView::Bytes(info_hash)),
                    (KEY_PORT@, BencodeView::Int(port as i64)),
                    (KEY_TOKEN@, BencodeView::Bytes(token)),
                ],
            ),
            BtDhtArgView::GetPeers { id, info_hash } => BencodeView::Dict(
                seq![
                    (KEY_ID@, BencodeView::Bytes(id)),
                    (KEY_INFO_HASH@, BencodeView::Bytes(info_hash)),
                ],
            ),
            BtDhtArgView::FindNode { id, target } => BencodeView::Dict(
                seq![(KEY_ID@, BencodeView::Bytes(id)), (KEY_TARGET@, BencodeView::Bytes(target))],
            ),
            BtDhtArgView::Ping { id } => BencodeView::Dict(
                seq![(KEY_ID@, BencodeView::Bytes(id))],
            ),
        }
    }

    open spec fn unwire(tree: BencodeView) -> Result<BtDhtArgView, WireError> {
        arg_of_tree(tree)
    }

    proof fn lemma_round_trip(value: BtDhtArgView) {
        lemma_body_keys();
        let entries = Self::wire(value)->Dict_0;
        match value {
            BtDhtArgView::AnnouncePeer { id, implied_port, info_hash, port, token } => {
                let n: int = if implied_port {
                    1
                } else {
                    0
                };
                lemma_dict_get_found(entries, 0, KEY_ID@);
                if implied_port {
                    lemma_dict_get_found(entries, 1, KEY_IMPLIED_PORT@);
                } else {
                    lemma_dict_get_missing(entries, KEY_IMPLIED_PORT@);
                }
                lemma_dict_get_found(entries, n + 1, KEY_INFO_HASH@);
                lemma_dict_get_found(entries, n + 2, KEY_PORT@);
                lemma_dict_get_found(entries, n + 3, KEY_TOKEN@);
            },
            BtDhtArgView::GetPeers { id, info_hash } => {
                lemma_dict_get_found(entries, 0, KEY_ID@);
                lemma_dict_get_found(entries, 1, KEY_INFO_HASH@);
                lemma_dict_get_missing(entries, KEY_PORT@);
            },
            BtDhtArgView::FindNode { id, target } => {
                lemma_dict_get_found(entries, 0, KEY_ID@);
                lemma_dict_get_found(entries, 1, KEY_TARGET@);
                lemma_dict_get_missing(entries, KEY_INFO_HASH@);
            },
            BtDhtArgView::Ping { id } => {
                lemma_dict_get_found(entries, 0, KEY_ID@);
                lemma_dict_get_missing(entries, KEY_INFO_HASH@);
                lemma_dict_get_missing(entries, KEY_TARGET@);
            },
        }
    }

    proof fn lemma_sorted(value: BtDhtArgView) {
        lemma_body_keys();
        let entries = Self::wire(value)->Dict_0;
        assert forall|i: int| 0 <= i < entries.len() implies (#[trigger] entries[i]).1.sorted() by {
            assert(entries[i].1 is Int || entries[i].1 is Bytes);
        }
        assert forall|i: int, j: int| 0 <= i < j < entries.len() implies lex_lt(
            #[trigger] entries[i].0,
            #[trigger] entries[j].0,
        ) by {
        }
    }

    fn serialize(&self) -> (tree: Bencode) {
        let mut entries: Vec<(Vec<u8>, Bencode)> = Vec::new();
        match self {
            BtDhtArg::AnnouncePeer { id, implied_port, info_hash, port, token } => {
                entries.push((bytes_to_vec(KEY_ID.as_slice()), id.serialize()));
                match option_bool::serialize(implied_port) {
                    Some(flag) => {
                        entries.push((bytes_to_vec(KEY_IMPLIED_PORT.as_slice()), flag));
                    },
                    None => {},
                }
                entries.push((bytes_to_vec(KEY_INFO_HASH.as_slice()), info_hash.serialize()));
                entries.push((bytes_to_vec(KEY_PORT.as_slice()), Bencode::Int(*port as i64)));
                entries.push(
                    (bytes_to_vec(KEY_TOKEN.as_slice()), Bencode::bytes(token.as_slice())),
                );
            },
            BtDhtArg::GetPeers { id, info_hash } => {
                entries.push((bytes_to_vec(KEY_ID.as_slice()), id.serialize()));
                entries.push((bytes_to_vec(KEY_INFO_HASH.as_slice()), info_hash.serialize()));
            },
            BtDhtArg::FindNode { id, target } => {
                entries.push((bytes_to_vec(KEY_ID.as_slice()), id.serialize()));
                entries.push((bytes_to_vec(KEY_TARGET.as_slice()), target.serialize()));
            },
            BtDhtArg::Ping { id } => {
                entries.push((bytes_to_vec(KEY_ID.as_slice()), id.serialize()));
            },
        }
        let tree = Bencode::dict(entries);
        assert(tree@->Dict_0 =~= Self::wire(self@)->Dict_0);
        tree
    }

    fn deserialize(tree: &Bencode) -> (r: Result<Self, WireError>) {
        match tree {
            Bencode::Dict(_) => {},
            _ => {
                return Err(WireError::NoVariant);
            },
        }
        let id = read_id(tree, KEY_ID.as_slice());
        let info_hash = read_id(tree, KEY_INFO_HASH.as_slice());
        let target = read_id(tree, KEY_TARGET.as_slice());
        let port = read_port(tree, KEY_PORT.as_slice());
        let token = read_bytes_field(tree, KEY_TOKEN.as_slice());
        let implied_port = option_bool::deserialize(tree.get(KEY_IMPLIED_PORT.as_slice()));
        match id {
            Some(id) => match info_hash {
                Some(info_hash) => match (port, token) {
                    (Some(port), Some(token)) => Ok(
                        BtDhtArg::AnnouncePeer { id, implied_port, info_hash, port, token },
                    ),
                    _ => Ok(BtDhtArg::GetPeers { id, info_hash }),
                },
                None => match target {
                    Some(target) => Ok(BtDhtArg::FindNode { id, target }),
                    None => Ok(BtDhtArg::Ping { id }),
                },
            },
            None => Err(WireError::NoVariant),
        }
    }
}

/// Reads the identifier under `key`.
fn read_id(tree: &Bencode, key: &[u8]) -> (id: Option<BtDhtId>)
    requires
        tree@ is Dict,
    ensures
        match id {
            Some(id) => id_field(tree@->Dict_0, key@) == Some(id@),
            None => id_field(tree@->Dict_0, key@) is None,
        },
{
    match tree.get(key) {
        Some(value) => match BtDhtId::deserialize(value) {
            Ok(id) => Some(id),
            Err(_) => None,
        },
        None => None,
    }
}

/// Reads the byte string under `key`.
fn read_bytes_field(tree: &Bencode, key: &[u8]) -> (bytes: Option<Vec<u8>>)
    requires
        tree@ is Dict,
    ensures
        match bytes {
            Some(b) => bytes_field(tree@->Dict_0, key@) == Some(b@),
            None => bytes_field(tree@->Dict_0, key@) is None,
        },
{
    match tree.get(key) {
        Some(value) => match value.as_bytes() {
            Some(b) => Some(bytes_to_vec(b.as_slice())),
            None => None,
        },
        None => None,
    }
}

/// Reads the port under `key`.
fn read_port(tree: &Bencode, key: &[u8]) -> (port: Option<u16>)
    requires
        tree@ is Dict,
    ensures
        port == port_field(tree@->Dict_0, key@),
{
    match tree.get(key) {
        Some(value) => match value.as_int() {
            Some(i) => if 0 <= i && i <= 0xffff {
                Some(i as u16)
            } else {
                None
            },
            None => None,
        },
        None => None,
    }
}

/// A node of the DHT: its identifier and where it listens.
#[derive(Debug, Clone, PartialEq, Eq)]
pub struct BtDhtNodeInfo {
    pub id: BtDhtId,
    pub addr: SocketAddr,
}

impl View for BtDhtNodeInfo {
    type V = (Seq<u8>, SocketAddr);

    open spec fn view(&self) -> (Seq<u8>, SocketAddr) {
        (self.id@, self.addr)
    }
}

/// The nodes that a response names.
pub type BtDhtNodesInfo = Vec<BtDhtNodeInfo>;

/// The nodes of a vector, as mathematical values.
pub open spec fn nodes_view(nodes: Seq<BtDhtNodeInfo>) -> Seq<(Seq<u8>, SocketAddr)> {
    Seq::new(nodes.len(), |i: int| nodes[i]@)
}

/// The compact form of one node: its identifier, then the compact form of
/// its address.
pub open spec fn node_record(node: (Seq<u8>, SocketAddr)) -> Seq<u8> {
    node.0 + compact(node.1)
}

/// The compact form of a list of nodes: the compact forms of the nodes, one
/// after the other.
pub open spec fn nodes_compact(nodes: Seq<(Seq<u8>, SocketAddr)>) -> Seq<u8>
    decreases nodes.len(),
{
    if nodes.len() == 0 {
        Seq::empty()
    } else {
        nodes_compact(nodes.drop_last()) + node_record(nodes.last())
    }
}

/// The nodes that bytes are the compact form of: the bytes are cut in
/// records of 26 bytes, twenty for the identifier and six for the address.
/// Bytes whose number is no multiple of 26 are no compact form.
pub open spec fn nodes_of_compact(b: Seq<u8>) -> Option<Seq<(Seq<u8>, SocketAddr)>> {
    if b.len() % 26 == 0 {
        Some(
            Seq::new(
                (b.len() / 26) as nat,
                |i: int|
                    (
                        b.subrange(26 * i, 26 * i + 20),
                        from_compact(b.subrange(26 * i + 20, 26 * i + 26))->Some_0,
                    ),
            ),
        )
    } else {
        None
    }
}

/// What a bencode value is read as where a compact node list is asked for.
pub open spec fn nodes_of_tree(tree: BencodeView) -> Result<
    Seq<(Seq<u8>, SocketAddr)>,
    WireError,
> {
    match tree {
        BencodeView::Bytes(b) => match nodes_of_compact(b) {
            Some(nodes) => Ok(nodes),
            None => Err(WireError::MalformedNodeInfo),
        },
        _ => Err(WireError::InvalidType),
    }
}

/// Whether each node has an identifier of twenty bytes and an IPv4 address:
/// only such nodes have a compact form that is read back.
pub open spec fn nodes_writable(nodes: Seq<(Seq<u8>, SocketAddr)>) -> bool {
    forall|i: int| 0 <= i < nodes.len() ==> (#[trigger] nodes[i]).0.len() == 20 && nodes[i].1 is V4
}

/// In the compact form of writable nodes each node has its record of 26
/// bytes, at 26 times its index.
pub proof fn lemma_nodes_compact_layout(nodes: Seq<(Seq<u8>, SocketAddr)>)
    requires
        nodes_writable(nodes),
    ensures
        nodes_compact(nodes).len() == 26 * nodes.len(),
        forall|i: int|
            0 <= i < nodes.len() ==> #[trigger] nodes_compact(nodes).subrange(26 * i, 26 * i + 26)
                == node_record(nodes[i]),
    decreases nodes.len(),
{
    if nodes.len() > 0 {
        let front = nodes.drop_last();
        let last = nodes.last();
        lemma_nodes_compact_layout(front);
        lemma_compact_round_trip(last.1);
        let all = nodes_compact(nodes);
        assert forall|i: int| 0 <= i < nodes.len() implies #[trigger] all.subrange(
            26 * i,
            26 * i + 26,
        ) == node_record(nodes[i]) by {
            if i < nodes.len() - 1 {
                assert(all.subrange(26 * i, 26 * i + 26) =~= nodes_compact(front).subrange(
                    26 * i,
                    26 * i + 26,
                ));
                assert(front[i] == nodes[i]);
            } else {
                assert(all.subrange(26 * i, 26 * i + 26) =~= node_record(last));
            }
        }
    }
}

/// The compact form of writable nodes is read back as those nodes.
pub proof fn lemma_nodes_round_trip(nodes: Seq<(Seq<u8>, SocketAddr)>)
    requires
        nodes_writable(nodes),
    ensures
        nodes_of_compact(nodes_compact(nodes)) == Some(nodes),
{
    lemma_nodes_compact_layout(nodes);
    let all = nodes_compact(nodes);
    let back = nodes_of_compact(all)->Some_0;
    assert(back.len() == nodes.len());
    assert forall|i: int| 0 <= i < nodes.len() implies back[i] == nodes[i] by {
        let record = all.subrange(26 * i, 26 * i + 26);
        assert(record == node_record(nodes[i]));
        lemma_compact_round_trip(nodes[i].1);
        assert(all.subrange(26 * i, 26 * i + 20) =~= record.subrange(0, 20));
        assert(all.subrange(26 * i + 20, 26 * i + 26) =~= record.subrange(20, 26));
        assert(record.subrange(0, 20) =~= nodes[i].0);
        assert(record.subrange(20, 26) =~= compact(nodes[i].1));
    }
    assert(back =~= nodes);
}

/// Writes a list of nodes as one byte string that holds its compact form.
pub fn serialize(nodes_info: &BtDhtNodesInfo) -> (tree: Bencode)
    ensures
        tree@ == BencodeView::Bytes(nodes_compact(nodes_view(nodes_info@))),
{
    let ghost all = nodes_view(nodes_info@);
    let mut buf: Vec<u8> = Vec::new();
    let mut k: usize = 0;
    while k < nodes_info.len()
        invariant
            k <= nodes_info.len(),
            all == nodes_view(nodes_info@),
            buf@ == nodes_compact(all.subrange(0, k as int)),
        decreases nodes_info.len() - k,
    {
        let ghost before = buf@;
        sha1::to_bytes(&mut buf, nodes_info[k].id.as_bytes());
        socket_addr::to_bytes(&mut buf, &nodes_info[k].addr);
        proof {
            let upto = all.subrange(0, k + 1);
            assert(upto.drop_last() =~= all.subrange(0, k as int));
            assert(upto.last() == nodes_info@[k as int]@);
            assert(buf@ =~= before + node_record(upto.last()));
        }
        k += 1;
    }
    assert(all.subrange(0, k as int) =~= all);
    Bencode::Bytes(buf)
}

/// Reads a list of nodes from one byte string that holds its compact form.
pub fn deserialize(tree: &Bencode) -> (r: Result<BtDhtNodesInfo, WireError>)
    ensures
        match r {
            Ok(nodes) => nodes_of_tree(tree@) == Ok::<Seq<(Seq<u8>, SocketAddr)>, WireError>(
                nodes_view(nodes@),
            ),
            Err(e) => nodes_of_tree(tree@) == Err::<Seq<(Seq<u8>, SocketAddr)>, WireError>(e),
        },
{
    let buf = match tree.as_bytes() {
        Some(buf) => buf.as_slice(),
        None => {
            return Err(WireError::InvalidType);
        },
    };
    let len = buf.len();
    if len % 26 == 0 {
        let count: usize = len / 26;
        let ghost expected = nodes_of_compact(buf@)->Some_0;
        let mut nodes_info: Vec<BtDhtNodeInfo> = Vec::new();
        let mut k: usize = 0;
        while k < count
            invariant
                k <= count,
                len == buf.len(),
                len == 26 * count,
                expected == nodes_of_compact(buf@)->Some_0,
                expected.len() == count,
                nodes_info@.len() == k,
                nodes_view(nodes_info@) == expected.subrange(0, k as int),
            decreases count - k,
        {
            let start: usize = 26 * k;
            let id = match sha1::from_bytes(vstd::slice::slice_subrange(buf, start, start + 20)) {
                Ok(hash) => Sha1Id(hash),
                Err(_) => {
                    return Err(WireError::MalformedNodeInfo);
                },
            };
            let addr = match socket_addr::from_bytes(
                vstd::slice::slice_subrange(buf, start + 20, start + 26),
            ) {
                Ok(addr) => addr,
                Err(_) => {
                    return Err(WireError::MalformedNodeInfo);
                },
            };
            let ghost before = nodes_view(nodes_info@);
            nodes_info.push(BtDhtNodeInfo { id, addr });
            proof {
                assert(expected[k as int] == (id@, addr));
                assert forall|i: int| 0 <= i < k + 1 implies nodes_view(nodes_info@)[i]
                    == expected[i] by {
                    if i < k {
                        assert(nodes_view(nodes_info@)[i] == before[i]);
                        assert(before[i] == expected.subrange(0, k as int)[i]);
                    }
                }
                assert(nodes_view(nodes_info@) =~= expected.subrange(0, k + 1));
            }
            k += 1;
        }
        assert(expected.subrange(0, k as int) =~= expected);
        Ok(nodes_info)
    } else {
        Err(WireError::MalformedNodeInfo)
    }
}

/// A peer: where it listens.
#[derive(Debug, Clone, PartialEq, Eq)]
pub struct BtDhtPeerInfo {
    pub addr: SocketAddr,
}

impl View for BtDhtPeerInfo {
    type V = SocketAddr;

    open spec fn view(&self) -> SocketAddr {
        self.addr
    }
}

/// The peers that a response names.
pub type BtDhtPeersInfo = Vec<BtDhtPeerInfo>;

/// The addresses of a vector of peers.
pub open spec fn peers_view(peers: Seq<BtDhtPeerInfo>) -> Seq<SocketAddr> {
    Seq::new(peers.len(), |i: int| peers[i]@)
}

/// What a list of peers is written as: a list of byte strings, each the
/// compact form of one address.
pub open spec fn peers_wire(peers: Seq<SocketAddr>) -> BencodeView {
    BencodeView::List(Seq::new(peers.len(), |i: int| BencodeView::Bytes(compact(peers[i]))))
}

/// What a bencode value is read as where a list of peers is asked for: a
/// list each of whose items is a compact address.
pub open spec fn peers_of_tree(tree: BencodeView) -> Option<Seq<SocketAddr>> {
    match tree {
        BencodeView::List(items) => {
            if forall|i: int| 0 <= i < items.len() ==> addr_of_tree(#[trigger] items[i]) is Ok {
                Some(Seq::new(items.len(), |i: int| addr_of_tree(items[i])->Ok_0))
            } else {
                None
            }
        },
        _ => None,
    }
}

/// Whether every peer has an IPv4 address.
pub open spec fn peers_writable(peers: Seq<SocketAddr>) -> bool {
    forall|i: int| 0 <= i < peers.len() ==> #[trigger] peers[i] is V4
}

/// A list of peers with IPv4 addresses that was written is read back.
pub proof fn lemma_peers_round_trip(peers: Seq<SocketAddr>)
    requires
        peers_writable(peers),
    ensures
        peers_of_tree(peers_wire(peers)) == Some(peers),
{
    let items = peers_wire(peers)->List_0;
    assert forall|i: int| 0 <= i < items.len() implies addr_of_tree(#[trigger] items[i])
        == Ok::<SocketAddr, WireError>(peers[i]) by {
        lemma_compact_round_trip(peers[i]);
    }
    assert(peers_of_tree(peers_wire(peers))->Some_0 =~= peers);
}

/// Writes a list of peers.
fn write_peers(peers: &BtDhtPeersInfo) -> (tree: Bencode)
    ensures
        tree@ == peers_wire(peers_view(peers@)),
{
    let mut items: Vec<Bencode> = Vec::new();
    let mut k: usize = 0;
    while k < peers.len()
        invariant
            k <= peers.len(),
            items@.len() == k,
            forall|i: int|
                0 <= i < k ==> (#[trigger] items@[i])@ == BencodeView::Bytes(
                    compact(peers@[i].addr),
                ),
        decreases peers.len() - k,
    {
        items.push(socket_addr::serialize(&peers[k].addr));
        k += 1;
    }
    let tree = Bencode::list(items);
    assert(tree@->List_0 =~= peers_wire(peers_view(peers@))->List_0);
    tree
}

/// Reads a list of peers.
fn read_peers(tree: &Bencode) -> (r: Option<BtDhtPeersInfo>)
    ensures
        match r {
            Some(peers) => peers_of_tree(tree@) == Some(peers_view(peers@)),
            None => peers_of_tree(tree@) is None,
        },
{
    match tree.as_list() {
        Some(items) => {
            let ghost all = tree@->List_0;
            let mut peers: Vec<BtDhtPeerInfo> = Vec::new();
            let mut k: usize = 0;
            while k < items.len()
                invariant
                    k <= items.len(),
                    tree@ is List,
                    all == tree@->List_0,
                    all.len() == items@.len(),
                    forall|i: int| 0 <= i < items@.len() ==> all[i] == items@[i]@,
                    peers@.len() == k,
                    forall|i: int|
                        0 <= i < k ==> addr_of_tree(#[trigger] all[i]) == Ok::<
                            SocketAddr,
                            WireError,
                        >(peers@[i].addr),
                decreases items.len() - k,
            {
                match socket_addr::deserialize(&items[k]) {
                    Ok(addr) => {
                        peers.push(BtDhtPeerInfo { addr });
                    },
                    Err(_) => {
                        assert(!(addr_of_tree(all[k as int]) is Ok));
                        return None;
                    },
                }
                k += 1;
            }
            assert(peers_of_tree(tree@)->Some_0 =~= peers_view(peers@));
            Some(peers)
        },
        None => None,
    }
}

/// The result of a query, as a mathematical value.
pub enum BtDhtResView {
    GetPeersNodes { id: Seq<u8>, token: Seq<u8>, nodes: Seq<(Seq<u8>, SocketAddr)> },
    GetPeersValues { id: Seq<u8>, token: Seq<u8>, values: Seq<SocketAddr> },
    FindNode { id: Seq<u8>, nodes: Seq<(Seq<u8>, SocketAddr)> },
    Pong { id: Seq<u8> },
}

/// The result of a query. On the wire nothing names the variant: it is told
/// by the keys that are there.
#[derive(Debug, Clone, PartialEq, Eq)]
pub enum BtDhtRes {
    GetPeersNodes { id: BtDhtId, token: BtDhtToken, nodes: BtDhtNodesInfo },
    GetPeersValues { id: BtDhtId, token: BtDhtToken, values: BtDhtPeersInfo },
    FindNode { id: BtDhtId, nodes: BtDhtNodesInfo },
    Pong { id: BtDhtId },
}

impl View for BtDhtRes {
    type V = BtDhtResView;

    open spec fn view(&self) -> BtDhtResView {
        match *self {
            BtDhtRes::GetPeersNodes { id, token, nodes } => BtDhtResView::GetPeersNodes {
                id: id@,
                token: token@,
                nodes: nodes_view(nodes@),
            },
            BtDhtRes::GetPeersValues { id, token, values } => BtDhtResView::GetPeersValues {
                id: id@,
                token: token@,
                values: peers_view(values@),
            },
            BtDhtRes::FindNode { id, nodes } => BtDhtResView::FindNode {
                id: id@,
                nodes: nodes_view(nodes@),
            },
            BtDhtRes::Pong { id } => BtDhtResView::Pong { id: id@ },
        }
    }
}

/// The compact node list under `key`.
pub open spec fn nodes_field(entries: Seq<(Seq<u8>, BencodeView)>, key: Seq<u8>) -> Option<
    Seq<(Seq<u8>, SocketAddr)>,
> {
    match dict_get(entries, key) {
        Some(tree) => match nodes_of_tree(tree) {
            Ok(nodes) => Some(nodes),
            Err(_) => None,
        },
        None => None,
    }
}

/// The list of peers under `key`.
pub open spec fn peers_field(entries: Seq<(Seq<u8>, BencodeView)>, key: Seq<u8>) -> Option<
    Seq<SocketAddr>,
> {
    match dict_get(entries, key) {
        Some(tree) => peers_of_tree(tree),
        None => None,
    }
}

/// The entries read as peers' nodes: `id`, `token` and `nodes` are required.
pub open spec fn get_peers_nodes_of(entries: Seq<(Seq<u8>, BencodeView)>) -> Option<BtDhtResView> {
    match (
        id_field(entries, KEY_ID@),
        bytes_field(entries, KEY_TOKEN@),
        nodes_field(entries, KEY_NODES@),
    ) {
        (Some(id), Some(token), Some(nodes)) => Some(
            BtDhtResView::GetPeersNodes { id, token, nodes },
        ),
        _ => None,
    }
}

/// The entries read as peers: `id`, `token` and `values` are required.
pub open spec fn get_peers_values_of(entries: Seq<(Seq<u8>, BencodeView)>) -> Option<
    BtDhtResView,
> {
    match (
        id_field(entries, KEY_ID@),
        bytes_field(entries, KEY_TOKEN@),
        peers_field(entries, KEY_VALUES@),
    ) {
        (Some(id), Some(token), Some(values)) => Some(
            BtDhtResView::GetPeersValues { id, token, values },
        ),
        _ => None,
    }
}

/// The entries read as nodes: `id` and `nodes` are required.
pub open spec fn found_nodes_of(entries: Seq<(Seq<u8>, BencodeView)>) -> Option<BtDhtResView> {
    match (id_field(entries, KEY_ID@), nodes_field(entries, KEY_NODES@)) {
        (Some(id), Some(nodes)) => Some(BtDhtResView::FindNode { id, nodes }),
        _ => None,
    }
}

/// The entries read as the answer to a ping: `id` is required.
pub open spec fn pong_of(entries: Seq<(Seq<u8>, BencodeView)>) -> Option<BtDhtResView> {
    match id_field(entries, KEY_ID@) {
        Some(id) => Some(BtDhtResView::Pong { id }),
        None => None,
    }
}

/// What a bencode value is read as where a result is asked for: the first
/// of peers' nodes, peers, nodes and answer to a ping whose required keys
/// the dictionary holds. Other keys are passed over.
pub open spec fn res_of_tree(tree: BencodeView) -> Result<BtDhtResView, WireError> {
    match tree {
        BencodeView::Dict(entries) => {
            if get_peers_nodes_of(entries) is Some {
                Ok(get_peers_nodes_of(entries)->Some_0)
            } else if get_peers_values_of(entries) is Some {
                Ok(get_peers_values_of(entries)->Some_0)
            } else if found_nodes_of(entries) is Some {
                Ok(found_nodes_of(entries)->Some_0)
            } else if pong_of(entries) is Some {
                Ok(pong_of(entries)->Some_0)
            } else {
                Err(WireError::NoVariant)
            }
        },
        _ => Err(WireError::NoVariant),
    }
}

impl Wire for BtDhtRes {
    open spec fn writable(value: BtDhtResView) -> bool {
        match value {
            BtDhtResView::GetPeersNodes { id, token, nodes } => id.len() == 20 && nodes_writable(
                nodes,
            ),
            BtDhtResView::GetPeersValues { id, token, values } => id.len() == 20
                && peers_writable(values),
            BtDhtResView::FindNode { id, nodes } => id.len() == 20 && nodes_writable(nodes),
            BtDhtResView::Pong { id } => id.len() == 20,
        }
    }

    open spec fn wire(value: BtDhtResView) -> BencodeView {
        match value {
            BtDhtResView::GetPeersNodes { id, token, nodes } => BencodeView::Dict(
                seq![
                    (KEY_ID@, BencodeView::Bytes(id)),
                    (KEY_NODES@, BencodeView::Bytes(nodes_compact(nodes))),
                    (KEY_TOKEN@, BencodeView::Bytes(token)),
                ],
            ),
            BtDhtResView::GetPeersValues { id, token, values } => BencodeView::Dict(
                seq![
                    (KEY_ID@, BencodeView::Bytes(id)),
                    (KEY_TOKEN@, BencodeView::Bytes(token)),
                    (KEY_VALUES@, peers_wire(values)),
                ],
            ),
            BtDhtResView::FindNode { id, nodes } => BencodeView::Dict(
                seq![
                    (KEY_ID@, BencodeView::Bytes(id)),
                    (KEY_NODES@, BencodeView::Bytes(nodes_compact(nodes))),
                ],
            ),
            BtDhtResView::Pong { id } => BencodeView::Dict(
                seq![(KEY_ID@, BencodeView::Bytes(id))],
            ),
        }
    }

    open spec fn unwire(tree: BencodeView) -> Result<BtDhtResView, WireError> {
        res_of_tree(tree)
    }

    proof fn lemma_round_trip(value: BtDhtResView) {
        lemma_body_keys();
        let entries = Self::wire(value)->Dict_0;
        lemma_dict_get_found(entries, 0, KEY_ID@);
        match value {
            BtDhtResView::GetPeersNodes { id, token, nodes } => {
                lemma_nodes_round_trip(nodes);
                lemma_dict_get_found(entries, 1, KEY_NODES@);
                lemma_dict_get_found(entries, 2, KEY_TOKEN@);
            },
            BtDhtResView::GetPeersValues { id, token, values } => {
                lemma_peers_round_trip(values);
                lemma_dict_get_found(entries, 1, KEY_TOKEN@);
                lemma_dict_get_found(entries, 2, KEY_VALUES@);
                lemma_dict_get_missing(entries, KEY_NODES@);
            },
            BtDhtResView::FindNode { id, nodes } => {
                lemma_nodes_round_trip(nodes);
                lemma_dict_get_found(entries, 1, KEY_NODES@);
                lemma_dict_get_missing(entries, KEY_TOKEN@);
            },
            BtDhtResView::Pong { id } => {
                lemma_dict_get_missing(entries, KEY_TOKEN@);
                lemma_dict_get_missing(entries, KEY_NODES@);
            },
        }
    }

    proof fn lemma_sorted(value: BtDhtResView) {
        lemma_body_keys();
        let entries = Self::wire(value)->Dict_0;
        assert forall|i: int| 0 <= i < entries.len() implies (#[trigger] entries[i]).1.sorted() by {
            let child = entries[i].1;
            if child is List {
                let items = child->List_0;
                assert forall|k: int| 0 <= k < items.len() implies (#[trigger] items[k]).sorted() by {
                    assert(items[k] is Bytes);
                }
            } else {
                assert(child is Bytes);
            }
        }
        assert forall|i: int, j: int| 0 <= i < j < entries.len() implies lex_lt(
            #[trigger] entries[i].0,
            #[trigger] entries[j].0,
        ) by {
        }
    }

    fn serialize(&self) -> (tree: Bencode) {
        let mut entries: Vec<(Vec<u8>, Bencode)> = Vec::new();
        match self {
            BtDhtRes::GetPeersNodes { id, token, nodes } => {
                entries.push((bytes_to_vec(KEY_ID.as_slice()), id.serialize()));
                entries.push((bytes_to_vec(KEY_NODES.as_slice()), self::serialize(nodes)));
                entries.push(
                    (bytes_to_vec(KEY_TOKEN.as_slice()), Bencode::bytes(token.as_slice())),
                );
            },
            BtDhtRes::GetPeersValues { id, token, values } => {
                entries.push((bytes_to_vec(KEY_ID.as_slice()), id.serialize()));
                entries.push(
                    (bytes_to_vec(KEY_TOKEN.as_slice()), Bencode::bytes(token.as_slice())),
                );
                entries.push((bytes_to_vec(KEY_VALUES.as_slice()), write_peers(values)));
            },
            BtDhtRes::FindNode { id, nodes } => {
                entries.push((bytes_to_vec(KEY_ID.as_slice()), id.serialize()));
                entries.push((bytes_to_vec(KEY_NODES.as_slice()), self::serialize(nodes)));
            },
            BtDhtRes::Pong { id } => {
                entries.push((bytes_to_vec(KEY_ID.as_slice()), id.serialize()));
            },
        }
        let tree = Bencode::dict(entries);
        assert(tree@->Dict_0 =~= Self::wire(self@)->Dict_0);
        tree
    }

    fn deserialize(tree: &Bencode) -> (r: Result<Self, WireError>) {
        match tree {
            Bencode::Dict(_) => {},
            _ => {
                return Err(WireError::NoVariant);
            },
        }
        let id = match read_id(tree, KEY_ID.as_slice()) {
            Some(id) => id,
            None => {
                return Err(WireError::NoVariant);
            },
        };
        let nodes = read_nodes(tree, KEY_NODES.as_slice());
        match read_bytes_field(tree, KEY_TOKEN.as_slice()) {
            Some(token) => match nodes {
                Some(nodes) => Ok(BtDhtRes::GetPeersNodes { id, token, nodes }),
                None => match tree.get(KEY_VALUES.as_slice()) {
                    Some(list) => match read_peers(list) {
                        Some(values) => Ok(BtDhtRes::GetPeersValues { id, token, values }),
                        None => Ok(BtDhtRes::Pong { id }),
                    },
                    None => Ok(BtDhtRes::Pong { id }),
                },
            },
            None => match nodes {
                Some(nodes) => Ok(BtDhtRes::FindNode { id, nodes }),
                None => Ok(BtDhtRes::Pong { id }),
            },
        }
    }
}

/// Reads the compact node list under `key`.
fn read_nodes(tree: &Bencode, key: &[u8]) -> (nodes: Option<BtDhtNodesInfo>)
    requires
        tree@ is Dict,
    ensures
        match nodes {
            Some(list) => nodes_field(tree@->Dict_0, key@) == Some(nodes_view(list@)),
            None => nodes_field(tree@->Dict_0, key@) is None,
        },
{
    match tree.get(key) {
        Some(value) => match self::deserialize(value) {
            Ok(list) => Some(list),
            Err(_) => None,
        },
        None => None,
    }
}

} // verus!

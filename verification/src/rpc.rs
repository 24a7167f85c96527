use vstd::prelude::*;
use vstd::string::StringSliceAdditionalSpecFns;
use vstd::std_specs::convert::FromSpecImpl;
use vstd::utf8::{decode_utf8, encode_utf8, valid_utf8};
use crate::bencode::dict::{
    bytes_eq, bytes_to_vec, dict_get, lemma_dict_get_found, lemma_dict_get_missing, lex_lt,
};
use crate::bencode::{Bencode, BencodeView};
use crate::serde_extra::numeric_enum::{variant_of_tree, NumericEnum};
use crate::serde_extra::socket_addr::{addr_of_tree, compact, lemma_compact_round_trip, SocketAddr};
use crate::serde_extra::text::{text_of_utf8, utf8_of_text};
use crate::serde_extra::{numeric_enum, socket_addr, Wire, WireError};

verus! {

/// The envelope key of an argument: `a`.
pub const KEY_A: [u8; 1] = [0x61];

/// The envelope key of an error: `e`.
pub const KEY_E: [u8; 1] = [0x65];

/// The envelope key of the observed address: `ip`.
pub const KEY_IP: [u8; 2] = [0x69, 0x70];

/// The envelope key of a query's name: `q`.
pub const KEY_Q: [u8; 1] = [0x71];

/// The envelope key of a result: `r`.
pub const KEY_R: [u8; 1] = [0x72];

/// The envelope key of the transaction identifier: `t`.
pub const KEY_T: [u8; 1] = [0x74];

/// The envelope key of the kind of message: `y`.
pub const KEY_Y: [u8; 1] = [0x79];

/// What `y` holds in a query: `q`.
pub const TAG_QUERY: [u8; 1] = [0x71];

/// What `y` holds in a response: `r`.
pub const TAG_RESPONSE: [u8; 1] = [0x72];

/// What `y` holds in an error: `e`.
pub const TAG_ERROR: [u8; 1] = [0x65];

/// A socket address that is written in its compact form.
#[derive(Debug, Clone, Copy, PartialEq, Eq, Structural)]
pub struct KAddress(pub SocketAddr);

impl View for KAddress {
    type V = SocketAddr;

    open spec fn view(&self) -> SocketAddr {
        self.0
    }
}

impl Wire for KAddress {
    open spec fn writable(value: SocketAddr) -> bool {
        value is V4
    }

    open spec fn wire(value: SocketAddr) -> BencodeView {
        BencodeView::Bytes(compact(value))
    }

    open spec fn unwire(tree: BencodeView) -> Result<SocketAddr, WireError> {
        addr_of_tree(tree)
    }

    proof fn lemma_round_trip(value: SocketAddr) {
        lemma_compact_round_trip(value);
    }

    proof fn lemma_sorted(value: SocketAddr) {
    }

    fn serialize(&self) -> (tree: Bencode) {
        let tree = socket_addr::serialize(&self.0);
        assert(Self::wire(self@) == BencodeView::Bytes(compact(self@)));
        tree
    }

    fn deserialize(tree: &Bencode) -> (r: Result<Self, WireError>) {
        match socket_addr::deserialize(tree) {
            Ok(addr) => Ok(KAddress(addr)),
            Err(e) => Err(e),
        }
    }
}

/// A transaction identifier: bytes that the one who asks chooses and the one
/// who answers hands back.
#[derive(Debug, Clone, PartialEq, Eq)]
pub struct KTransId(pub Vec<u8>);

impl View for KTransId {
    type V = Seq<u8>;

    open spec fn view(&self) -> Seq<u8> {
        self.0@
    }
}

impl<'a> From<&'a str> for KTransId {
    fn from(s: &'a str) -> (id: Self)
        ensures
            id@ == s.spec_bytes(),
    {
        KTransId(bytes_to_vec(s.as_bytes()))
    }
}

impl<'a> FromSpecImpl<&'a str> for KTransId {
    open spec fn obeys_from_spec() -> bool {
        false
    }

    open spec fn from_spec(s: &'a str) -> Self {
        arbitrary()
    }
}

impl<'a> From<&'a [u8]> for KTransId {
    fn from(b: &'a [u8]) -> (id: Self)
        ensures
            id@ == b@,
    {
        KTransId(bytes_to_vec(b))
    }
}

impl<'a> FromSpecImpl<&'a [u8]> for KTransId {
    open spec fn obeys_from_spec() -> bool {
        false
    }

    open spec fn from_spec(b: &'a [u8]) -> Self {
        arbitrary()
    }
}

impl AsRef<[u8]> for KTransId {
    fn as_ref(&self) -> (bytes: &[u8])
        ensures
            bytes@ == self@,
    {
        self.0.as_slice()
    }
}

impl KTransId {
    /// The identifier's bytes.
    pub fn as_bytes(&self) -> (bytes: &[u8])
        ensures
            bytes@ == self@,
    {
        self.0.as_slice()
    }

    /// A copy of the identifier.
    pub fn copy(&self) -> (id: Self)
        ensures
            id@ == self@,
    {
        KTransId(bytes_to_vec(self.0.as_slice()))
    }
}

/// What a bencode value is read as where a transaction identifier is asked
/// for: any byte string.
pub open spec fn tid_of_tree(tree: BencodeView) -> Result<Seq<u8>, WireError> {
    match tree {
        BencodeView::Bytes(b) => Ok(b),
        _ => Err(WireError::InvalidType),
    }
}

impl Wire for KTransId {
    open spec fn writable(value: Seq<u8>) -> bool {
        true
    }

    open spec fn wire(value: Seq<u8>) -> BencodeView {
        BencodeView::Bytes(value)
    }

    open spec fn unwire(tree: BencodeView) -> Result<Seq<u8>, WireError> {
        tid_of_tree(tree)
    }

    proof fn lemma_round_trip(value: Seq<u8>) {
    }

    proof fn lemma_sorted(value: Seq<u8>) {
    }

    fn serialize(&self) -> (tree: Bencode) {
        let tree = Bencode::bytes(self.0.as_slice());
        assert(Self::wire(self@) == BencodeView::Bytes(self@));
        tree
    }

    fn deserialize(tree: &Bencode) -> (r: Result<Self, WireError>) {
        match tree.as_bytes() {
            Some(b) => Ok(KTransId(bytes_to_vec(b.as_slice()))),
            None => Err(WireError::InvalidType),
        }
    }
}

/// The kind of a protocol error. Each kind is written as its integer.
#[derive(Clone, Copy, Debug, Eq, PartialEq, Structural)]
pub enum KErrorKind {
    Generic,
    Server,
    Protocol,
    Method,
}

impl NumericEnum for KErrorKind {
    open spec fn name_of() -> &'static str {
        "KErrorKind"
    }

    fn name() -> (name: &'static str) {
        "KErrorKind"
    }

    open spec fn code_of(self) -> i64 {
        match self {
            KErrorKind::Generic => 201,
            KErrorKind::Server => 202,
            KErrorKind::Protocol => 203,
            KErrorKind::Method => 204,
        }
    }

    open spec fn of_code(code: i64) -> Option<Self> {
        if code == 201 {
            Some(KErrorKind::Generic)
        } else if code == 202 {
            Some(KErrorKind::Server)
        } else if code == 203 {
            Some(KErrorKind::Protocol)
        } else if code == 204 {
            Some(KErrorKind::Method)
        } else {
            None
        }
    }

    proof fn lemma_code_round_trip(self) {
    }

    fn code(&self) -> (code: i64) {
        match self {
            KErrorKind::Generic => 201,
            KErrorKind::Server => 202,
            KErrorKind::Protocol => 203,
            KErrorKind::Method => 204,
        }
    }

    fn from_code(code: i64) -> (variant: Option<Self>) {
        if code == 201 {
            Some(KErrorKind::Generic)
        } else if code == 202 {
            Some(KErrorKind::Server)
        } else if code == 203 {
            Some(KErrorKind::Protocol)
        } else if code == 204 {
            Some(KErrorKind::Method)
        } else {
            None
        }
    }
}

/// A protocol error: its kind and a message for people.
#[derive(Debug, Clone, PartialEq, Eq)]
pub struct KError(pub KErrorKind, pub String);

impl View for KError {
    type V = (KErrorKind, Seq<char>);

    open spec fn view(&self) -> (KErrorKind, Seq<char>) {
        (self.0, self.1@)
    }
}

/// What a bencode value is read as where an error is asked for: a list of
/// the kind's integer and the message.
pub open spec fn error_of_tree(tree: BencodeView) -> Result<(KErrorKind, Seq<char>), WireError> {
    match tree {
        BencodeView::List(items) => {
            if items.len() != 2 {
                Err(WireError::InvalidLength)
            } else {
                match variant_of_tree::<KErrorKind>(items[0]) {
                    Ok(kind) => match items[1] {
                        BencodeView::Bytes(b) => if valid_utf8(b) {
                            Ok((kind, decode_utf8(b)))
                        } else {
                            Err(WireError::InvalidText)
                        },
                        _ => Err(WireError::InvalidType),
                    },
                    Err(e) => Err(e),
                }
            }
        },
        _ => Err(WireError::InvalidType),
    }
}

impl Wire for KError {
    open spec fn writable(value: (KErrorKind, Seq<char>)) -> bool {
        true
    }

    open spec fn wire(value: (KErrorKind, Seq<char>)) -> BencodeView {
        BencodeView::List(
            seq![BencodeView::Int(value.0.code_of()), BencodeView::Bytes(encode_utf8(value.1))],
        )
    }

    open spec fn unwire(tree: BencodeView) -> Result<(KErrorKind, Seq<char>), WireError> {
        error_of_tree(tree)
    }

    proof fn lemma_round_trip(value: (KErrorKind, Seq<char>)) {
        broadcast use vstd::utf8::encode_utf8_valid_utf8, vstd::utf8::encode_utf8_decode_utf8;

        value.0.lemma_code_round_trip();
    }

    proof fn lemma_sorted(value: (KErrorKind, Seq<char>)) {
        let items = Self::wire(value)->List_0;
        assert forall|i: int| 0 <= i < items.len() implies (#[trigger] items[i]).sorted() by {
            assert(items[i] is Int || items[i] is Bytes);
        }
    }

    fn serialize(&self) -> (tree: Bencode) {
        let mut items: Vec<Bencode> = Vec::new();
        items.push(numeric_enum::serialize(&self.0));
        items.push(Bencode::Bytes(utf8_of_text(&self.1)));
        let tree = Bencode::list(items);
        assert(tree@->List_0 =~= Self::wire(self@)->List_0);
        tree
    }

    fn deserialize(tree: &Bencode) -> (r: Result<Self, WireError>) {
        match tree.as_list() {
            Some(items) => {
                if items.len() != 2 {
                    Err(WireError::InvalidLength)
                } else {
                    match numeric_enum::deserialize::<KErrorKind>(&items[0]) {
                        Ok(kind) => match items[1].as_bytes() {
                            Some(b) => match text_of_utf8(bytes_to_vec(b.as_slice())) {
                                Some(message) => Ok(KError(kind, message)),
                                None => Err(WireError::InvalidText),
                            },
                            None => Err(WireError::InvalidType),
                        },
                        Err(e) => Err(e),
                    }
                }
            },
            None => Err(WireError::InvalidType),
        }
    }
}

/// An argument that tells which query it belongs to.
pub trait KQueryArg: View {
    /// The names of the queries.
    type Query: View;

    /// The query that an argument belongs to.
    spec fn query_of(arg: Self::V) -> <Self::Query as View>::V;

    /// The query that the argument belongs to.
    fn query(&self) -> (query: Self::Query)
        ensures
            query@ == Self::query_of(self@),
    ;
}

/// A KRPC message as a mathematical value.
pub enum KMessageView<Q, A, R> {
    Query { tid: Option<Seq<u8>>, query: Q, arg: A },
    Response { ip: Option<SocketAddr>, tid: Option<Seq<u8>>, res: R },
    Error { ip: Option<SocketAddr>, tid: Option<Seq<u8>>, error: (KErrorKind, Seq<char>) },
}

/// A KRPC message: a query, a response to one, or an error in place of a
/// response.
#[derive(Debug, Clone, PartialEq, Eq)]
pub enum KMessage<Query, Arg, Res> {
    Query { tid: Option<KTransId>, query: Query, arg: Arg },
    Response { ip: Option<KAddress>, tid: Option<KTransId>, res: Res },
    Error { ip: Option<KAddress>, tid: Option<KTransId>, error: KError },
}

/// The bytes of a transaction identifier that may be absent.
pub open spec fn tid_view(tid: Option<KTransId>) -> Option<Seq<u8>> {
    match tid {
        Some(id) => Some(id@),
        None => None,
    }
}

/// The address behind an observed address that may be absent.
pub open spec fn ip_view(ip: Option<KAddress>) -> Option<SocketAddr> {
    match ip {
        Some(addr) => Some(addr@),
        None => None,
    }
}

impl<Query: View, Arg: View, Res: View> View for KMessage<Query, Arg, Res> {
    type V = KMessageView<Query::V, Arg::V, Res::V>;

    open spec fn view(&self) -> Self::V {
        match *self {
            KMessage::Query { tid, query, arg } => KMessageView::Query {
                tid: tid_view(tid),
                query: query@,
                arg: arg@,
            },
            KMessage::Response { ip, tid, res } => KMessageView::Response {
                ip: ip_view(ip),
                tid: tid_view(tid),
                res: res@,
            },
            KMessage::Error { ip, tid, error } => KMessageView::Error {
                ip: ip_view(ip),
                tid: tid_view(tid),
                error: error@,
            },
        }
    }
}

/// The entry `t` of an envelope: there where the message has a transaction
/// identifier.
pub open spec fn tid_entry(tid: Option<Seq<u8>>) -> Seq<(Seq<u8>, BencodeView)> {
    match tid {
        Some(id) => seq![(KEY_T@, BencodeView::Bytes(id))],
        None => Seq::empty(),
    }
}

/// The entry `ip` of an envelope: there where the message has an observed
/// address.
pub open spec fn ip_entry(ip: Option<SocketAddr>) -> Seq<(Seq<u8>, BencodeView)> {
    match ip {
        Some(addr) => seq![(KEY_IP@, BencodeView::Bytes(compact(addr)))],
        None => Seq::empty(),
    }
}

/// What the field `t` is read as: it may be absent, and holds any byte
/// string where it is there.
pub open spec fn tid_of_field(field: Option<BencodeView>) -> Result<Option<Seq<u8>>, WireError> {
    match field {
        Some(tree) => match tid_of_tree(tree) {
            Ok(id) => Ok(Some(id)),
            Err(e) => Err(e),
        },
        None => Ok(None),
    }
}

/// What the field `ip` is read as: it may be absent, and holds a compact
/// address where it is there.
pub open spec fn ip_of_field(field: Option<BencodeView>) -> Result<Option<SocketAddr>, WireError> {
    match field {
        Some(tree) => match addr_of_tree(tree) {
            Ok(addr) => Ok(Some(addr)),
            Err(e) => Err(e),
        },
        None => Ok(None),
    }
}

/// What the entries of an envelope with `y` = `q` are read as.
pub open spec fn query_of_entries<Q: Wire, A: Wire, R: Wire>(
    entries: Seq<(Seq<u8>, BencodeView)>,
) -> Result<KMessageView<Q::V, A::V, R::V>, WireError> {
    match tid_of_field(dict_get(entries, KEY_T@)) {
        Ok(tid) => match dict_get(entries, KEY_Q@) {
            Some(name) => match Q::unwire(name) {
                Ok(query) => match dict_get(entries, KEY_A@) {
                    Some(body) => match A::unwire(body) {
                        Ok(arg) => Ok(KMessageView::Query { tid, query, arg }),
                        Err(e) => Err(e),
                    },
                    None => Err(WireError::MissingField),
                },
                Err(e) => Err(e),
            },
            None => Err(WireError::MissingField),
        },
        Err(e) => Err(e),
    }
}

/// What the entries of an envelope with `y` = `r` are read as.
pub open spec fn response_of_entries<Q: Wire, A: Wire, R: Wire>(
    entries: Seq<(Seq<u8>, BencodeView)>,
) -> Result<KMessageView<Q::V, A::V, R::V>, WireError> {
    match ip_of_field(dict_get(entries, KEY_IP@)) {
        Ok(ip) => match tid_of_field(dict_get(entries, KEY_T@)) {
            Ok(tid) => match dict_get(entries, KEY_R@) {
                Some(body) => match R::unwire(body) {
                    Ok(res) => Ok(KMessageView::Response { ip, tid, res }),
                    Err(e) => Err(e),
                },
                None => Err(WireError::MissingField),
            },
            Err(e) => Err(e),
        },
        Err(e) => Err(e),
    }
}

/// What the entries of an envelope with `y` = `e` are read as.
pub open spec fn error_of_entries<Q: Wire, A: Wire, R: Wire>(
    entries: Seq<(Seq<u8>, BencodeView)>,
) -> Result<KMessageView<Q::V, A::V, R::V>, WireError> {
    match ip_of_field(dict_get(entries, KEY_IP@)) {
        Ok(ip) => match tid_of_field(dict_get(entries, KEY_T@)) {
            Ok(tid) => match dict_get(entries, KEY_E@) {
                Some(body) => match error_of_tree(body) {
                    Ok(error) => Ok(KMessageView::Error { ip, tid, error }),
                    Err(e) => Err(e),
                },
                None => Err(WireError::MissingField),
            },
            Err(e) => Err(e),
        },
        Err(e) => Err(e),
    }
}

/// The envelope's keys are distinct, and stand in this order: `a`, `e`,
/// `ip`, `q`, `r`, `t`, `y`.
pub proof fn lemma_envelope_keys()
    ensures
        lex_lt(KEY_A@, KEY_E@),
        lex_lt(KEY_A@, KEY_Q@),
        lex_lt(KEY_A@, KEY_T@),
        lex_lt(KEY_A@, KEY_Y@),
        lex_lt(KEY_E@, KEY_IP@),
        lex_lt(KEY_E@, KEY_T@),
        lex_lt(KEY_E@, KEY_Y@),
        lex_lt(KEY_IP@, KEY_R@),
        lex_lt(KEY_IP@, KEY_T@),
        lex_lt(KEY_IP@, KEY_Y@),
        lex_lt(KEY_Q@, KEY_T@),
        lex_lt(KEY_Q@, KEY_Y@),
        lex_lt(KEY_R@, KEY_T@),
        lex_lt(KEY_R@, KEY_Y@),
        lex_lt(KEY_T@, KEY_Y@),
        KEY_A@ != KEY_E@ && KEY_A@ != KEY_IP@ && KEY_A@ != KEY_Q@ && KEY_A@ != KEY_R@ && KEY_A@
            != KEY_T@ && KEY_A@ != KEY_Y@,
        KEY_E@ != KEY_IP@ && KEY_E@ != KEY_Q@ && KEY_E@ != KEY_R@ && KEY_E@ != KEY_T@ && KEY_E@
            != KEY_Y@,
        KEY_IP@ != KEY_Q@ && KEY_IP@ != KEY_R@ && KEY_IP@ != KEY_T@ && KEY_IP@ != KEY_Y@,
        KEY_Q@ != KEY_R@ && KEY_Q@ != KEY_T@ && KEY_Q@ != KEY_Y@,
        KEY_R@ != KEY_T@ && KEY_R@ != KEY_Y@,
        KEY_T@ != KEY_Y@,
        TAG_QUERY@ != TAG_RESPONSE@ && TAG_QUERY@ != TAG_ERROR@ && TAG_RESPONSE@ != TAG_ERROR@,
{
    assert(KEY_A@[0] == 0x61 && KEY_E@[0] == 0x65 && KEY_IP@[0] == 0x69 && KEY_Q@[0] == 0x71
        && KEY_R@[0] == 0x72 && KEY_T@[0] == 0x74 && KEY_Y@[0] == 0x79);
    assert(TAG_QUERY@[0] == 0x71 && TAG_RESPONSE@[0] == 0x72 && TAG_ERROR@[0] == 0x65);
}

impl<Q: Wire, A: Wire, R: Wire> Wire for KMessage<Q, A, R> {
    open spec fn writable(value: Self::V) -> bool {
        match value {
            KMessageView::Query { tid, query, arg } => Q::writable(query) && A::writable(arg),
            KMessageView::Response { ip, tid, res } => (ip matches Some(addr) ==> addr is V4)
                && R::writable(res),
            KMessageView::Error { ip, tid, error } => (ip matches Some(addr) ==> addr is V4),
        }
    }

    open spec fn wire(value: Self::V) -> BencodeView {
        match value {
            KMessageView::Query { tid, query, arg } => BencodeView::Dict(
                seq![(KEY_A@, A::wire(arg)), (KEY_Q@, Q::wire(query))] + tid_entry(tid) + seq![
                    (KEY_Y@, BencodeView::Bytes(TAG_QUERY@)),
                ],
            ),
            KMessageView::Response { ip, tid, res } => BencodeView::Dict(
                ip_entry(ip) + seq![(KEY_R@, R::wire(res))] + tid_entry(tid) + seq![
                    (KEY_Y@, BencodeView::Bytes(TAG_RESPONSE@)),
                ],
            ),
            KMessageView::Error { ip, tid, error } => BencodeView::Dict(
                seq![(KEY_E@, KError::wire(error))] + ip_entry(ip) + tid_entry(tid) + seq![
                    (KEY_Y@, BencodeView::Bytes(TAG_ERROR@)),
                ],
            ),
        }
    }

    open spec fn unwire(tree: BencodeView) -> Result<Self::V, WireError> {
        match tree {
            BencodeView::Dict(entries) => match dict_get(entries, KEY_Y@) {
                Some(BencodeView::Bytes(tag)) => {
                    if tag == TAG_QUERY@ {
                        query_of_entries::<Q, A, R>(entries)
                    } else if tag == TAG_RESPONSE@ {
                        response_of_entries::<Q, A, R>(entries)
                    } else if tag == TAG_ERROR@ {
                        error_of_entries::<Q, A, R>(entries)
                    } else {
                        Err(WireError::UnknownVariant)
                    }
                },
                Some(_) => Err(WireError::InvalidType),
                None => Err(WireError::MissingField),
            },
            _ => Err(WireError::InvalidType),
        }
    }

    proof fn lemma_round_trip(value: Self::V) {
        lemma_envelope_keys();
        let entries = Self::wire(value)->Dict_0;
        match value {
            KMessageView::Query { tid, query, arg } => {
                Q::lemma_round_trip(query);
                A::lemma_round_trip(arg);
                lemma_dict_get_found(entries, 0, KEY_A@);
                lemma_dict_get_found(entries, 1, KEY_Q@);
                if tid is Some {
                    lemma_dict_get_found(entries, 2, KEY_T@);
                    lemma_dict_get_found(entries, 3, KEY_Y@);
                } else {
                    lemma_dict_get_missing(entries, KEY_T@);
                    lemma_dict_get_found(entries, 2, KEY_Y@);
                }
            },
            KMessageView::Response { ip, tid, res } => {
                R::lemma_round_trip(res);
                let n: int = if ip is Some {
                    1
                } else {
                    0
                };
                if ip is Some {
                    lemma_compact_round_trip(ip->Some_0);
                    lemma_dict_get_found(entries, 0, KEY_IP@);
                } else {
                    lemma_dict_get_missing(entries, KEY_IP@);
                }
                lemma_dict_get_found(entries, n, KEY_R@);
                if tid is Some {
                    lemma_dict_get_found(entries, n + 1, KEY_T@);
                    lemma_dict_get_found(entries, n + 2, KEY_Y@);
                } else {
                    lemma_dict_get_missing(entries, KEY_T@);
                    lemma_dict_get_found(entries, n + 1, KEY_Y@);
                }
            },
            KMessageView::Error { ip, tid, error } => {
                KError::lemma_round_trip(error);
                let n: int = if ip is Some {
                    1
                } else {
                    0
                };
                lemma_dict_get_found(entries, 0, KEY_E@);
                if ip is Some {
                    lemma_compact_round_trip(ip->Some_0);
                    lemma_dict_get_found(entries, 1, KEY_IP@);
                } else {
                    lemma_dict_get_missing(entries, KEY_IP@);
                }
                if tid is Some {
                    lemma_dict_get_found(entries, n + 1, KEY_T@);
                    lemma_dict_get_found(entries, n + 2, KEY_Y@);
                } else {
                    lemma_dict_get_missing(entries, KEY_T@);
                    lemma_dict_get_found(entries, n + 1, KEY_Y@);
                }
            },
        }
    }

    proof fn lemma_sorted(value: Self::V) {
        lemma_envelope_keys();
        let entries = Self::wire(value)->Dict_0;
        match value {
            KMessageView::Query { tid, query, arg } => {
                Q::lemma_sorted(query);
                A::lemma_sorted(arg);
            },
            KMessageView::Response { ip, tid, res } => {
                R::lemma_sorted(res);
            },
            KMessageView::Error { ip, tid, error } => {
                KError::lemma_sorted(error);
            },
        }
        assert forall|i: int| 0 <= i < entries.len() implies (#[trigger] entries[i]).1.sorted() by {
        }
        assert forall|i: int, j: int| 0 <= i < j < entries.len() implies lex_lt(
            #[trigger] entries[i].0,
            #[trigger] entries[j].0,
        ) by {
        }
    }

    fn serialize(&self) -> (tree: Bencode) {
        let mut entries: Vec<(Vec<u8>, Bencode)> = Vec::new();
        match self {
            KMessage::Query { tid, query, arg } => {
                entries.push((bytes_to_vec(KEY_A.as_slice()), arg.serialize()));
                entries.push((bytes_to_vec(KEY_Q.as_slice()), query.serialize()));
                match tid {
                    Some(id) => {
                        entries.push((bytes_to_vec(KEY_T.as_slice()), id.serialize()));
                    },
                    None => {},
                }
                entries.push((bytes_to_vec(KEY_Y.as_slice()), Bencode::bytes(TAG_QUERY.as_slice())));
            },
            KMessage::Response { ip, tid, res } => {
                match ip {
                    Some(addr) => {
                        entries.push((bytes_to_vec(KEY_IP.as_slice()), addr.serialize()));
                    },
                    None => {},
                }
                entries.push((bytes_to_vec(KEY_R.as_slice()), res.serialize()));
                match tid {
                    Some(id) => {
                        entries.push((bytes_to_vec(KEY_T.as_slice()), id.serialize()));
                    },
                    None => {},
                }
                entries.push(
                    (bytes_to_vec(KEY_Y.as_slice()), Bencode::bytes(TAG_RESPONSE.as_slice())),
                );
            },
            KMessage::Error { ip, tid, error } => {
                entries.push((bytes_to_vec(KEY_E.as_slice()), error.serialize()));
                match ip {
                    Some(addr) => {
                        entries.push((bytes_to_vec(KEY_IP.as_slice()), addr.serialize()));
                    },
                    None => {},
                }
                match tid {
                    Some(id) => {
                        entries.push((bytes_to_vec(KEY_T.as_slice()), id.serialize()));
                    },
                    None => {},
                }
                entries.push((bytes_to_vec(KEY_Y.as_slice()), Bencode::bytes(TAG_ERROR.as_slice())));
            },
        }
        let tree = Bencode::dict(entries);
        assert(tree@->Dict_0 =~= Self::wire(self@)->Dict_0);
        tree
    }

    fn deserialize(tree: &Bencode) -> (r: Result<Self, WireError>) {
        match tree {
            Bencode::Dict(_) => {},
            _ => {
                return Err(WireError::InvalidType);
            },
        }
        let tag = match tree.get(KEY_Y.as_slice()) {
            Some(value) => match value.as_bytes() {
                Some(tag) => tag,
                None => {
                    return Err(WireError::InvalidType);
                },
            },
            None => {
                return Err(WireError::MissingField);
            },
        };
        if bytes_eq(tag.as_slice(), TAG_QUERY.as_slice()) {
            let tid = match read_tid(tree) {
                Ok(tid) => tid,
                Err(e) => {
                    return Err(e);
                },
            };
            let query = match tree.get(KEY_Q.as_slice()) {
                Some(name) => match Q::deserialize(name) {
                    Ok(query) => query,
                    Err(e) => {
                        return Err(e);
                    },
                },
                None => {
                    return Err(WireError::MissingField);
                },
            };
            match tree.get(KEY_A.as_slice()) {
                Some(body) => match A::deserialize(body) {
                    Ok(arg) => Ok(KMessage::Query { tid, query, arg }),
                    Err(e) => Err(e),
                },
                None => Err(WireError::MissingField),
            }
        } else if bytes_eq(tag.as_slice(), TAG_RESPONSE.as_slice()) {
            let ip = match read_ip(tree) {
                Ok(ip) => ip,
                Err(e) => {
                    return Err(e);
                },
            };
            let tid = match read_tid(tree) {
                Ok(tid) => tid,
                Err(e) => {
                    return Err(e);
                },
            };
            match tree.get(KEY_R.as_slice()) {
                Some(body) => match R::deserialize(body) {
                    Ok(res) => Ok(KMessage::Response { ip, tid, res }),
                    Err(e) => Err(e),
                },
                None => Err(WireError::MissingField),
            }
        } else if bytes_eq(tag.as_slice(), TAG_ERROR.as_slice()) {
            let ip = match read_ip(tree) {
                Ok(ip) => ip,
                Err(e) => {
                    return Err(e);
                },
            };
            let tid = match read_tid(tree) {
                Ok(tid) => tid,
                Err(e) => {
                    return Err(e);
                },
            };
            match tree.get(KEY_E.as_slice()) {
                Some(body) => match KError::deserialize(body) {
                    Ok(error) => Ok(KMessage::Error { ip, tid, error }),
                    Err(e) => Err(e),
                },
                None => Err(WireError::MissingField),
            }
        } else {
            Err(WireError::UnknownVariant)
        }
    }
}

/// Reads the field `t` of an envelope.
fn read_tid(tree: &Bencode) -> (r: Result<Option<KTransId>, WireError>)
    ensures
        match r {
            Ok(tid) => tid_of_field(tree@.get(KEY_T@)) == Ok::<Option<Seq<u8>>, WireError>(
                tid_view(tid),
            ),
            Err(e) => tid_of_field(tree@.get(KEY_T@)) == Err::<Option<Seq<u8>>, WireError>(e),
        },
{
    match tree.get(KEY_T.as_slice()) {
        Some(value) => match KTransId::deserialize(value) {
            Ok(id) => Ok(Some(id)),
            Err(e) => Err(e),
        },
        None => Ok(None),
    }
}

/// Reads the field `ip` of an envelope.
fn read_ip(tree: &Bencode) -> (r: Result<Option<KAddress>, WireError>)
    ensures
        match r {
            Ok(ip) => ip_of_field(tree@.get(KEY_IP@)) == Ok::<Option<SocketAddr>, WireError>(
                ip_view(ip),
            ),
            Err(e) => ip_of_field(tree@.get(KEY_IP@)) == Err::<Option<SocketAddr>, WireError>(e),
        },
{
    match tree.get(KEY_IP.as_slice()) {
        Some(value) => match KAddress::deserialize(value) {
            Ok(addr) => Ok(Some(addr)),
            Err(e) => Err(e),
        },
        None => Ok(None),
    }
}

} // verus!

use vstd::prelude::*;
use std::marker::PhantomData;
use crate::bencode::dict::bytes_eq;
use crate::bencode::encode::encoding;
use crate::bencode::laws::lemma_parse_inverts_encoding;
use crate::bencode::parse::parse_all;
use crate::rpc::{
    tid_view, KAddress, KError, KErrorKind, KMessage, KMessageView, KQueryArg, KTransId,
};
use crate::serde_extra::socket_addr::SocketAddr;
use crate::serde_extra::text::push_str;
use crate::serde_extra::wire::read_as;
use crate::serde_extra::{from_bytes, to_bytes, Same, Wire, WireError};

verus! {

/// Why a datagram was refused.
#[derive(Debug, Clone, Copy, PartialEq, Eq)]
pub enum KCodecError {
    /// The datagram is not the encoding of a message.
    Decode(WireError),
    /// The datagram is a query whose name is not that of its argument.
    Malformed,
}

impl KCodecError {
    /// What the error says.
    pub open spec fn message_of(self) -> Seq<char> {
        match self {
            KCodecError::Decode(cause) => "Decode error: "@ + cause.message_of(),
            KCodecError::Malformed => "Malformed message"@,
        }
    }

    /// What the error says.
    pub fn message(&self) -> (text: String)
        ensures
            text@ == self.message_of(),
    {
        match self {
            KCodecError::Decode(cause) => {
                let mut text = "Decode error: ".to_owned();
                let more = cause.message();
                push_str(&mut text, more.as_str());
                text
            },
            KCodecError::Malformed => "Malformed message".to_owned(),
        }
    }
}

/// The codec of KRPC datagrams: it reads a datagram as an item and writes an
/// item as a datagram.
pub struct KCodec<Query, Arg, Res> {
    phantom: PhantomData<(Query, Arg, Res)>,
}

/// What routes an item: the peer, and the transaction identifier where the
/// message has one.
#[derive(Debug, Clone, PartialEq, Eq)]
pub struct KId(pub SocketAddr, pub Option<KTransId>);

impl View for KId {
    type V = (SocketAddr, Option<Seq<u8>>);

    open spec fn view(&self) -> (SocketAddr, Option<Seq<u8>>) {
        (self.0, tid_view(self.1))
    }
}

impl KId {
    /// Whether two keys name the same peer and the same transaction.
    pub fn same(&self, other: &KId) -> (same: bool)
        ensures
            same == (self@ == other@),
    {
        if self.0 != other.0 {
            return false;
        }
        match (&self.1, &other.1) {
            (Some(a), Some(b)) => bytes_eq(a.as_bytes(), b.as_bytes()),
            (None, None) => true,
            _ => false,
        }
    }

    /// A copy of the key.
    pub fn copy(&self) -> (id: KId)
        ensures
            id@ == self@,
    {
        match &self.1 {
            Some(tid) => KId(self.0, Some(tid.copy())),
            None => KId(self.0, None),
        }
    }
}

/// What an item carries, as a mathematical value.
pub enum KDataView<A, R> {
    Query(A),
    Response(R),
    Error((KErrorKind, Seq<char>)),
}

/// What an item carries: the argument of a query, the result of one, or an
/// error in its place.
#[derive(Debug, Clone)]
pub enum KData<Arg, Res> {
    Query(Arg),
    Response(Res),
    Error(KError),
}

impl<Arg: View, Res: View> View for KData<Arg, Res> {
    type V = KDataView<Arg::V, Res::V>;

    open spec fn view(&self) -> Self::V {
        match *self {
            KData::Query(arg) => KDataView::Query(arg@),
            KData::Response(res) => KDataView::Response(res@),
            KData::Error(error) => KDataView::Error(error@),
        }
    }
}

/// A message with its routing key: what the codec reads from a datagram and
/// writes to one.
#[derive(Debug, Clone)]
pub struct KItem<Arg, Res>(pub KId, pub KData<Arg, Res>);

impl<Arg: View, Res: View> View for KItem<Arg, Res> {
    type V = ((SocketAddr, Option<Seq<u8>>), KDataView<Arg::V, Res::V>);

    open spec fn view(&self) -> Self::V {
        (self.0@, self.1@)
    }
}

impl<Arg, Res> Eq for KItem<Arg, Res> {

}

impl<Arg, Res> PartialEq for KItem<Arg, Res> {
    fn eq(&self, other: &Self) -> (same: bool) {
        self.0.same(&other.0)
    }
}

impl<Arg, Res> vstd::std_specs::cmp::PartialEqSpecImpl for KItem<Arg, Res> {
    open spec fn obeys_eq_spec() -> bool {
        true
    }

    open spec fn eq_spec(&self, other: &Self) -> bool {
        self.0@ == other.0@
    }
}

/// The message that an item is written as. A query is named after its
/// argument; a response and an error carry the address they are sent to.
pub open spec fn message_of_item<Arg: KQueryArg, Res: View>(
    item: ((SocketAddr, Option<Seq<u8>>), KDataView<Arg::V, Res::V>),
) -> KMessageView<<Arg::Query as View>::V, Arg::V, Res::V> {
    let ((addr, tid), data) = item;
    match data {
        KDataView::Query(arg) => KMessageView::Query { tid, query: Arg::query_of(arg), arg },
        KDataView::Response(res) => KMessageView::Response { ip: Some(addr), tid, res },
        KDataView::Error(error) => KMessageView::Error { ip: Some(addr), tid, error },
    }
}

/// The item that a message from `addr` is read as. A query whose name is not
/// that of its argument is refused; the observed address of a response or
/// an error is dropped.
pub open spec fn item_of_message<Arg: KQueryArg, Res: View>(
    addr: SocketAddr,
    message: KMessageView<<Arg::Query as View>::V, Arg::V, Res::V>,
) -> Result<((SocketAddr, Option<Seq<u8>>), KDataView<Arg::V, Res::V>), KCodecError> {
    match message {
        KMessageView::Query { tid, query, arg } => {
            if Arg::query_of(arg) == query {
                Ok(((addr, tid), KDataView::Query(arg)))
            } else {
                Err(KCodecError::Malformed)
            }
        },
        KMessageView::Response { ip, tid, res } => Ok(((addr, tid), KDataView::Response(res))),
        KMessageView::Error { ip, tid, error } => Ok(((addr, tid), KDataView::Error(error))),
    }
}

/// What a datagram from `addr` is read as.
pub open spec fn decoded<Query: Wire, Arg: Wire + KQueryArg<Query = Query>, Res: Wire>(
    addr: SocketAddr,
    datagram: Seq<u8>,
) -> Result<((SocketAddr, Option<Seq<u8>>), KDataView<Arg::V, Res::V>), KCodecError> {
    match read_as::<KMessage<Query, Arg, Res>>(datagram) {
        Ok(message) => item_of_message::<Arg, Res>(addr, message),
        Err(e) => Err(KCodecError::Decode(e)),
    }
}

/// The datagram that an item is written as.
pub open spec fn encoded<Query: Wire, Arg: Wire + KQueryArg<Query = Query>, Res: Wire>(
    item: ((SocketAddr, Option<Seq<u8>>), KDataView<Arg::V, Res::V>),
) -> Seq<u8> {
    encoding(KMessage::<Query, Arg, Res>::wire(message_of_item::<Arg, Res>(item)))
}

/// Whether an item can be written so that it is read back: what it carries
/// is writable, and a response or an error goes to an IPv4 address.
pub open spec fn item_writable<Query: Wire, Arg: Wire + KQueryArg<Query = Query>, Res: Wire>(
    item: ((SocketAddr, Option<Seq<u8>>), KDataView<Arg::V, Res::V>),
) -> bool {
    KMessage::<Query, Arg, Res>::writable(message_of_item::<Arg, Res>(item))
}

/// The datagram of a writable item, read as coming from the peer that the
/// item names, is that item.
pub proof fn lemma_codec_round_trip<
    Query: Wire,
    Arg: Wire + KQueryArg<Query = Query>,
    Res: Wire,
>(item: ((SocketAddr, Option<Seq<u8>>), KDataView<Arg::V, Res::V>))
    requires
        item_writable::<Query, Arg, Res>(item),
    ensures
        decoded::<Query, Arg, Res>(item.0.0, encoded::<Query, Arg, Res>(item)) == Ok::<
            ((SocketAddr, Option<Seq<u8>>), KDataView<Arg::V, Res::V>),
            KCodecError,
        >(item),
{
    let message = message_of_item::<Arg, Res>(item);
    lemma_parse_inverts_encoding(KMessage::<Query, Arg, Res>::wire(message));
    KMessage::<Query, Arg, Res>::lemma_round_trip(message);
}

/// Every dictionary of a datagram that the codec writes has its keys in
/// ascending order.
pub proof fn lemma_codec_sorted<Query: Wire, Arg: Wire + KQueryArg<Query = Query>, Res: Wire>(
    item: ((SocketAddr, Option<Seq<u8>>), KDataView<Arg::V, Res::V>),
)
    ensures
        parse_all(encoded::<Query, Arg, Res>(item)) is Some,
        parse_all(encoded::<Query, Arg, Res>(item))->Some_0.sorted(),
{
    let message = message_of_item::<Arg, Res>(item);
    lemma_parse_inverts_encoding(KMessage::<Query, Arg, Res>::wire(message));
    KMessage::<Query, Arg, Res>::lemma_sorted(message);
}

impl<Query: Wire + Same, Arg: Wire + KQueryArg<Query = Query>, Res: Wire> KCodec<Query, Arg, Res> {
    /// A codec.
    pub fn new() -> Self {
        KCodec { phantom: PhantomData }
    }

    /// Reads a datagram that came from `addr`.
    pub fn decode(&mut self, addr: &SocketAddr, buf: &[u8]) -> (r: Result<
        KItem<Arg, Res>,
        KCodecError,
    >)
        ensures
            match r {
                Ok(item) => decoded::<Query, Arg, Res>(*addr, buf@) == Ok::<
                    ((SocketAddr, Option<Seq<u8>>), KDataView<Arg::V, Res::V>),
                    KCodecError,
                >(item@),
                Err(e) => decoded::<Query, Arg, Res>(*addr, buf@) == Err::<
                    ((SocketAddr, Option<Seq<u8>>), KDataView<Arg::V, Res::V>),
                    KCodecError,
                >(e),
            },
    {
        let msg: KMessage<Query, Arg, Res> = match from_bytes(buf) {
            Ok(msg) => msg,
            Err(e) => {
                return Err(KCodecError::Decode(e));
            },
        };
        match msg {
            KMessage::Query { tid, query, arg } => {
                if arg.query().same(&query) {
                    Ok(KItem(KId(*addr, tid), KData::Query(arg)))
                } else {
                    Err(KCodecError::Malformed)
                }
            },
            KMessage::Response { tid, res, .. } => Ok(
                KItem(KId(*addr, tid), KData::Response(res)),
            ),
            KMessage::Error { tid, error, .. } => Ok(KItem(KId(*addr, tid), KData::Error(error))),
        }
    }

    /// Writes an item behind what `into` holds, and gives the address that
    /// the datagram goes to.
    pub fn encode(&mut self, item: KItem<Arg, Res>, into: &mut Vec<u8>) -> (addr: SocketAddr)
        ensures
            addr == item@.0.0,
            final(into)@ == old(into)@ + encoded::<Query, Arg, Res>(item@),
    {
        let KItem(KId(addr, tid), data) = item;
        let msg: KMessage<Query, Arg, Res> = match data {
            KData::Query(arg) => KMessage::Query { tid, query: arg.query(), arg },
            KData::Response(res) => KMessage::Response { ip: Some(KAddress(addr)), tid, res },
            KData::Error(error) => KMessage::Error { ip: Some(KAddress(addr)), tid, error },
        };
        let mut buf = to_bytes(&msg);
        into.append(&mut buf);
        addr
    }
}

} // verus!

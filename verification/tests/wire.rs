use tokio_krpc::bencode::Bencode;
use tokio_krpc::dht::bittorrent::{
    deserialize, serialize, BtDhtArg, BtDhtId, BtDhtNodeInfo, BtDhtPeerInfo, BtDhtQuery,
    BtDhtRes,
};
use tokio_krpc::rpc::{KAddress, KError, KErrorKind, KMessage, KQueryArg, KTransId};
use tokio_krpc::serde_extra::numeric_enum::NumericEnum;
use tokio_krpc::serde_extra::socket_addr::SocketAddr;
use tokio_krpc::serde_extra::{
    from_bytes, numeric_enum, option_bool, socket_addr, to_bytes, Same, Wire, WireError,
};

type BtDhtMessage = KMessage<BtDhtQuery, BtDhtArg, BtDhtRes>;

fn id(text: &str) -> BtDhtId {
    BtDhtId::from_str(text)
}

#[test]
pub fn test_serde_ping_query() {
    let ping_query: BtDhtMessage = KMessage::Query {
        tid: Some("aa".into()),
        query: BtDhtQuery::Ping,
        arg: BtDhtArg::Ping { id: id("0123456789abcdefghij") },
    };

    let ping_query_enc = to_bytes(&ping_query);

    assert_eq!(
        r#"d1:ad2:id20:0123456789abcdefghije1:q4:ping1:t2:aa1:y1:qe"#.as_bytes().to_vec(),
        ping_query_enc
    );

    let ping_query_dec: BtDhtMessage = from_bytes(&ping_query_enc).unwrap();

    assert_eq!(ping_query_dec, ping_query);
}

#[test]
pub fn test_serde_ping_response() {
    let ping_response: BtDhtMessage = KMessage::Response {
        ip: Some(KAddress(SocketAddr::v4(1, 2, 3, 4, 56789))),
        tid: Some("aa".into()),
        res: BtDhtRes::Pong { id: id("0123456789abcdefghij") },
    };

    let ping_response_enc = to_bytes(&ping_response);

    assert_eq!(
        vec![
            100, 50, 58, 105, 112, 54, 58, 1, 2, 3, 4, 221, 213, 49, 58, 114, 100, 50, 58, 105,
            100, 50, 48, 58, 48, 49, 50, 51, 52, 53, 54, 55, 56, 57, 97, 98, 99, 100, 101, 102,
            103, 104, 105, 106, 101, 49, 58, 116, 50, 58, 97, 97, 49, 58, 121, 49, 58, 114, 101
        ],
        ping_response_enc
    );

    let ping_response_dec: BtDhtMessage = from_bytes(&ping_response_enc).unwrap();

    assert_eq!(ping_response_dec, ping_response);
}

#[test]
pub fn test_serde_method_error() {
    let method_error: BtDhtMessage = KMessage::Error {
        ip: None,
        tid: Some("55".into()),
        error: KError(KErrorKind::Method, "Unsupported method".into()),
    };

    let method_error_enc = to_bytes(&method_error);

    assert_eq!(
        r#"d1:eli204e18:Unsupported methode1:t2:551:y1:ee"#.as_bytes().to_vec(),
        method_error_enc
    );

    let method_error_dec: BtDhtMessage = from_bytes(&method_error_enc).unwrap();

    assert_eq!(method_error_dec, method_error);
}

#[test]
fn response_ip_is_read_as_an_address() {
    let mut frame = b"d2:ip6:".to_vec();
    frame.extend_from_slice(&[0x01, 0x02, 0x03, 0x04, 0xdd, 0xd5]);
    frame.extend_from_slice(b"1:rd2:id20:0123456789abcdefghije1:t2:aa1:y1:re");
    let message: BtDhtMessage = from_bytes(&frame).unwrap();
    match message {
        KMessage::Response { ip, .. } => {
            assert_eq!(ip, Some(KAddress(SocketAddr::V4 { ip: 0x01020304, port: 56789 })));
        }
        other => panic!("{:?}", other),
    }
}

#[test]
fn compact_address_is_six_bytes() {
    let addr = SocketAddr::v4(127, 0, 0, 1, 6881);
    assert_eq!(addr, SocketAddr::V4 { ip: 0x7f000001, port: 6881 });
    let mut buf = vec![9u8];
    socket_addr::to_bytes(&mut buf, &addr);
    assert_eq!(buf, vec![9, 127, 0, 0, 1, 0x1a, 0xe1]);
    assert_eq!(socket_addr::from_bytes(&buf[1..]), Ok(addr));
    assert_eq!(
        socket_addr::from_bytes(&[255, 254, 253, 252, 0xff, 0xfe]),
        Ok(SocketAddr::V4 { ip: 0xfffefdfc, port: 0xfffe })
    );
}

#[test]
fn compact_address_of_other_lengths_is_refused() {
    assert_eq!(socket_addr::from_bytes(&[1, 2, 3, 4, 5]), Err(()));
    assert_eq!(socket_addr::from_bytes(&[1, 2, 3, 4, 5, 6, 7]), Err(()));
    assert_eq!(socket_addr::from_bytes(&[]), Err(()));
    assert_eq!(
        socket_addr::deserialize(&Bencode::Bytes(vec![1, 2, 3, 4, 5])),
        Err(WireError::InvalidSocketAddr)
    );
    assert_eq!(
        socket_addr::deserialize(&Bencode::Bytes(vec![1, 2, 3, 4, 5, 6, 7])),
        Err(WireError::InvalidSocketAddr)
    );
    assert_eq!(socket_addr::deserialize(&Bencode::Int(6)), Err(WireError::InvalidType));
    assert_eq!(
        socket_addr::deserialize(&Bencode::Bytes(vec![1, 2, 3, 4, 5, 6])),
        Ok(SocketAddr::v4(1, 2, 3, 4, 0x0506))
    );
}

#[test]
fn ipv6_address_is_written_as_nothing() {
    let addr = SocketAddr::V6 { ip: 1, port: 6881, flowinfo: 0, scope_id: 0 };
    let mut buf = vec![1u8, 2];
    socket_addr::to_bytes(&mut buf, &addr);
    assert_eq!(buf, vec![1, 2]);
    assert_eq!(socket_addr::serialize(&addr), Bencode::Bytes(vec![]));
    assert_eq!(
        KAddress::deserialize(&KAddress(addr).serialize()),
        Err(WireError::InvalidSocketAddr)
    );
}

#[test]
fn implied_port_is_one_or_absent() {
    assert_eq!(option_bool::serialize(&true), Some(Bencode::Int(1)));
    assert_eq!(option_bool::serialize(&false), None);
    assert!(option_bool::deserialize(Some(&Bencode::Int(1))));
    assert!(!option_bool::deserialize(Some(&Bencode::Int(2))));
    assert!(!option_bool::deserialize(Some(&Bencode::Int(0))));
    assert!(!option_bool::deserialize(Some(&Bencode::Int(-1))));
    assert!(!option_bool::deserialize(Some(&Bencode::Bytes(vec![1]))));
    assert!(!option_bool::deserialize(None));
}

fn announce(frame: &[u8]) -> BtDhtArg {
    let tree = Bencode::parse(frame).unwrap();
    BtDhtArg::deserialize(&tree).unwrap()
}

#[test]
fn implied_port_in_an_announcement() {
    let head = b"d2:id20:0123456789abcdefghij".to_vec();
    let tail = b"9:info_hash20:abcdefghij01234567894:porti6881e5:token3:xyze".to_vec();
    let expect = |implied_port: bool| BtDhtArg::AnnouncePeer {
        id: id("0123456789abcdefghij"),
        implied_port,
        info_hash: id("abcdefghij0123456789"),
        port: 6881,
        token: b"xyz".to_vec(),
    };

    let absent = [head.clone(), tail.clone()].concat();
    assert_eq!(announce(&absent), expect(false));
    assert_eq!(expect(false).serialize().to_vec(), absent);

    let one = [head.clone(), b"12:implied_porti1e".to_vec(), tail.clone()].concat();
    assert_eq!(announce(&one), expect(true));
    assert_eq!(expect(true).serialize().to_vec(), one);

    let two = [head.clone(), b"12:implied_porti2e".to_vec(), tail.clone()].concat();
    assert_eq!(announce(&two), expect(false));

    let zero = [head.clone(), b"12:implied_porti0e".to_vec(), tail.clone()].concat();
    assert_eq!(announce(&zero), expect(false));
}

#[test]
fn error_kinds_have_their_codes() {
    assert_eq!(KErrorKind::Generic.code(), 201);
    assert_eq!(KErrorKind::Server.code(), 202);
    assert_eq!(KErrorKind::Protocol.code(), 203);
    assert_eq!(KErrorKind::Method.code(), 204);
    assert_eq!(KErrorKind::from_code(201), Some(KErrorKind::Generic));
    assert_eq!(KErrorKind::from_code(202), Some(KErrorKind::Server));
    assert_eq!(KErrorKind::from_code(203), Some(KErrorKind::Protocol));
    assert_eq!(KErrorKind::from_code(204), Some(KErrorKind::Method));
    assert_eq!(KErrorKind::from_code(200), None);
    assert_eq!(KErrorKind::from_code(205), None);
    assert_eq!(numeric_enum::serialize(&KErrorKind::Protocol), Bencode::Int(203));
    assert_eq!(
        numeric_enum::deserialize::<KErrorKind>(&Bencode::Int(202)),
        Ok(KErrorKind::Server)
    );
    assert_eq!(
        numeric_enum::deserialize::<KErrorKind>(&Bencode::Int(0)),
        Err(WireError::UnknownValue("KErrorKind", 0))
    );
    assert_eq!(
        numeric_enum::deserialize::<KErrorKind>(&Bencode::Int(-204)),
        Err(WireError::UnknownValue("KErrorKind", -204))
    );
    assert_eq!(
        numeric_enum::deserialize::<KErrorKind>(&Bencode::Bytes(b"204".to_vec())),
        Err(WireError::InvalidType)
    );
}

#[test]
fn error_is_a_list_of_kind_and_message() {
    let error = KError(KErrorKind::Generic, "A Generic Error Ocurred".into());
    let tree = error.serialize();
    assert_eq!(tree.to_vec(), b"li201e23:A Generic Error Ocurrede".to_vec());
    assert_eq!(KError::deserialize(&tree), Ok(error));

    let parse = |text: &[u8]| KError::deserialize(&Bencode::parse(text).unwrap());
    assert_eq!(parse(b"li201ee"), Err(WireError::InvalidLength));
    assert_eq!(parse(b"li201e1:a1:be"), Err(WireError::InvalidLength));
    assert_eq!(parse(b"li205e1:ae"), Err(WireError::UnknownValue("KErrorKind", 205)));
    assert_eq!(parse(b"li201ei1ee"), Err(WireError::InvalidType));
    assert_eq!(parse(b"l3:2011:ae"), Err(WireError::InvalidType));
    assert_eq!(parse(b"d1:ai201ee"), Err(WireError::InvalidType));
    assert_eq!(parse(&[b'l', b'i', b'2', b'0', b'1', b'e', b'1', b':', 0xff, b'e']), Err(WireError::InvalidText));
    assert_eq!(
        parse(&[b'l', b'i', b'2', b'0', b'3', b'e', b'2', b':', 0xc3, 0xa9, b'e']),
        Ok(KError(KErrorKind::Protocol, "\u{e9}".into()))
    );
}

#[test]
fn query_names() {
    let names: [(&[u8], BtDhtQuery); 4] = [
        (b"ping", BtDhtQuery::Ping),
        (b"find_node", BtDhtQuery::FindNode),
        (b"get_peers", BtDhtQuery::GetPeers),
        (b"announce_peer", BtDhtQuery::AnnouncePeer),
    ];
    for (name, query) in names.iter() {
        assert_eq!(query.serialize(), Bencode::Bytes(name.to_vec()));
        assert_eq!(BtDhtQuery::deserialize(&Bencode::Bytes(name.to_vec())), Ok(*query));
        assert!(query.same(query));
    }
    assert!(!BtDhtQuery::Ping.same(&BtDhtQuery::FindNode));
    assert_eq!(
        BtDhtQuery::deserialize(&Bencode::Bytes(b"pong".to_vec())),
        Err(WireError::UnsupportedMethod)
    );
    assert_eq!(
        BtDhtQuery::deserialize(&Bencode::Bytes(b"Ping".to_vec())),
        Err(WireError::UnsupportedMethod)
    );
    assert_eq!(
        BtDhtQuery::deserialize(&Bencode::Bytes(vec![])),
        Err(WireError::UnsupportedMethod)
    );
    assert_eq!(
        BtDhtQuery::deserialize(&Bencode::Bytes(b"vote".to_vec())),
        Err(WireError::UnsupportedMethod)
    );
    assert_eq!(
        BtDhtQuery::deserialize(&Bencode::Bytes(vec![b'p', 0xff])),
        Err(WireError::UnsupportedMethod)
    );
    assert_eq!(
        BtDhtQuery::deserialize(&Bencode::Bytes(vec![0xff])),
        Err(WireError::UnsupportedMethod)
    );
    assert_eq!(BtDhtQuery::deserialize(&Bencode::Int(1)), Err(WireError::InvalidType));
}

#[test]
fn argument_tells_its_query() {
    let me = id("0123456789abcdefghij");
    assert_eq!(BtDhtArg::Ping { id: me }.query(), BtDhtQuery::Ping);
    assert_eq!(BtDhtArg::FindNode { id: me, target: me }.query(), BtDhtQuery::FindNode);
    assert_eq!(BtDhtArg::GetPeers { id: me, info_hash: me }.query(), BtDhtQuery::GetPeers);
    assert_eq!(
        BtDhtArg::AnnouncePeer {
            id: me,
            implied_port: true,
            info_hash: me,
            port: 1,
            token: vec![]
        }
        .query(),
        BtDhtQuery::AnnouncePeer
    );
}

#[test]
fn arguments_round_trip() {
    let me = id("0123456789abcdefghij");
    let other = id("abcdefghij0123456789");
    let args = vec![
        (
            BtDhtArg::Ping { id: me },
            b"d2:id20:0123456789abcdefghije".to_vec(),
        ),
        (
            BtDhtArg::FindNode { id: me, target: other },
            b"d2:id20:0123456789abcdefghij6:target20:abcdefghij0123456789e".to_vec(),
        ),
        (
            BtDhtArg::GetPeers { id: me, info_hash: other },
            b"d2:id20:0123456789abcdefghij9:info_hash20:abcdefghij0123456789e".to_vec(),
        ),
        (
            BtDhtArg::AnnouncePeer {
                id: me,
                implied_port: true,
                info_hash: other,
                port: 65535,
                token: b"aoeusnth".to_vec(),
            },
            b"d2:id20:0123456789abcdefghij12:implied_porti1e9:info_hash20:abcdefghij01234567894:porti65535e5:token8:aoeusnthe"
                .to_vec(),
        ),
    ];
    for (arg, bytes) in args {
        assert_eq!(to_bytes(&arg), bytes);
        assert_eq!(from_bytes::<BtDhtArg>(&bytes), Ok(arg));
    }
}

#[test]
fn argument_is_told_by_its_keys() {
    let arg = |text: &[u8]| from_bytes::<BtDhtArg>(text);
    let me = id("0123456789abcdefghij");
    let other = id("abcdefghij0123456789");
    // keys that no variant asks for are passed over
    assert_eq!(
        arg(b"d2:id20:0123456789abcdefghij1:vi1ee"),
        Ok(BtDhtArg::Ping { id: me })
    );
    // an announcement without a token is a request for peers
    assert_eq!(
        arg(b"d2:id20:0123456789abcdefghij9:info_hash20:abcdefghij01234567894:porti1ee"),
        Ok(BtDhtArg::GetPeers { id: me, info_hash: other })
    );
    // a port that is no port makes it a request for peers
    assert_eq!(
        arg(b"d2:id20:0123456789abcdefghij9:info_hash20:abcdefghij01234567894:porti65536e5:token1:xe"),
        Ok(BtDhtArg::GetPeers { id: me, info_hash: other })
    );
    assert_eq!(
        arg(b"d2:id20:0123456789abcdefghij9:info_hash20:abcdefghij01234567894:porti-1e5:token1:xe"),
        Ok(BtDhtArg::GetPeers { id: me, info_hash: other })
    );
    // a request for peers comes before a request for nodes
    assert_eq!(
        arg(b"d2:id20:0123456789abcdefghij9:info_hash20:abcdefghij01234567896:target20:abcdefghij0123456789e"),
        Ok(BtDhtArg::GetPeers { id: me, info_hash: other })
    );
    // an info_hash of a wrong length is no info_hash
    assert_eq!(
        arg(b"d2:id20:0123456789abcdefghij9:info_hash3:abce"),
        Ok(BtDhtArg::Ping { id: me })
    );
    assert_eq!(arg(b"d2:id19:0123456789abcdefghie"), Err(WireError::NoVariant));
    assert_eq!(arg(b"d6:target20:abcdefghij0123456789e"), Err(WireError::NoVariant));
    assert_eq!(arg(b"de"), Err(WireError::NoVariant));
    assert_eq!(arg(b"le"), Err(WireError::NoVariant));
    assert_eq!(arg(b"i1e"), Err(WireError::NoVariant));
    assert_eq!(arg(b"d2:id"), Err(WireError::Syntax));
}

fn node(text: &str, a: u8, port: u16) -> BtDhtNodeInfo {
    BtDhtNodeInfo { id: id(text), addr: SocketAddr::v4(10, 0, 0, a, port) }
}

#[test]
fn compact_node_list() {
    let empty: Vec<BtDhtNodeInfo> = Vec::new();
    assert_eq!(serialize(&empty), Bencode::Bytes(vec![]));
    assert_eq!(deserialize(&Bencode::Bytes(vec![])), Ok(empty));

    let nodes = vec![node("0123456789abcdefghij", 1, 0x0102), node("abcdefghij0123456789", 2, 6881)];
    let mut bytes = b"0123456789abcdefghij".to_vec();
    bytes.extend_from_slice(&[10, 0, 0, 1, 1, 2]);
    bytes.extend_from_slice(b"abcdefghij0123456789");
    bytes.extend_from_slice(&[10, 0, 0, 2, 0x1a, 0xe1]);
    assert_eq!(bytes.len(), 52);
    assert_eq!(serialize(&nodes), Bencode::Bytes(bytes.clone()));
    assert_eq!(deserialize(&Bencode::Bytes(bytes.clone())), Ok(nodes));

    assert_eq!(deserialize(&Bencode::Bytes(bytes[..25].to_vec())), Err(WireError::MalformedNodeInfo));
    assert_eq!(deserialize(&Bencode::Bytes(bytes[..27].to_vec())), Err(WireError::MalformedNodeInfo));
    assert_eq!(deserialize(&Bencode::Bytes(bytes[..51].to_vec())), Err(WireError::MalformedNodeInfo));
    assert_eq!(deserialize(&Bencode::Bytes(vec![0])), Err(WireError::MalformedNodeInfo));
    assert_eq!(
        deserialize(&Bencode::Bytes(bytes[..26].to_vec())),
        Ok(vec![node("0123456789abcdefghij", 1, 0x0102)])
    );
    assert_eq!(deserialize(&Bencode::List(vec![])), Err(WireError::InvalidType));
}

#[test]
fn results_round_trip() {
    let me = id("0123456789abcdefghij");
    let nodes = vec![node("abcdefghij0123456789", 7, 6881)];
    let mut compact = b"abcdefghij0123456789".to_vec();
    compact.extend_from_slice(&[10, 0, 0, 7, 0x1a, 0xe1]);
    let values = vec![
        BtDhtPeerInfo { addr: SocketAddr::v4(1, 2, 3, 4, 5) },
        BtDhtPeerInfo { addr: SocketAddr::v4(6, 7, 8, 9, 0x0a0b) },
    ];

    let pong = BtDhtRes::Pong { id: me };
    assert_eq!(to_bytes(&pong), b"d2:id20:0123456789abcdefghije".to_vec());
    assert_eq!(from_bytes::<BtDhtRes>(&to_bytes(&pong)), Ok(pong));

    let found = BtDhtRes::FindNode { id: me, nodes: nodes.clone() };
    let bytes = [b"d2:id20:0123456789abcdefghij5:nodes26:".to_vec(), compact.clone(), b"e".to_vec()].concat();
    assert_eq!(to_bytes(&found), bytes);
    assert_eq!(from_bytes::<BtDhtRes>(&bytes), Ok(found));

    let peers_nodes = BtDhtRes::GetPeersNodes { id: me, token: b"tok".to_vec(), nodes: nodes.clone() };
    let bytes = [
        b"d2:id20:0123456789abcdefghij5:nodes26:".to_vec(),
        compact.clone(),
        b"5:token3:toke".to_vec(),
    ]
    .concat();
    assert_eq!(to_bytes(&peers_nodes), bytes);
    assert_eq!(from_bytes::<BtDhtRes>(&bytes), Ok(peers_nodes));

    let peers = BtDhtRes::GetPeersValues { id: me, token: b"tok".to_vec(), values: values.clone() };
    let bytes = [
        b"d2:id20:0123456789abcdefghij5:token3:tok6:valuesl6:".to_vec(),
        vec![1, 2, 3, 4, 0, 5],
        b"6:".to_vec(),
        vec![6, 7, 8, 9, 0x0a, 0x0b],
        b"ee".to_vec(),
    ]
    .concat();
    assert_eq!(to_bytes(&peers), bytes);
    assert_eq!(from_bytes::<BtDhtRes>(&bytes), Ok(peers));
}

#[test]
fn result_is_told_by_its_keys() {
    let me = id("0123456789abcdefghij");
    let mut compact = b"abcdefghij0123456789".to_vec();
    compact.extend_from_slice(&[10, 0, 0, 7, 0x1a, 0xe1]);
    // a result with both nodes and values is read as nodes
    let both = [
        b"d2:id20:0123456789abcdefghij5:nodes26:".to_vec(),
        compact.clone(),
        b"5:token3:tok6:valuesl6:".to_vec(),
        vec![1, 2, 3, 4, 0, 5],
        b"ee".to_vec(),
    ]
    .concat();
    assert_eq!(
        from_bytes::<BtDhtRes>(&both),
        Ok(BtDhtRes::GetPeersNodes {
            id: me,
            token: b"tok".to_vec(),
            nodes: vec![node("abcdefghij0123456789", 7, 6881)],
        })
    );
    // a malformed node list is no node list
    assert_eq!(
        from_bytes::<BtDhtRes>(b"d2:id20:0123456789abcdefghij5:nodes3:abc5:token3:toke"),
        Ok(BtDhtRes::Pong { id: me })
    );
    // a value that is no address makes the list no list of peers
    assert_eq!(
        from_bytes::<BtDhtRes>(b"d2:id20:0123456789abcdefghij5:token3:tok6:valuesl5:12345ee"),
        Ok(BtDhtRes::Pong { id: me })
    );
    assert_eq!(
        from_bytes::<BtDhtRes>(b"d2:id20:0123456789abcdefghij5:token3:tok6:valueslee"),
        Ok(BtDhtRes::GetPeersValues { id: me, token: b"tok".to_vec(), values: vec![] })
    );
    assert_eq!(from_bytes::<BtDhtRes>(b"d5:token3:toke"), Err(WireError::NoVariant));
}

#[test]
fn envelope_errors() {
    let msg = |text: &[u8]| from_bytes::<BtDhtMessage>(text);
    assert_eq!(msg(b""), Err(WireError::Syntax));
    assert_eq!(msg(b"d1:y1:qe "), Err(WireError::Syntax));
    assert_eq!(msg(b"i1e"), Err(WireError::InvalidType));
    assert_eq!(msg(b"le"), Err(WireError::InvalidType));
    assert_eq!(msg(b"de"), Err(WireError::MissingField));
    assert_eq!(msg(b"d1:yi1ee"), Err(WireError::InvalidType));
    assert_eq!(msg(b"d1:y1:xe"), Err(WireError::UnknownVariant));
    assert_eq!(msg(b"d1:y2:qqe"), Err(WireError::UnknownVariant));
    assert_eq!(msg(b"d1:y1:qe"), Err(WireError::MissingField));
    assert_eq!(msg(b"d1:q4:ping1:y1:qe"), Err(WireError::MissingField));
    assert_eq!(msg(b"d1:ade1:q4:ping1:y1:qe"), Err(WireError::NoVariant));
    assert_eq!(
        msg(b"d1:ad2:id20:0123456789abcdefghije1:q4:pong1:y1:qe"),
        Err(WireError::UnsupportedMethod)
    );
    assert_eq!(
        msg(b"d1:ad2:id20:0123456789abcdefghije1:q4:ping1:ti1e1:y1:qe"),
        Err(WireError::InvalidType)
    );
    assert_eq!(msg(b"d1:y1:re"), Err(WireError::MissingField));
    assert_eq!(
        msg(b"d2:ip5:123451:rd2:id20:0123456789abcdefghije1:y1:re"),
        Err(WireError::InvalidSocketAddr)
    );
    assert_eq!(msg(b"d1:y1:ee"), Err(WireError::MissingField));
    assert_eq!(msg(b"d1:eli1e0:e1:y1:ee"), Err(WireError::UnknownValue("KErrorKind", 1)));
}

#[test]
fn envelope_without_a_transaction_identifier() {
    let query: BtDhtMessage = KMessage::Query {
        tid: None,
        query: BtDhtQuery::Ping,
        arg: BtDhtArg::Ping { id: id("0123456789abcdefghij") },
    };
    let bytes = to_bytes(&query);
    assert_eq!(bytes, b"d1:ad2:id20:0123456789abcdefghije1:q4:ping1:y1:qe".to_vec());
    assert_eq!(from_bytes::<BtDhtMessage>(&bytes), Ok(query));

    let error: BtDhtMessage = KMessage::Error {
        ip: Some(KAddress(SocketAddr::v4(1, 2, 3, 4, 5))),
        tid: None,
        error: KError(KErrorKind::Server, String::new()),
    };
    let bytes = to_bytes(&error);
    assert_eq!(
        bytes,
        [b"d1:eli202e0:e2:ip6:".to_vec(), vec![1, 2, 3, 4, 0, 5], b"1:y1:ee".to_vec()].concat()
    );
    assert_eq!(from_bytes::<BtDhtMessage>(&bytes), Ok(error));
}

#[test]
fn envelope_keys_in_any_order_and_unknown_keys() {
    let message =
        from_bytes::<BtDhtMessage>(b"d1:y1:q1:v4:abcd1:t2:aa1:q4:ping1:ad2:id20:0123456789abcdefghijee");
    assert_eq!(
        message,
        Ok(KMessage::Query {
            tid: Some("aa".into()),
            query: BtDhtQuery::Ping,
            arg: BtDhtArg::Ping { id: id("0123456789abcdefghij") },
        })
    );
}

#[test]
fn transaction_identifier_conversions() {
    let from_text: KTransId = "aa".into();
    let from_bytes: KTransId = (&[0x61u8, 0x61][..]).into();
    assert_eq!(from_text, from_bytes);
    assert_eq!(from_text, KTransId(vec![0x61, 0x61]));
    assert_eq!(from_text.as_bytes(), b"aa");
    assert_eq!(from_text.copy(), from_text);
    assert_eq!(from_text.serialize(), Bencode::Bytes(b"aa".to_vec()));
    assert_eq!(KTransId::deserialize(&Bencode::Bytes(vec![])), Ok(KTransId(vec![])));
    assert_eq!(KTransId::deserialize(&Bencode::Int(0)), Err(WireError::InvalidType));
}

use serde_bencode::value::Value;
use std::collections::HashMap;
use tokio_krpc::bencode::Bencode;

fn bytes(text: &[u8]) -> Bencode {
    Bencode::Bytes(text.to_vec())
}

fn entry(key: &[u8], value: Bencode) -> (Vec<u8>, Bencode) {
    (key.to_vec(), value)
}

#[test]
fn bencode_of_each_kind() {
    assert_eq!(Bencode::Int(0).to_vec(), b"i0e".to_vec());
    assert_eq!(Bencode::Int(42).to_vec(), b"i42e".to_vec());
    assert_eq!(Bencode::Int(-42).to_vec(), b"i-42e".to_vec());
    assert_eq!(Bencode::Int(i64::MAX).to_vec(), b"i9223372036854775807e".to_vec());
    assert_eq!(Bencode::Int(i64::MIN).to_vec(), b"i-9223372036854775808e".to_vec());
    assert_eq!(bytes(b"").to_vec(), b"0:".to_vec());
    assert_eq!(bytes(b"spam").to_vec(), b"4:spam".to_vec());
    assert_eq!(bytes(&[b'x'; 100]).to_vec(), [b"100:".to_vec(), vec![b'x'; 100]].concat());
    assert_eq!(Bencode::List(vec![]).to_vec(), b"le".to_vec());
    assert_eq!(
        Bencode::List(vec![bytes(b"spam"), Bencode::Int(7), Bencode::List(vec![])]).to_vec(),
        b"l4:spami7elee".to_vec()
    );
    assert_eq!(Bencode::Dict(vec![]).to_vec(), b"de".to_vec());
    assert_eq!(
        Bencode::Dict(vec![
            entry(b"cow", bytes(b"moo")),
            entry(b"spam", Bencode::List(vec![Bencode::Int(1)]))
        ])
        .to_vec(),
        b"d3:cow3:moo4:spamli1eee".to_vec()
    );
}

#[test]
fn bencode_encode_appends() {
    let mut out = b"head".to_vec();
    Bencode::Int(5).encode(&mut out);
    bytes(b"ab").encode(&mut out);
    assert_eq!(out, b"headi5e2:ab".to_vec());
}

#[test]
fn bencode_parse_inverts_encoding() {
    let values = vec![
        Bencode::Int(0),
        Bencode::Int(-1),
        Bencode::Int(i64::MAX),
        Bencode::Int(i64::MIN),
        bytes(b""),
        bytes(b"0123456789"),
        bytes(&[0, 255, b'e', b':', b'i']),
        Bencode::List(vec![]),
        Bencode::List(vec![Bencode::List(vec![Bencode::List(vec![])]), Bencode::Int(3)]),
        Bencode::Dict(vec![]),
        Bencode::Dict(vec![
            entry(b"b", Bencode::Int(1)),
            entry(b"a", Bencode::Dict(vec![entry(b"", bytes(b"x"))])),
            entry(b"b", Bencode::Int(2)),
        ]),
    ];
    for value in values {
        let text = value.to_vec();
        assert_eq!(Bencode::parse(&text), Some(value));
    }
}

#[test]
fn bencode_parse_refuses_what_is_no_encoding() {
    let refused: Vec<&[u8]> = vec![
        b"",
        b"i",
        b"ie",
        b"i-e",
        b"i1",
        b"i01e",
        b"i00e",
        b"i-0e",
        b"i-01e",
        b"i+1e",
        b"i 1e",
        b"i1 e",
        b"i1.5e",
        b"i9223372036854775808e",
        b"i-9223372036854775809e",
        b"i99999999999999999999999999e",
        b"1",
        b"1:",
        b"2:a",
        b"01:a",
        b"-1:a",
        b"18446744073709551616:a",
        b"99999999999999999999999999:a",
        b":",
        b"l",
        b"li1e",
        b"d",
        b"d1:a",
        b"d1:ae",
        b"di1e1:ae",
        b"dle1:ae",
        b"d1:ai1e",
        b"e",
        b"x",
        b"i1ei2e",
        b"i1e ",
        b"lee",
        b"dee",
        b"4:spam4:spam",
    ];
    for text in refused {
        assert_eq!(Bencode::parse(text), None, "{:?}", text);
    }
}

#[test]
fn bencode_parse_keeps_the_order_of_keys() {
    assert_eq!(
        Bencode::parse(b"d1:bi1e1:ai2ee"),
        Some(Bencode::Dict(vec![entry(b"b", Bencode::Int(1)), entry(b"a", Bencode::Int(2))]))
    );
}

#[test]
fn bencode_get_finds_the_first_entry() {
    let dict = Bencode::parse(b"d1:ai1e1:bi2e1:ai3e0:i4ee").unwrap();
    assert_eq!(dict.get(b"a"), Some(&Bencode::Int(1)));
    assert_eq!(dict.get(b"b"), Some(&Bencode::Int(2)));
    assert_eq!(dict.get(b""), Some(&Bencode::Int(4)));
    assert_eq!(dict.get(b"c"), None);
    assert_eq!(dict.get(b"ab"), None);
    assert_eq!(Bencode::Int(1).get(b"a"), None);
    assert_eq!(Bencode::List(vec![bytes(b"a")]).get(b"a"), None);
}

#[test]
fn bencode_accessors() {
    assert_eq!(Bencode::Int(3).as_int(), Some(3));
    assert_eq!(bytes(b"3").as_int(), None);
    assert_eq!(bytes(b"3").as_bytes(), Some(&b"3".to_vec()));
    assert_eq!(Bencode::Int(3).as_bytes(), None);
    assert_eq!(Bencode::List(vec![Bencode::Int(3)]).as_list(), Some(&vec![Bencode::Int(3)]));
    assert_eq!(Bencode::Dict(vec![]).as_list(), None);
    assert_eq!(Bencode::bytes(b"ab"), bytes(b"ab"));
    assert_eq!(Bencode::list(vec![Bencode::Int(1)]), Bencode::List(vec![Bencode::Int(1)]));
    assert_eq!(
        Bencode::dict(vec![entry(b"k", Bencode::Int(1))]),
        Bencode::Dict(vec![entry(b"k", Bencode::Int(1))])
    );
}

#[test]
fn bencode_copies_are_equal() {
    let tree = Bencode::parse(b"d1:ali1e2:abd0:leee1:b0:e").unwrap();
    assert_eq!(tree.clone(), tree);
    assert_eq!(tree.copy(), tree);
    assert_eq!(tree.clone().to_vec(), b"d1:ali1e2:abd0:leee1:b0:e".to_vec());
}

fn value_of(tree: &Bencode) -> Value {
    match tree {
        Bencode::Int(i) => Value::Int(*i),
        Bencode::Bytes(b) => Value::Bytes(b.clone()),
        Bencode::List(items) => Value::List(items.iter().map(value_of).collect()),
        Bencode::Dict(entries) => {
            let mut map = HashMap::new();
            for (key, value) in entries {
                map.insert(key.clone(), value_of(value));
            }
            Value::Dict(map)
        }
    }
}

#[test]
fn bencode_agrees_with_serde_bencode() {
    let sorted = vec![
        Bencode::Int(0),
        Bencode::Int(-17),
        Bencode::Int(i64::MAX),
        Bencode::Int(i64::MIN),
        bytes(b""),
        bytes(b"hello world"),
        bytes(&[0, 1, 2, 254, 255]),
        Bencode::List(vec![Bencode::Int(1), bytes(b"two"), Bencode::List(vec![Bencode::Int(3)])]),
        Bencode::Dict(vec![
            entry(b"a", Bencode::Dict(vec![entry(b"id", bytes(b"0123456789abcdefghij"))])),
            entry(b"q", bytes(b"ping")),
            entry(b"t", bytes(b"aa")),
            entry(b"y", bytes(b"q")),
        ]),
        Bencode::Dict(vec![
            entry(b"e", Bencode::List(vec![Bencode::Int(204), bytes(b"Unsupported method")])),
            entry(b"ip", bytes(&[1, 2, 3, 4, 221, 213])),
            entry(b"t", bytes(b"55")),
            entry(b"y", bytes(b"e")),
        ]),
    ];
    for tree in sorted {
        let ours = tree.to_vec();
        let theirs = serde_bencode::to_bytes(&value_of(&tree)).unwrap();
        assert_eq!(ours, theirs);
        let back: Value = serde_bencode::from_bytes(&ours).unwrap();
        assert_eq!(back, value_of(&tree));
        assert_eq!(Bencode::parse(&theirs), Some(tree));
    }
}

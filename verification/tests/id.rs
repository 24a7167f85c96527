use tokio_krpc::bencode::Bencode;
use tokio_krpc::dht::id::{md4, sha1, Md4Id, NodeId, Sha1Id};
use tokio_krpc::serde_extra::{Wire, WireError};

#[test]
pub fn sha1_test_hash_xor() {
    assert_eq!(Sha1Id::from([0x00u8; 20]), Sha1Id::from([0x00u8; 20]) ^ Sha1Id::from([0x00u8; 20]));
    assert_eq!(Sha1Id::from([0xFFu8; 20]), Sha1Id::from([0xFFu8; 20]) ^ Sha1Id::from([0x00u8; 20]));
    assert_eq!(Sha1Id::from([0xFFu8; 20]), Sha1Id::from([0x00u8; 20]) ^ Sha1Id::from([0xFFu8; 20]));
    assert_eq!(Sha1Id::from([0x00u8; 20]), Sha1Id::from([0xFFu8; 20]) ^ Sha1Id::from([0xFFu8; 20]));
    assert_eq!(Sha1Id::from([0x55u8; 20]), Sha1Id::from([0x00u8; 20]) ^ Sha1Id::from([0x55u8; 20]));
    assert_eq!(Sha1Id::from([0xAAu8; 20]), Sha1Id::from([0xFFu8; 20]) ^ Sha1Id::from([0x55u8; 20]));
    assert_eq!(Sha1Id::from([0xFFu8; 20]), Sha1Id::from([0xAAu8; 20]) ^ Sha1Id::from([0x55u8; 20]));
}

#[test]
pub fn sha1_test_hash_beq() {
    assert_eq!(0, Sha1Id::from([0xFFu8; 20]).equal_bits(&Sha1Id::from([0x00u8; 20])));
    assert_eq!(0, Sha1Id::from([0x00u8; 20]).equal_bits(&Sha1Id::from([0xFFu8; 20])));
    assert_eq!(0, Sha1Id::from([0xAAu8; 20]).equal_bits(&Sha1Id::from([0x55u8; 20])));
    assert_eq!(1, Sha1Id::from([0x00u8; 20]).equal_bits(&Sha1Id::from([0x55u8; 20])));
    assert_eq!(1, Sha1Id::from([0xFFu8; 20]).equal_bits(&Sha1Id::from([0xAAu8; 20])));
    assert_eq!(160, Sha1Id::from([0x00u8; 20]).equal_bits(&Sha1Id::from([0x00u8; 20])));
    assert_eq!(160, Sha1Id::from([0xFFu8; 20]).equal_bits(&Sha1Id::from([0xFFu8; 20])));
    assert_eq!(160, Sha1Id::from([0x55u8; 20]).equal_bits(&Sha1Id::from([0x55u8; 20])));
    assert_eq!(160, Sha1Id::from([0xAAu8; 20]).equal_bits(&Sha1Id::from([0xAAu8; 20])));
    assert_eq!(
        21,
        Sha1Id::from([0x01, 0x23, 0x45, 0x67, 0x78, 0x90, 0xab, 0xcd, 0xef, 0x00, 0x00, 0x00, 0x00, 0x00, 0x00, 0x00, 0x00, 0x00, 0x00, 0x00])
            .equal_bits(&Sha1Id::from([0x01, 0x23, 0x41, 0x67, 0x78, 0x90, 0xab, 0xef, 0xcd, 0x00, 0x00, 0x00, 0x00, 0x00, 0x00, 0x00, 0x00, 0x00, 0x00, 0x00]))
    );
    assert_eq!(
        75,
        Sha1Id::from([0x01, 0x23, 0x45, 0x67, 0x78, 0x90, 0xab, 0xcd, 0xef, 0xa5, 0x00, 0x00, 0x00, 0x00, 0x00, 0x00, 0x00, 0x00, 0x00, 0x00])
            .equal_bits(&Sha1Id::from([0x01, 0x23, 0x45, 0x67, 0x78, 0x90, 0xab, 0xcd, 0xef, 0xb5, 0x00, 0x00, 0x00, 0x00, 0x00, 0x00, 0x00, 0x00, 0x00, 0x00]))
    );
}

#[test]
pub fn md4_test_hash_xor() {
    assert_eq!(Md4Id::from([0x00u8; 16]), Md4Id::from([0x00u8; 16]) ^ Md4Id::from([0x00u8; 16]));
    assert_eq!(Md4Id::from([0xFFu8; 16]), Md4Id::from([0xFFu8; 16]) ^ Md4Id::from([0x00u8; 16]));
    assert_eq!(Md4Id::from([0xFFu8; 16]), Md4Id::from([0x00u8; 16]) ^ Md4Id::from([0xFFu8; 16]));
    assert_eq!(Md4Id::from([0x00u8; 16]), Md4Id::from([0xFFu8; 16]) ^ Md4Id::from([0xFFu8; 16]));
    assert_eq!(Md4Id::from([0x55u8; 16]), Md4Id::from([0x00u8; 16]) ^ Md4Id::from([0x55u8; 16]));
    assert_eq!(Md4Id::from([0xAAu8; 16]), Md4Id::from([0xFFu8; 16]) ^ Md4Id::from([0x55u8; 16]));
    assert_eq!(Md4Id::from([0xFFu8; 16]), Md4Id::from([0xAAu8; 16]) ^ Md4Id::from([0x55u8; 16]));
}

#[test]
pub fn md4_test_hash_beq() {
    assert_eq!(0, Md4Id::from([0xFFu8; 16]).equal_bits(&Md4Id::from([0x00u8; 16])));
    assert_eq!(0, Md4Id::from([0x00u8; 16]).equal_bits(&Md4Id::from([0xFFu8; 16])));
    assert_eq!(0, Md4Id::from([0xAAu8; 16]).equal_bits(&Md4Id::from([0x55u8; 16])));
    assert_eq!(1, Md4Id::from([0x00u8; 16]).equal_bits(&Md4Id::from([0x55u8; 16])));
    assert_eq!(1, Md4Id::from([0xFFu8; 16]).equal_bits(&Md4Id::from([0xAAu8; 16])));
    assert_eq!(128, Md4Id::from([0x00u8; 16]).equal_bits(&Md4Id::from([0x00u8; 16])));
    assert_eq!(128, Md4Id::from([0xFFu8; 16]).equal_bits(&Md4Id::from([0xFFu8; 16])));
    assert_eq!(128, Md4Id::from([0x55u8; 16]).equal_bits(&Md4Id::from([0x55u8; 16])));
    assert_eq!(128, Md4Id::from([0xAAu8; 16]).equal_bits(&Md4Id::from([0xAAu8; 16])));
    assert_eq!(
        21,
        Md4Id::from([0x01, 0x23, 0x45, 0x67, 0x78, 0x90, 0xab, 0xcd, 0xef, 0x00, 0x00, 0x00, 0x00, 0x00, 0x00, 0x00])
            .equal_bits(&Md4Id::from([0x01, 0x23, 0x41, 0x67, 0x78, 0x90, 0xab, 0xef, 0xcd, 0x00, 0x00, 0x00, 0x00, 0x00, 0x00, 0x00]))
    );
    assert_eq!(
        75,
        Md4Id::from([0x01, 0x23, 0x45, 0x67, 0x78, 0x90, 0xab, 0xcd, 0xef, 0xa5, 0x00, 0x00, 0x00, 0x00, 0x00, 0x00])
            .equal_bits(&Md4Id::from([0x01, 0x23, 0x45, 0x67, 0x78, 0x90, 0xab, 0xcd, 0xef, 0xb5, 0x00, 0x00, 0x00, 0x00, 0x00, 0x00]))
    );
}

#[test]
fn sha1_id_of_a_seed_is_its_digest() {
    let seed = *b"0123456789abcdefghij";
    let id = Sha1Id::from_seed(&seed);
    assert_eq!(
        id,
        Sha1Id::from([
            124, 142, 29, 197, 164, 253, 34, 241, 49, 26, 122, 31, 62, 52, 1, 33, 92, 12, 202, 179
        ])
    );
    assert_ne!(id, Sha1Id::from(seed));
    assert_eq!(
        Sha1Id::from_seed(&[0u8; 20]),
        Sha1Id::from([
            103, 104, 3, 62, 33, 100, 104, 36, 123, 208, 49, 160, 162, 217, 135, 109, 121, 129,
            143, 143
        ])
    );
}

#[test]
fn md4_id_of_a_seed_is_its_digest() {
    let seed = *b"0123456789abcdef";
    let id = Md4Id::from_seed(&seed);
    assert_eq!(
        id,
        Md4Id::from([95, 101, 96, 76, 61, 62, 230, 41, 246, 179, 47, 108, 33, 146, 198, 210])
    );
    assert_ne!(id, Md4Id::from(seed));
    assert_eq!(
        Md4Id::from_seed(&[0u8; 16]),
        Md4Id::from([72, 124, 63, 94, 43, 13, 106, 121, 50, 78, 205, 190, 156, 21, 22, 111])
    );
}

#[test]
fn fresh_ids_differ() {
    let a = Sha1Id::new().unwrap();
    let b = Sha1Id::new().unwrap();
    assert_ne!(a, b);
    let c = Md4Id::new().unwrap();
    let d = Md4Id::new().unwrap();
    assert_ne!(c, d);
}

#[test]
fn id_from_str_takes_the_raw_bytes() {
    let id = Sha1Id::from_str("0123456789abcdefghij");
    assert_eq!(id.as_bytes(), b"0123456789abcdefghij");
    assert_eq!(id, Sha1Id::from(*b"0123456789abcdefghij"));
    let id = Md4Id::from_str("0123456789abcdef");
    assert_eq!(id.as_bytes(), b"0123456789abcdef");
}

#[test]
fn default_id_is_zero() {
    assert_eq!(Sha1Id::default(), Sha1Id::from([0u8; 20]));
    assert_eq!(Md4Id::default(), Md4Id::from([0u8; 16]));
}

#[test]
fn id_xor_with_itself_is_zero() {
    let a = Sha1Id::from_str("0123456789abcdefghij");
    assert_eq!(a ^ a, Sha1Id::default());
    assert_eq!(a.equal_bits(&a), 160);
    let b = Md4Id::from_str("0123456789abcdef");
    assert_eq!(b ^ b, Md4Id::default());
    assert_eq!(b.equal_bits(&b), 128);
}

#[test]
fn equal_bits_is_the_position_of_the_first_difference() {
    for k in 0..160usize {
        let a = Sha1Id::from([0u8; 20]);
        let mut bytes = [0u8; 20];
        bytes[k / 8] = 0x80 >> (k % 8);
        // a later difference does not count
        bytes[19] |= 1;
        let b = Sha1Id::from(bytes);
        assert_eq!(a.equal_bits(&b), k);
        assert_eq!(b.equal_bits(&a), k);
    }
    for k in 0..128usize {
        let a = Md4Id::from([0xffu8; 16]);
        let mut bytes = [0xffu8; 16];
        bytes[k / 8] ^= 0x80 >> (k % 8);
        let b = Md4Id::from(bytes);
        assert_eq!(a.equal_bits(&b), k);
    }
}

#[test]
fn nearest_of_prefers_the_longer_shared_prefix() {
    let me = Sha1Id::from([0u8; 20]);
    let mut near = [0u8; 20];
    near[10] = 1;
    let mut far = [0u8; 20];
    far[0] = 1;
    let near = Sha1Id::from(near);
    let far = Sha1Id::from(far);
    assert!(me.nearest_of(&near, &far));
    assert!(!me.nearest_of(&far, &near));
    assert!(!me.nearest_of(&near, &near));
}

#[test]
fn id_bytes_round_trip() {
    let hash = *b"0123456789abcdefghij";
    let mut buf = vec![7u8];
    sha1::to_bytes(&mut buf, &hash);
    assert_eq!(buf.len(), 21);
    assert_eq!(sha1::from_bytes(&buf[1..]), Ok(hash));
    assert_eq!(sha1::from_bytes(&buf), Err(()));
    assert_eq!(sha1::from_bytes(&buf[2..]), Err(()));

    let hash = *b"0123456789abcdef";
    let mut buf = Vec::new();
    md4::to_bytes(&mut buf, &hash);
    assert_eq!(md4::from_bytes(&buf), Ok(hash));
    assert_eq!(md4::from_bytes(&buf[..15]), Err(()));
}

#[test]
fn id_is_written_as_a_byte_string_of_its_width() {
    let id = Sha1Id::from_str("0123456789abcdefghij");
    let tree = id.serialize();
    assert_eq!(tree, Bencode::Bytes(b"0123456789abcdefghij".to_vec()));
    assert_eq!(tree.to_vec(), b"20:0123456789abcdefghij".to_vec());
    assert_eq!(Sha1Id::deserialize(&tree), Ok(id));
    assert_eq!(
        Sha1Id::deserialize(&Bencode::Bytes(b"0123456789abcdefghi".to_vec())),
        Err(WireError::MalformedNodeInfo)
    );
    assert_eq!(
        Sha1Id::deserialize(&Bencode::Bytes(b"0123456789abcdefghijk".to_vec())),
        Err(WireError::MalformedNodeInfo)
    );
    assert_eq!(Sha1Id::deserialize(&Bencode::Int(20)), Err(WireError::InvalidType));

    let id = Md4Id::from_str("0123456789abcdef");
    assert_eq!(sha1::serialize(b"0123456789abcdefghij"), tree);
    assert_eq!(md4::deserialize(&md4::serialize(id.as_bytes())), Ok(*id.as_bytes()));
    assert_eq!(md4::deserialize(&tree), Err(WireError::MalformedNodeInfo));
    assert_eq!(Md4Id::deserialize(&id.serialize()), Ok(id));
}

use vstd::prelude::*;
use vstd::string::StringSliceAdditionalSpecFns;
use vstd::std_specs::convert::FromSpecImpl;
use vstd::std_specs::ops::BitXorSpecImpl;
use std::ops::BitXor;
use crypto_hashes::digest::Digest;
use crypto_hashes::sha1::Sha1;
use crate::bencode::{Bencode, BencodeView};
use crate::serde_extra::{Wire, WireError};
use super::id::{
    id_of_tree, lemma_first_difference, lemma_shared_bits_run, os_random, xor_bytes, NodeId,
};

verus! {

/// A 160-bit node identifier.
#[derive(Debug, Copy, Clone, PartialEq, Eq, Hash)]
pub struct Sha1Id(pub [u8; 20]);

impl View for Sha1Id {
    type V = Seq<u8>;

    open spec fn view(&self) -> Seq<u8> {
        self.0@
    }
}

/// The SHA-1 digest of a byte string.
pub uninterp spec fn sha1_digest(data: Seq<u8>) -> Seq<u8>;

/// Computes the SHA-1 digest of twenty bytes with `Sha1::digest` of the
/// `sha1` crate, which `crypto_hashes` hands on. The contract only names the
/// result: the digest is a function of the bytes.
#[verifier::external_body]
fn sha1(data: &[u8; 20]) -> (out: [u8; 20])
    ensures
        out@ == sha1_digest(data@),
{
    Sha1::digest(data).into()
}

impl Sha1Id {
    /// A fresh identifier: the digest of twenty random bytes. There is none
    /// where the operating system's generator cannot be opened.
    pub fn new() -> (id: Option<Self>)
        ensures
            id matches Some(id) ==> exists|seed: Seq<u8>|
                seed.len() == 20 && id@ == #[trigger] sha1_digest(seed),
    {
        match os_random::<20>() {
            Some(seed) => {
                let id = Self::from_seed(&seed);
                assert(seed@.len() == 20 && id@ == sha1_digest(seed@));
                Some(id)
            },
            None => None,
        }
    }

    /// The identifier that is the digest of a seed.
    pub fn from_seed(seed: &[u8; 20]) -> (id: Self)
        ensures
            id@ == sha1_digest(seed@),
    {
        Sha1Id(sha1(seed))
    }

    /// The identifier that holds the raw bytes of a 20-byte string.
    pub fn from_str(v: &str) -> (id: Self)
        requires
            v.spec_bytes().len() == 20,
        ensures
            id@ == v.spec_bytes(),
    {
        let bytes = v.as_bytes();
        let mut node_id = [0u8;20];
        let mut i: usize = 0;
        while i < 20
            invariant
                i <= 20,
                bytes@.len() == 20,
                forall|j: int| 0 <= j < i ==> node_id@[j] == bytes@[j],
            decreases 20 - i,
        {
            node_id[i] = bytes[i];
            i += 1;
        }
        assert(node_id@ =~= bytes@);
        Sha1Id(node_id)
    }

    /// The identifier's bytes.
    pub fn as_bytes(&self) -> (bytes: &[u8; 20])
        ensures
            bytes@ == self@,
    {
        &self.0
    }
}

impl AsRef<[u8; 20]> for Sha1Id {
    fn as_ref(&self) -> (bytes: &[u8; 20])
        ensures
            bytes@ == self@,
    {
        &self.0
    }
}

impl From<[u8; 20]> for Sha1Id {
    fn from(node_id: [u8; 20]) -> (id: Self) {
        Sha1Id(node_id)
    }
}

impl FromSpecImpl<[u8; 20]> for Sha1Id {
    open spec fn obeys_from_spec() -> bool {
        true
    }

    open spec fn from_spec(node_id: [u8; 20]) -> Self {
        Sha1Id(node_id)
    }
}

impl Default for Sha1Id {
    fn default() -> (id: Self)
        ensures
            id@ == Seq::new(20, |i: int| 0u8),
    {
        let id = Sha1Id([0u8;20]);
        assert(id@ =~= Seq::new(20, |i: int| 0u8));
        id
    }
}

impl BitXor<Sha1Id> for Sha1Id {
    type Output = Sha1Id;

    fn bitxor(self, other: Self) -> (out: Self)
        ensures
            out@ == xor_bytes(self@, other@),
    {
        let mut out = [0u8;20];
        let mut i: usize = 0;
        while i < 20
            invariant
                i <= 20,
                forall|j: int| 0 <= j < i ==> out@[j] == self.0@[j] ^ other.0@[j],
            decreases 20 - i,
        {
            out[i] = self.0[i] ^ other.0[i];
            i += 1;
        }
        assert(out@ =~= xor_bytes(self@, other@));
        assert(xor_array(self.0, other.0)@ == xor_bytes(self@, other@));
        assert(out =~= xor_array(self.0, other.0));
        Sha1Id(out)
    }
}

impl BitXorSpecImpl<Sha1Id> for Sha1Id {
    open spec fn obeys_bitxor_spec() -> bool {
        true
    }

    open spec fn bitxor_req(self, other: Sha1Id) -> bool {
        true
    }

    open spec fn bitxor_spec(self, other: Sha1Id) -> Sha1Id {
        Sha1Id(xor_array(self.0, other.0))
    }
}

/// The array whose view is the elementwise exclusive or of two arrays.
pub open spec fn xor_array(a: [u8; 20], b: [u8; 20]) -> [u8; 20] {
    choose|c: [u8; 20]| c@ == xor_bytes(a@, b@)
}

impl NodeId for Sha1Id {
    open spec fn id_bytes(&self) -> Seq<u8> {
        self@
    }

    fn equal_bits(&self, other: &Self) -> (n: usize) {
        let mut i: usize = 0;
        while i < 20
            invariant
                i <= 20,
                forall|j: int| 0 <= j < i ==> self.0@[j] == other.0@[j],
            decreases 20 - i,
        {
            if self.0[i] != other.0[i] {
                let x: u8 = self.0[i];
                let y: u8 = other.0[i];
                let zeros: u32 = (x ^ y).leading_zeros();
                proof {
                    lemma_first_difference(self@, other@, i as int, zeros as int);
                }
                return i * 8 + zeros as usize;
            }
            i += 1;
        }
        proof {
            lemma_shared_bits_run(self@, other@, 0, 160);
        }
        160
    }
}

impl Wire for Sha1Id {
    open spec fn writable(value: Seq<u8>) -> bool {
        value.len() == 20
    }

    open spec fn wire(value: Seq<u8>) -> BencodeView {
        BencodeView::Bytes(value)
    }

    open spec fn unwire(tree: BencodeView) -> Result<Seq<u8>, WireError> {
        id_of_tree(tree, 20)
    }

    proof fn lemma_round_trip(value: Seq<u8>) {
    }

    proof fn lemma_sorted(value: Seq<u8>) {
    }

    fn serialize(&self) -> (tree: Bencode) {
        self::serialize(&self.0)
    }

    fn deserialize(tree: &Bencode) -> (r: Result<Self, WireError>) {
        match self::deserialize(tree) {
            Ok(hash) => Ok(Sha1Id(hash)),
            Err(e) => Err(e),
        }
    }
}

/// Appends the bytes of an identifier.
pub fn to_bytes(buf: &mut Vec<u8>, hash: &[u8; 20])
    ensures
        final(buf)@ == old(buf)@ + hash@,
{
    buf.extend_from_slice(hash.as_slice());
}

/// Reads an identifier from exactly twenty bytes.
pub fn from_bytes(buf: &[u8]) -> (r: Result<[u8; 20], ()>)
    ensures
        match r {
            Ok(hash) => hash@ == buf@,
            Err(_) => buf@.len() != 20,
        },
{
    let len = buf.len();
    if len == 20 {
        let mut hash = [0u8;20];
        let mut i: usize = 0;
        while i < 20
            invariant
                i <= 20,
                buf@.len() == 20,
                forall|j: int| 0 <= j < i ==> hash@[j] == buf@[j],
            decreases 20 - i,
        {
            hash[i] = buf[i];
            i += 1;
        }
        assert(hash@ =~= buf@);
        Ok(hash)
    } else {
        Err(())
    }
}

/// Writes an identifier as a byte string.
pub fn serialize(hash: &[u8; 20]) -> (tree: Bencode)
    ensures
        tree@ == BencodeView::Bytes(hash@),
{
    Bencode::bytes(hash.as_slice())
}

/// Reads an identifier from a byte string of exactly twenty bytes.
pub fn deserialize(tree: &Bencode) -> (r: Result<[u8; 20], WireError>)
    ensures
        match r {
            Ok(hash) => id_of_tree(tree@, 20) == Ok::<Seq<u8>, WireError>(hash@),
            Err(e) => id_of_tree(tree@, 20) == Err::<Seq<u8>, WireError>(e),
        },
{
    match tree.as_bytes() {
        Some(buf) => match from_bytes(buf.as_slice()) {
            Ok(hash) => Ok(hash),
            Err(_) => Err(WireError::MalformedNodeInfo),
        },
        None => Err(WireError::InvalidType),
    }
}

} // verus!

use vstd::prelude::*;
use vstd::string::StringSliceAdditionalSpecFns;
use vstd::std_specs::convert::FromSpecImpl;
use vstd::std_specs::ops::BitXorSpecImpl;
use std::ops::BitXor;
use crypto_hashes::digest::Digest;
use crypto_hashes::md4::Md4;
use crate::bencode::{Bencode, BencodeView};
use crate::serde_extra::{Wire, WireError};
use super::id::{
    id_of_tree, lemma_first_difference, lemma_shared_bits_run, os_random, xor_bytes, NodeId,
};

verus! {

/// A 128-bit node identifier.
#[derive(Debug, Copy, Clone, PartialEq, Eq, Hash)]
pub struct Md4Id(pub [u8; 16]);

impl View for Md4Id {
    type V = Seq<u8>;

    open spec fn view(&self) -> Seq<u8> {
        self.0@
    }
}

/// The MD4 digest of a byte string.
pub uninterp spec fn md4_digest(data: Seq<u8>) -> Seq<u8>;

/// Computes the MD4 digest of sixteen bytes with `Md4::digest` of the
/// `md4` crate, which `crypto_hashes` hands on. The contract only names the
/// result: the digest is a function of the bytes.
#[verifier::external_body]
fn md4(data: &[u8; 16]) -> (out: [u8; 16])
    ensures
        out@ == md4_digest(data@),
{
    Md4::digest(data).into()
}

impl Md4Id {
    /// A fresh identifier: the digest of sixteen random bytes. There is none
    /// where the operating system's generator cannot be opened.
    pub fn new() -> (id: Option<Self>)
        ensures
            id matches Some(id) ==> exists|seed: Seq<u8>|
                seed.len() == 16 && id@ == #[trigger] md4_digest(seed),
    {
        match os_random::<16>() {
            Some(seed) => {
                let id = Self::from_seed(&seed);
                assert(seed@.len() == 16 && id@ == md4_digest(seed@));
                Some(id)
            },
            None => None,
        }
    }

    /// The identifier that is the digest of a seed.
    pub fn from_seed(seed: &[u8; 16]) -> (id: Self)
        ensures
            id@ == md4_digest(seed@),
    {
        Md4Id(md4(seed))
    }

    /// The identifier that holds the raw bytes of a 16-byte string.
    pub fn from_str(v: &str) -> (id: Self)
        requires
            v.spec_bytes().len() == 16,
        ensures
            id@ == v.spec_bytes(),
    {
        let bytes = v.as_bytes();
        let mut node_id = [0u8;16];
        let mut i: usize = 0;
        while i < 16
            invariant
                i <= 16,
                bytes@.len() == 16,
                forall|j: int| 0 <= j < i ==> node_id@[j] == bytes@[j],
            decreases 16 - i,
        {
            node_id[i] = bytes[i];
            i += 1;
        }
        assert(node_id@ =~= bytes@);
        Md4Id(node_id)
    }

    /// The identifier's bytes.
    pub fn as_bytes(&self) -> (bytes: &[u8; 16])
        ensures
            bytes@ == self@,
    {
        &self.0
    }
}

impl AsRef<[u8; 16]> for Md4Id {
    fn as_ref(&self) -> (bytes: &[u8; 16])
        ensures
            bytes@ == self@,
    {
        &self.0
    }
}

impl From<[u8; 16]> for Md4Id {
    fn from(node_id: [u8; 16]) -> (id: Self) {
        Md4Id(node_id)
    }
}

impl FromSpecImpl<[u8; 16]> for Md4Id {
    open spec fn obeys_from_spec() -> bool {
        true
    }

    open spec fn from_spec(node_id: [u8; 16]) -> Self {
        Md4Id(node_id)
    }
}

impl Default for Md4Id {
    fn default() -> (id: Self)
        ensures
            id@ == Seq::new(16, |i: int| 0u8),
    {
        let id = Md4Id([0u8;16]);
        assert(id@ =~= Seq::new(16, |i: int| 0u8));
        id
    }
}

impl BitXor<Md4Id> for Md4Id {
    type Output = Md4Id;

    fn bitxor(self, other: Self) -> (out: Self)
        ensures
            out@ == xor_bytes(self@, other@),
    {
        let mut out = [0u8;16];
        let mut i: usize = 0;
        while i < 16
            invariant
                i <= 16,
                forall|j: int| 0 <= j < i ==> out@[j] == self.0@[j] ^ other.0@[j],
            decreases 16 - i,
        {
            out[i] = self.0[i] ^ other.0[i];
            i += 1;
        }
        assert(out@ =~= xor_bytes(self@, other@));
        assert(xor_array(self.0, other.0)@ == xor_bytes(self@, other@));
        assert(out =~= xor_array(self.0, other.0));
        Md4Id(out)
    }
}

impl BitXorSpecImpl<Md4Id> for Md4Id {
    open spec fn obeys_bitxor_spec() -> bool {
        true
    }

    open spec fn bitxor_req(self, other: Md4Id) -> bool {
        true
    }

    open spec fn bitxor_spec(self, other: Md4Id) -> Md4Id {
        Md4Id(xor_array(self.0, other.0))
    }
}

/// The array whose view is the elementwise exclusive or of two arrays.
pub open spec fn xor_array(a: [u8; 16], b: [u8; 16]) -> [u8; 16] {
    choose|c: [u8; 16]| c@ == xor_bytes(a@, b@)
}

impl NodeId for Md4Id {
    open spec fn id_bytes(&self) -> Seq<u8> {
        self@
    }

    fn equal_bits(&self, other: &Self) -> (n: usize) {
        let mut i: usize = 0;
        while i < 16
            invariant
                i <= 16,
                forall|j: int| 0 <= j < i ==> self.0@[j] == other.0@[j],
            decreases 16 - i,
        {
            if self.0[i] != other.0[i] {
                let x: u8 = self.0[i];
                let y: u8 = other.0[i];
                let zeros: u32 = (x ^ y).leading_zeros();
                proof {
                    lemma_first_difference(self@, other@, i as int, zeros as int);
                }
                return i * 8 + zeros as usize;
            }
            i += 1;
        }
        proof {
            lemma_shared_bits_run(self@, other@, 0, 128);
        }
        128
    }
}

impl Wire for Md4Id {
    open spec fn writable(value: Seq<u8>) -> bool {
        value.len() == 16
    }

    open spec fn wire(value: Seq<u8>) -> BencodeView {
        BencodeView::Bytes(value)
    }

    open spec fn unwire(tree: BencodeView) -> Result<Seq<u8>, WireError> {
        id_of_tree(tree, 16)
    }

    proof fn lemma_round_trip(value: Seq<u8>) {
    }

    proof fn lemma_sorted(value: Seq<u8>) {
    }

    fn serialize(&self) -> (tree: Bencode) {
        self::serialize(&self.0)
    }

    fn deserialize(tree: &Bencode) -> (r: Result<Self, WireError>) {
        match self::deserialize(tree) {
            Ok(hash) => Ok(Md4Id(hash)),
            Err(e) => Err(e),
        }
    }
}

/// Appends the bytes of an identifier.
pub fn to_bytes(buf: &mut Vec<u8>, hash: &[u8; 16])
    ensures
        final(buf)@ == old(buf)@ + hash@,
{
    buf.extend_from_slice(hash.as_slice());
}

/// Reads an identifier from exactly sixteen bytes.
pub fn from_bytes(buf: &[u8]) -> (r: Result<[u8; 16], ()>)
    ensures
        match r {
            Ok(hash) => hash@ == buf@,
            Err(_) => buf@.len() != 16,
        },
{
    let len = buf.len();
    if len == 16 {
        let mut hash = [0u8;16];
        let mut i: usize = 0;
        while i < 16
            invariant
                i <= 16,
                buf@.len() == 16,
                forall|j: int| 0 <= j < i ==> hash@[j] == buf@[j],
            decreases 16 - i,
        {
            hash[i] = buf[i];
            i += 1;
        }
        assert(hash@ =~= buf@);
        Ok(hash)
    } else {
        Err(())
    }
}

/// Writes an identifier as a byte string.
pub fn serialize(hash: &[u8; 16]) -> (tree: Bencode)
    ensures
        tree@ == BencodeView::Bytes(hash@),
{
    Bencode::bytes(hash.as_slice())
}

/// Reads an identifier from a byte string of exactly sixteen bytes.
pub fn deserialize(tree: &Bencode) -> (r: Result<[u8; 16], WireError>)
    ensures
        match r {
            Ok(hash) => id_of_tree(tree@, 16) == Ok::<Seq<u8>, WireError>(hash@),
            Err(e) => id_of_tree(tree@, 16) == Err::<Seq<u8>, WireError>(e),
        },
{
    match tree.as_bytes() {
        Some(buf) => match from_bytes(buf.as_slice()) {
            Ok(hash) => Ok(hash),
            Err(_) => Err(WireError::MalformedNodeInfo),
        },
        None => Err(WireError::InvalidType),
    }
}

} // verus!

use vstd::prelude::*;
use rand::{OsRng, Rng};
use crate::bencode::BencodeView;
use crate::serde_extra::WireError;

verus! {

/// Bit `k` of an identifier, counted from the most significant bit of its
/// first byte.
pub open spec fn bit_at(id: Seq<u8>, k: int) -> bool {
    (id[k / 8] >> ((7 - k % 8) as u8)) & 1u8 == 1u8
}

/// The number of consecutive positions, starting at `from`, at which the bits
/// of `a` and `b` agree.
pub open spec fn shared_bits_from(a: Seq<u8>, b: Seq<u8>, from: int) -> int
    decreases 8 * a.len() - from,
{
    if 0 <= from < 8 * a.len() && bit_at(a, from) == bit_at(b, from) {
        1 + shared_bits_from(a, b, from + 1)
    } else {
        0
    }
}

/// The length of the common most-significant-bit prefix of two identifiers of
/// one width.
pub open spec fn shared_bits(a: Seq<u8>, b: Seq<u8>) -> int {
    shared_bits_from(a, b, 0)
}

/// The elementwise exclusive or of two identifiers of one width.
pub open spec fn xor_bytes(a: Seq<u8>, b: Seq<u8>) -> Seq<u8> {
    Seq::new(a.len(), |i: int| a[i] ^ b[i])
}

/// If the bits of `a` and `b` agree on `[from, to)` and `to` is either the
/// end of the identifier or a position where they differ, then exactly
/// `to - from` bits are shared from `from` on.
pub proof fn lemma_shared_bits_run(a: Seq<u8>, b: Seq<u8>, from: int, to: int)
    requires
        a.len() == b.len(),
        0 <= from <= to <= 8 * a.len(),
        forall|k: int| from <= k < to ==> bit_at(a, k) == bit_at(b, k),
        to < 8 * a.len() ==> bit_at(a, to) != bit_at(b, to),
    ensures
        shared_bits_from(a, b, from) == to - from,
    decreases to - from,
{
    if from < to {
        lemma_shared_bits_run(a, b, from + 1, to);
    }
}

/// An identifier compared with itself shares every bit: the result is eight
/// times the width.
pub proof fn lemma_shared_bits_self(a: Seq<u8>)
    ensures
        shared_bits(a, a) == 8 * a.len(),
{
    lemma_shared_bits_run(a, a, 0, 8 * a.len() as int);
}

/// Two identifiers that agree on every bit before position `k` and differ at
/// position `k` share exactly `k` bits.
pub proof fn lemma_shared_bits_first_difference(a: Seq<u8>, b: Seq<u8>, k: int)
    requires
        a.len() == b.len(),
        0 <= k < 8 * a.len(),
        forall|j: int| 0 <= j < k ==> bit_at(a, j) == bit_at(b, j),
        bit_at(a, k) != bit_at(b, k),
    ensures
        shared_bits(a, b) == k,
{
    lemma_shared_bits_run(a, b, 0, k);
}

/// The shared prefix is never longer than the identifier.
pub proof fn lemma_shared_bits_bounds(a: Seq<u8>, b: Seq<u8>, from: int)
    requires
        0 <= from <= 8 * a.len(),
    ensures
        0 <= shared_bits_from(a, b, from) <= 8 * a.len() - from,
    decreases 8 * a.len() - from,
{
    if from < 8 * a.len() && bit_at(a, from) == bit_at(b, from) {
        lemma_shared_bits_bounds(a, b, from + 1);
    }
}

/// An identifier xored with itself is all zero.
pub proof fn lemma_xor_self_is_zero(a: Seq<u8>)
    ensures
        xor_bytes(a, a) =~= Seq::new(a.len(), |i: int| 0u8),
{
    assert forall|i: int| 0 <= i < a.len() implies #[trigger] xor_bytes(a, a)[i] == 0u8 by {
        let x = a[i];
        assert(x ^ x == 0u8) by (bit_vector);
    }
}

/// A byte pair's first difference, read from the most significant bit: when
/// the xor of the two bytes has its highest set bit at shift `top`, the two
/// bytes agree at every shift above `top` and differ at `top`.
pub proof fn lemma_byte_first_difference(x: u8, y: u8, top: u8)
    requires
        top < 8,
        ((x ^ y) >> top) & 1u8 != 0u8,
        forall|j: u8| top < j < 8 ==> #[trigger] ((x ^ y) >> j) & 1u8 == 0u8,
    ensures
        forall|j: u8|
            top < j < 8 ==> (#[trigger] (x >> j) & 1u8 == 1u8) == ((y >> j) & 1u8 == 1u8),
        ((x >> top) & 1u8 == 1u8) != ((y >> top) & 1u8 == 1u8),
{
    assert(((x ^ y) >> top) & 1u8 != 0u8 ==> (((x >> top) & 1u8 == 1u8) != ((y >> top) & 1u8
        == 1u8))) by (bit_vector);
    assert forall|j: u8| top < j < 8 implies (#[trigger] (x >> j) & 1u8 == 1u8) == ((y >> j)
        & 1u8 == 1u8) by {
        assert(((x ^ y) >> j) & 1u8 == 0u8);
        assert(((x ^ y) >> j) & 1u8 == 0u8 ==> (((x >> j) & 1u8 == 1u8) == ((y >> j) & 1u8
            == 1u8))) by (bit_vector);
    }
}

/// When the first differing byte is at index `i`, and the xor of the two
/// bytes there has `zeros` leading zeros, the identifiers share exactly
/// `8 * i + zeros` bits.
pub proof fn lemma_first_difference(a: Seq<u8>, b: Seq<u8>, i: int, zeros: int)
    requires
        a.len() == b.len(),
        0 <= i < a.len(),
        forall|j: int| 0 <= j < i ==> a[j] == b[j],
        a[i] != b[i],
        zeros == vstd::std_specs::bits::u8_leading_zeros(a[i] ^ b[i]),
    ensures
        0 <= zeros < 8,
        shared_bits(a, b) == 8 * i + zeros,
{
    let x = a[i];
    let y = b[i];
    vstd::std_specs::bits::axiom_u8_leading_zeros(x ^ y);
    assert(x ^ y == 0u8 ==> x == y) by (bit_vector);
    let top = (7 - zeros) as u8;
    lemma_byte_first_difference(x, y, top);
    assert forall|k: int| 0 <= k < 8 * i + zeros implies bit_at(a, k) == bit_at(b, k) by {
        if k / 8 == i {
            let j = (7 - k % 8) as u8;
            assert(top < j < 8);
            assert(((x >> j) & 1u8 == 1u8) == ((y >> j) & 1u8 == 1u8));
        }
    }
    assert(bit_at(a, 8 * i + zeros) != bit_at(b, 8 * i + zeros)) by {
        let k = 8 * i + zeros;
        assert(k / 8 == i);
        assert((7 - k % 8) as u8 == top);
    }
    lemma_shared_bits_run(a, b, 0, 8 * i + zeros);
}

/// Asks the operating system's random number generator, `rand::OsRng`, for
/// `N` bytes: it opens the generator with `OsRng::new` and fills an array
/// with `fill_bytes`. Nothing is said of the bytes. The result is `None`
/// where the generator cannot be opened; where the system then fails to hand
/// out bytes, the generator panics.
#[verifier::external_body]
pub(crate) fn os_random<const N: usize>() -> (bytes: Option<[u8; N]>) {
    match OsRng::new() {
        Ok(mut generator) => {
            let mut bytes = [0u8;N];
            generator.fill_bytes(&mut bytes);
            Some(bytes)
        },
        Err(_) => None,
    }
}

/// What a bencode value is read as where an identifier of `width` bytes is
/// asked for: a byte string of exactly that length.
pub open spec fn id_of_tree(tree: BencodeView, width: nat) -> Result<Seq<u8>, WireError> {
    match tree {
        BencodeView::Bytes(b) => if b.len() == width {
            Ok(b)
        } else {
            Err(WireError::MalformedNodeInfo)
        },
        _ => Err(WireError::InvalidType),
    }
}

/// An identifier that was written as a byte string is read back.
pub proof fn lemma_id_round_trip(id: Seq<u8>, width: nat)
    requires
        id.len() == width,
    ensures
        id_of_tree(BencodeView::Bytes(id), width) == Ok::<Seq<u8>, WireError>(id),
{
}

/// A fixed-width node identifier, ordered by how long a prefix of bits it
/// shares with another.
pub trait NodeId: Sized {
    /// The identifier's bytes, most significant first.
    spec fn id_bytes(&self) -> Seq<u8>;

    /// Number of leading bits that are identical between two identifiers.
    fn equal_bits(&self, other: &Self) -> (n: usize)
        ensures
            n == shared_bits(self.id_bytes(), other.id_bytes()),
    ;

    /// Whether `a` shares a strictly longer prefix with `self` than `b` does.
    fn nearest_of(&self, a: &Self, b: &Self) -> (nearer: bool)
        ensures
            nearer == (shared_bits(self.id_bytes(), a.id_bytes()) > shared_bits(
                self.id_bytes(),
                b.id_bytes(),
            )),
    {
        self.equal_bits(a) > self.equal_bits(b)
    }
}

} // verus!

use vstd::prelude::*;
use super::number::{digits, write_digits};
use super::value::{Bencode, BencodeView};

verus! {

/// `i`, which opens an integer.
pub const INT_START: u8 = 105;

/// `l`, which opens a list.
pub const LIST_START: u8 = 108;

/// `d`, which opens a dictionary.
pub const DICT_START: u8 = 100;

/// `e`, which closes an integer, a list or a dictionary.
pub const END: u8 = 101;

/// `:`, which parts a byte string's length from its bytes.
pub const COLON: u8 = 58;

/// `-`, the sign of a negative integer.
pub const MINUS: u8 = 45;

/// The decimal text of an integer: a minus sign before the digits of a
/// negative one.
pub open spec fn int_text(i: int) -> Seq<u8> {
    if i < 0 {
        seq![MINUS] + digits((-i) as nat)
    } else {
        digits(i as nat)
    }
}

/// The encoding of a byte string: its length in decimal, a colon, the bytes.
pub open spec fn bytes_encoding(b: Seq<u8>) -> Seq<u8> {
    digits(b.len()) + seq![COLON] + b
}

/// The bytes that encode a value.
pub open spec fn encoding(t: BencodeView) -> Seq<u8>
    decreases t,
{
    match t {
        BencodeView::Int(i) => seq![INT_START] + int_text(i as int) + seq![END],
        BencodeView::Bytes(b) => bytes_encoding(b),
        BencodeView::List(items) => seq![LIST_START] + list_encoding(items) + seq![END],
        BencodeView::Dict(entries) => seq![DICT_START] + dict_encoding(entries) + seq![END],
    }
}

/// The encodings of a list's items, one after the other.
pub open spec fn list_encoding(items: Seq<BencodeView>) -> Seq<u8>
    decreases items,
{
    if items.len() == 0 {
        Seq::empty()
    } else {
        encoding(items[0]) + list_encoding(items.subrange(1, items.len() as int))
    }
}

/// The encodings of a dictionary's entries, one after the other: each key as
/// a byte string, then its value.
pub open spec fn dict_encoding(entries: Seq<(Seq<u8>, BencodeView)>) -> Seq<u8>
    decreases entries,
{
    if entries.len() == 0 {
        Seq::empty()
    } else {
        bytes_encoding(entries[0].0) + encoding(entries[0].1) + dict_encoding(
            entries.subrange(1, entries.len() as int),
        )
    }
}

/// Appends the decimal text of an integer.
pub fn write_int(i: i64, out: &mut Vec<u8>)
    ensures
        final(out)@ == old(out)@ + int_text(i as int),
{
    if i < 0 {
        out.push(MINUS);
        let magnitude: u64 = (-(i + 1)) as u64 + 1;
        write_digits(magnitude, out);
        assert(out@ =~= old(out)@ + int_text(i as int));
    } else {
        write_digits(i as u64, out);
    }
}

/// Appends the encoding of a byte string.
pub fn write_bytes(b: &[u8], out: &mut Vec<u8>)
    ensures
        final(out)@ == old(out)@ + bytes_encoding(b@),
{
    write_digits(b.len() as u64, out);
    out.push(COLON);
    out.extend_from_slice(b);
    assert(out@ =~= old(out)@ + bytes_encoding(b@));
}

impl Bencode {
    /// Appends the encoding of the value.
    pub fn encode(&self, out: &mut Vec<u8>)
        ensures
            final(out)@ == old(out)@ + encoding(self@),
        decreases self,
    {
        match self {
            Bencode::Int(i) => {
                out.push(INT_START);
                write_int(*i, out);
                out.push(END);
                assert(out@ =~= old(out)@ + encoding(self@));
            },
            Bencode::Bytes(b) => {
                write_bytes(b.as_slice(), out);
            },
            Bencode::List(items) => {
                out.push(LIST_START);
                let ghost all = self@->List_0;
                assert(all.subrange(0, all.len() as int) =~= all);
                assert(out@ =~= old(out)@ + seq![LIST_START]);
                let mut k: usize = 0;
                while k < items.len()
                    invariant
                        k <= items.len(),
                        all == self@->List_0,
                        all.len() == items@.len(),
                        self == Bencode::List(*items),
                        out@ + list_encoding(all.subrange(k as int, all.len() as int)) == old(
                            out,
                        )@ + seq![LIST_START] + list_encoding(all),
                    decreases items.len() - k,
                {
                    let ghost rest = all.subrange(k as int, all.len() as int);
                    assert(rest[0] == items@[k as int]@);
                    assert(rest.subrange(1, rest.len() as int) =~= all.subrange(
                        k + 1,
                        all.len() as int,
                    ));
                    let ghost before = out@;
                    items[k].encode(out);
                    assert(out@ + list_encoding(all.subrange(k + 1, all.len() as int)) =~= before
                        + list_encoding(rest));
                    k += 1;
                }
                assert(all.subrange(k as int, all.len() as int) =~= Seq::empty());
                out.push(END);
                assert(out@ =~= old(out)@ + encoding(self@));
            },
            Bencode::Dict(entries) => {
                out.push(DICT_START);
                let ghost all = self@->Dict_0;
                assert(all.subrange(0, all.len() as int) =~= all);
                assert(out@ =~= old(out)@ + seq![DICT_START]);
                let mut k: usize = 0;
                while k < entries.len()
                    invariant
                        k <= entries.len(),
                        all == self@->Dict_0,
                        all.len() == entries@.len(),
                        self == Bencode::Dict(*entries),
                        out@ + dict_encoding(all.subrange(k as int, all.len() as int)) == old(
                            out,
                        )@ + seq![DICT_START] + dict_encoding(all),
                    decreases entries.len() - k,
                {
                    let ghost rest = all.subrange(k as int, all.len() as int);
                    assert(rest[0] == (entries@[k as int].0@, entries@[k as int].1@));
                    assert(rest.subrange(1, rest.len() as int) =~= all.subrange(
                        k + 1,
                        all.len() as int,
                    ));
                    let ghost before = out@;
                    write_bytes(entries[k].0.as_slice(), out);
                    entries[k].1.encode(out);
                    assert(out@ + dict_encoding(all.subrange(k + 1, all.len() as int)) =~= before
                        + dict_encoding(rest));
                    k += 1;
                }
                assert(all.subrange(k as int, all.len() as int) =~= Seq::empty());
                out.push(END);
                assert(out@ =~= old(out)@ + encoding(self@));
            },
        }
    }

    /// The encoding of the value.
    pub fn to_vec(&self) -> (out: Vec<u8>)
        ensures
            out@ == encoding(self@),
    {
        let mut out: Vec<u8> = Vec::new();
        self.encode(&mut out);
        assert(out@ =~= encoding(self@));
        out
    }
}

} // verus!

use vstd::prelude::*;
use super::value::{lemma_dict_view, lemma_list_view, Bencode, BencodeView};

verus! {

/// The value of the first entry with the given key.
pub open spec fn dict_get(entries: Seq<(Seq<u8>, BencodeView)>, key: Seq<u8>) -> Option<
    BencodeView,
>
    decreases entries.len(),
{
    if entries.len() == 0 {
        None
    } else if entries[0].0 == key {
        Some(entries[0].1)
    } else {
        dict_get(entries.subrange(1, entries.len() as int), key)
    }
}

/// Whether `a` comes before `b` in the order of byte strings, compared from
/// position `k` on.
pub open spec fn lex_lt_from(a: Seq<u8>, b: Seq<u8>, k: int) -> bool
    decreases a.len() - k,
{
    if k < 0 || k >= b.len() {
        false
    } else if k >= a.len() {
        true
    } else if a[k] != b[k] {
        a[k] < b[k]
    } else {
        lex_lt_from(a, b, k + 1)
    }
}

/// Whether `a` comes strictly before `b` in the lexicographic order of byte
/// strings.
pub open spec fn lex_lt(a: Seq<u8>, b: Seq<u8>) -> bool {
    lex_lt_from(a, b, 0)
}

/// Whether the keys of a dictionary's entries stand in strictly ascending
/// order.
pub open spec fn keys_ascending(entries: Seq<(Seq<u8>, BencodeView)>) -> bool {
    forall|i: int, j: int|
        0 <= i < j < entries.len() ==> lex_lt(#[trigger] entries[i].0, #[trigger] entries[j].0)
}

impl BencodeView {
    /// The value under `key`, where this is a dictionary that has the key.
    pub open spec fn get(self, key: Seq<u8>) -> Option<BencodeView> {
        match self {
            BencodeView::Dict(entries) => dict_get(entries, key),
            _ => None,
        }
    }

    /// Whether every dictionary in the tree has its keys in strictly
    /// ascending order.
    pub open spec fn sorted(self) -> bool
        decreases self,
    {
        match self {
            BencodeView::Int(_) => true,
            BencodeView::Bytes(_) => true,
            BencodeView::List(items) => forall|i: int|
                0 <= i < items.len() ==> (#[trigger] items[i]).sorted(),
            BencodeView::Dict(entries) => keys_ascending(entries) && forall|i: int|
                0 <= i < entries.len() ==> (#[trigger] entries[i]).1.sorted(),
        }
    }
}

/// The entry at `i` is the one found when no earlier entry has the key.
pub proof fn lemma_dict_get_found(entries: Seq<(Seq<u8>, BencodeView)>, i: int, key: Seq<u8>)
    requires
        0 <= i < entries.len(),
        entries[i].0 == key,
        forall|j: int| 0 <= j < i ==> (#[trigger] entries[j]).0 != key,
    ensures
        dict_get(entries, key) == Some(entries[i].1),
    decreases i,
{
    if i > 0 {
        let rest = entries.subrange(1, entries.len() as int);
        assert(entries[0].0 != key);
        assert forall|j: int| 0 <= j < i - 1 implies (#[trigger] rest[j]).0 != key by {
            assert(rest[j] == entries[j + 1]);
        }
        lemma_dict_get_found(rest, i - 1, key);
    }
}

/// Nothing is found when no entry has the key.
pub proof fn lemma_dict_get_missing(entries: Seq<(Seq<u8>, BencodeView)>, key: Seq<u8>)
    requires
        forall|j: int| 0 <= j < entries.len() ==> (#[trigger] entries[j]).0 != key,
    ensures
        dict_get(entries, key) is None,
    decreases entries.len(),
{
    if entries.len() > 0 {
        let rest = entries.subrange(1, entries.len() as int);
        assert(entries[0].0 != key);
        assert forall|j: int| 0 <= j < rest.len() implies (#[trigger] rest[j]).0 != key by {
            assert(rest[j] == entries[j + 1]);
        }
        lemma_dict_get_missing(rest, key);
    }
}

/// Whether two byte strings are equal.
pub fn bytes_eq(a: &[u8], b: &[u8]) -> (same: bool)
    ensures
        same == (a@ == b@),
{
    if a.len() != b.len() {
        return false;
    }
    let mut i: usize = 0;
    while i < a.len()
        invariant
            i <= a.len(),
            a.len() == b.len(),
            forall|j: int| 0 <= j < i ==> a@[j] == b@[j],
        decreases a.len() - i,
    {
        if a[i] != b[i] {
            return false;
        }
        i += 1;
    }
    assert(a@ =~= b@);
    true
}

/// A copy of a byte string.
pub fn bytes_to_vec(b: &[u8]) -> (v: Vec<u8>)
    ensures
        v@ == b@,
{
    let mut v: Vec<u8> = Vec::new();
    v.extend_from_slice(b);
    assert(v@ =~= b@);
    v
}

impl Bencode {
    /// The value of the first entry with the given key, where this is a
    /// dictionary that has one.
    pub fn get(&self, key: &[u8]) -> (found: Option<&Bencode>)
        ensures
            match found {
                Some(value) => self@.get(key@) == Some(value@),
                None => self@.get(key@) is None,
            },
    {
        match self {
            Bencode::Dict(entries) => {
                let ghost all = self@->Dict_0;
                assert(all.subrange(0, all.len() as int) =~= all);
                let mut i: usize = 0;
                while i < entries.len()
                    invariant
                        i <= entries.len(),
                        self == Bencode::Dict(*entries),
                        all == self@->Dict_0,
                        all.len() == entries@.len(),
                        dict_get(all, key@) == dict_get(
                            all.subrange(i as int, all.len() as int),
                            key@,
                        ),
                    decreases entries.len() - i,
                {
                    let ghost rest = all.subrange(i as int, all.len() as int);
                    assert(rest[0] == (entries@[i as int].0@, entries@[i as int].1@));
                    assert(rest.subrange(1, rest.len() as int) =~= all.subrange(
                        i + 1,
                        all.len() as int,
                    ));
                    if bytes_eq(entries[i].0.as_slice(), key) {
                        return Some(&entries[i].1);
                    }
                    i += 1;
                }
                None
            },
            _ => None,
        }
    }

    /// The bytes, where this is a byte string.
    pub fn as_bytes(&self) -> (bytes: Option<&Vec<u8>>)
        ensures
            match bytes {
                Some(b) => self@ == BencodeView::Bytes(b@),
                None => !(self@ is Bytes),
            },
    {
        match self {
            Bencode::Bytes(b) => Some(b),
            _ => None,
        }
    }

    /// The number, where this is an integer.
    pub fn as_int(&self) -> (number: Option<i64>)
        ensures
            match number {
                Some(i) => self@ == BencodeView::Int(i),
                None => !(self@ is Int),
            },
    {
        match self {
            Bencode::Int(i) => Some(*i),
            _ => None,
        }
    }

    /// The items, where this is a list.
    pub fn as_list(&self) -> (list: Option<&Vec<Bencode>>)
        ensures
            match list {
                Some(items) => {
                    &&& self@ is List
                    &&& self@->List_0.len() == items@.len()
                    &&& forall|i: int| 0 <= i < items@.len() ==> self@->List_0[i] == items@[i]@
                },
                None => !(self@ is List),
            },
    {
        match self {
            Bencode::List(items) => Some(items),
            _ => None,
        }
    }

    /// A byte string value that holds a copy of `b`.
    pub fn bytes(b: &[u8]) -> (t: Bencode)
        ensures
            t@ == BencodeView::Bytes(b@),
    {
        Bencode::Bytes(bytes_to_vec(b))
    }

    /// A list of the given items.
    pub fn list(items: Vec<Bencode>) -> (t: Bencode)
        ensures
            t@ is List,
            t@->List_0.len() == items@.len(),
            forall|i: int| 0 <= i < items@.len() ==> t@->List_0[i] == items@[i]@,
    {
        proof {
            lemma_list_view(items);
        }
        Bencode::List(items)
    }

    /// A dictionary of the given entries, in their order.
    pub fn dict(entries: Vec<(Vec<u8>, Bencode)>) -> (t: Bencode)
        ensures
            t@ is Dict,
            t@->Dict_0.len() == entries@.len(),
            forall|i: int|
                0 <= i < entries@.len() ==> t@->Dict_0[i] == (entries@[i].0@, entries@[i].1@),
    {
        proof {
            lemma_dict_view(entries);
        }
        Bencode::Dict(entries)
    }
}

} // verus!

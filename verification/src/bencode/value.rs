use vstd::prelude::*;

verus! {

/// A bencode value as a mathematical tree. A dictionary is the sequence of
/// its entries in the order in which they are written.
pub enum BencodeView {
    Int(i64),
    Bytes(Seq<u8>),
    List(Seq<BencodeView>),
    Dict(Seq<(Seq<u8>, BencodeView)>),
}

/// A bencode value.
#[derive(Debug, PartialEq, Eq)]
pub enum Bencode {
    Int(i64),
    Bytes(Vec<u8>),
    List(Vec<Bencode>),
    Dict(Vec<(Vec<u8>, Bencode)>),
}

/// The tree that a value stands for.
pub open spec fn tree_of(t: Bencode) -> BencodeView
    decreases t,
{
    match t {
        Bencode::Int(i) => BencodeView::Int(i),
        Bencode::Bytes(b) => BencodeView::Bytes(b@),
        Bencode::List(items) => BencodeView::List(
            Seq::new(
                items@.len(),
                |i: int|
                    if 0 <= i < items@.len() {
                        tree_of(items@[i])
                    } else {
                        BencodeView::Int(0)
                    },
            ),
        ),
        Bencode::Dict(entries) => BencodeView::Dict(
            Seq::new(
                entries@.len(),
                |i: int|
                    if 0 <= i < entries@.len() {
                        (entries@[i].0@, tree_of(entries@[i].1))
                    } else {
                        (Seq::empty(), BencodeView::Int(0))
                    },
            ),
        ),
    }
}

impl View for Bencode {
    type V = BencodeView;

    open spec fn view(&self) -> BencodeView {
        tree_of(*self)
    }
}

/// The trees of a vector of values.
pub open spec fn trees_of(items: Seq<Bencode>) -> Seq<BencodeView> {
    Seq::new(items.len(), |i: int| items[i]@)
}

/// The keys and trees of a vector of entries.
pub open spec fn entry_trees_of(entries: Seq<(Vec<u8>, Bencode)>) -> Seq<(Seq<u8>, BencodeView)> {
    Seq::new(entries.len(), |i: int| (entries[i].0@, entries[i].1@))
}

/// A list's tree holds the trees of its items.
pub proof fn lemma_list_view(items: Vec<Bencode>)
    ensures
        Bencode::List(items)@ == BencodeView::List(trees_of(items@)),
{
    assert(Bencode::List(items)@->List_0 =~= trees_of(items@));
}

/// A dictionary's tree holds the keys and trees of its entries.
pub proof fn lemma_dict_view(entries: Vec<(Vec<u8>, Bencode)>)
    ensures
        Bencode::Dict(entries)@ == BencodeView::Dict(entry_trees_of(entries@)),
{
    assert(Bencode::Dict(entries)@->Dict_0 =~= entry_trees_of(entries@));
}

impl Clone for Bencode {
    fn clone(&self) -> (copy: Self)
        ensures
            copy@ == self@,
    {
        self.copy()
    }
}

impl Bencode {
    /// A copy of the value.
    pub fn copy(&self) -> (copy: Self)
        ensures
            copy@ == self@,
        decreases self,
    {
        match self {
            Bencode::Int(i) => Bencode::Int(*i),
            Bencode::Bytes(b) => {
                let mut bytes: Vec<u8> = Vec::new();
                bytes.extend_from_slice(b.as_slice());
                assert(bytes@ =~= b@);
                Bencode::Bytes(bytes)
            },
            Bencode::List(items) => {
                let mut copies: Vec<Bencode> = Vec::new();
                let mut k: usize = 0;
                while k < items.len()
                    invariant
                        k <= items.len(),
                        self == Bencode::List(*items),
                        copies@.len() == k,
                        forall|i: int| 0 <= i < k ==> (#[trigger] copies@[i])@ == items@[i]@,
                    decreases items.len() - k,
                {
                    // the item is a part of this value
                    assert(tree_of(*self)->List_0[k as int] == tree_of(items@[k as int]));
                    copies.push(items[k].copy());
                    k += 1;
                }
                proof {
                    lemma_list_view(copies);
                    lemma_list_view(*items);
                    assert(trees_of(copies@) =~= trees_of(items@));
                }
                Bencode::List(copies)
            },
            Bencode::Dict(entries) => {
                let mut copies: Vec<(Vec<u8>, Bencode)> = Vec::new();
                let mut k: usize = 0;
                while k < entries.len()
                    invariant
                        k <= entries.len(),
                        self == Bencode::Dict(*entries),
                        copies@.len() == k,
                        forall|i: int|
                            0 <= i < k ==> (#[trigger] copies@[i]).0@ == entries@[i].0@
                                && copies@[i].1@ == entries@[i].1@,
                    decreases entries.len() - k,
                {
                    let mut key: Vec<u8> = Vec::new();
                    key.extend_from_slice(entries[k].0.as_slice());
                    assert(key@ =~= entries@[k as int].0@);
                    // the entry's value is a part of this value
                    assert(tree_of(*self)->Dict_0[k as int].1 == tree_of(entries@[k as int].1));
                    copies.push((key, entries[k].1.copy()));
                    k += 1;
                }
                proof {
                    lemma_dict_view(copies);
                    lemma_dict_view(*entries);
                    assert(entry_trees_of(copies@) =~= entry_trees_of(entries@));
                }
                Bencode::Dict(copies)
            },
        }
    }
}

} // verus!

use vstd::prelude::*;
use super::encode::{encoding, COLON, DICT_START, END, INT_START, LIST_START, MINUS};
use super::laws::{lemma_parse_encoding, lemma_parsed_value};
use super::number::{parse_number, read_number};
use super::value::{
    entry_trees_of, lemma_dict_view, lemma_list_view, trees_of, Bencode, BencodeView,
};

verus! {

/// The largest magnitude of a negative integer.
pub const NEGATIVE_LIMIT: u64 = 0x8000_0000_0000_0000;

/// The largest integer.
pub const POSITIVE_LIMIT: u64 = 0x7fff_ffff_ffff_ffff;

/// The integer whose text and closing `e` stand at `pos`, with the position
/// after them.
pub open spec fn parse_int(s: Seq<u8>, pos: int) -> Option<(i64, int)> {
    let negative = 0 <= pos < s.len() && s[pos] == MINUS;
    let start = if negative {
        pos + 1
    } else {
        pos
    };
    let limit = if negative {
        NEGATIVE_LIMIT as nat
    } else {
        POSITIVE_LIMIT as nat
    };
    match parse_number(s, start, limit) {
        Some((n, end)) => {
            if end < s.len() && s[end] == END && !(negative && n == 0) {
                if negative {
                    Some(((-(n as int)) as i64, end + 1))
                } else {
                    Some((n as i64, end + 1))
                }
            } else {
                None
            }
        },
        None => None,
    }
}

/// The byte string encoded at `pos`, with the position after it.
pub open spec fn parse_bytes(s: Seq<u8>, pos: int) -> Option<(Seq<u8>, int)> {
    match parse_number(s, pos, s.len()) {
        Some((n, end)) => {
            if end < s.len() && s[end] == COLON && end + 1 + n <= s.len() {
                Some((s.subrange(end + 1, end + 1 + n), end + 1 + n))
            } else {
                None
            }
        },
        None => None,
    }
}

/// The value encoded at `pos`, with the position after it.
pub open spec fn parse_value(s: Seq<u8>, pos: int) -> Option<(BencodeView, int)>
    decreases s.len() - pos, 0nat,
{
    if !(0 <= pos < s.len()) {
        None
    } else if s[pos] == INT_START {
        match parse_int(s, pos + 1) {
            Some((i, end)) => Some((BencodeView::Int(i), end)),
            None => None,
        }
    } else if s[pos] == LIST_START {
        match parse_items(s, pos + 1) {
            Some((items, end)) => Some((BencodeView::List(items), end)),
            None => None,
        }
    } else if s[pos] == DICT_START {
        match parse_entries(s, pos + 1) {
            Some((entries, end)) => Some((BencodeView::Dict(entries), end)),
            None => None,
        }
    } else {
        match parse_bytes(s, pos) {
            Some((b, end)) => Some((BencodeView::Bytes(b), end)),
            None => None,
        }
    }
}

/// The items encoded from `pos` up to the closing `e`, with the position
/// after it.
pub open spec fn parse_items(s: Seq<u8>, pos: int) -> Option<(Seq<BencodeView>, int)>
    decreases s.len() - pos, 1nat,
{
    if !(0 <= pos < s.len()) {
        None
    } else if s[pos] == END {
        Some((Seq::empty(), pos + 1))
    } else {
        match parse_value(s, pos) {
            Some((item, next)) => {
                if next <= pos || next > s.len() {
                    None
                } else {
                    prepend_item(item, parse_items(s, next))
                }
            },
            None => None,
        }
    }
}

/// The entries encoded from `pos` up to the closing `e`, with the position
/// after it.
pub open spec fn parse_entries(s: Seq<u8>, pos: int) -> Option<
    (Seq<(Seq<u8>, BencodeView)>, int),
>
    decreases s.len() - pos, 1nat,
{
    if !(0 <= pos < s.len()) {
        None
    } else if s[pos] == END {
        Some((Seq::empty(), pos + 1))
    } else {
        match parse_bytes(s, pos) {
            Some((key, mid)) => {
                if mid <= pos {
                    None
                } else {
                    match parse_value(s, mid) {
                        Some((value, next)) => {
                            if next <= mid || next > s.len() {
                                None
                            } else {
                                prepend_entry((key, value), parse_entries(s, next))
                            }
                        },
                        None => None,
                    }
                }
            },
            None => None,
        }
    }
}

/// A parse of the rest of a list, with one more item in front.
pub open spec fn prepend_item(item: BencodeView, rest: Option<(Seq<BencodeView>, int)>) -> Option<
    (Seq<BencodeView>, int),
> {
    match rest {
        Some((items, end)) => Some((seq![item] + items, end)),
        None => None,
    }
}

/// A parse of the rest of a dictionary, with one more entry in front.
pub open spec fn prepend_entry(
    entry: (Seq<u8>, BencodeView),
    rest: Option<(Seq<(Seq<u8>, BencodeView)>, int)>,
) -> Option<(Seq<(Seq<u8>, BencodeView)>, int)> {
    match rest {
        Some((entries, end)) => Some((seq![entry] + entries, end)),
        None => None,
    }
}

/// A parse of the rest of a list, behind the items already read.
pub open spec fn behind_items(
    done: Seq<BencodeView>,
    rest: Option<(Seq<BencodeView>, int)>,
) -> Option<(Seq<BencodeView>, int)> {
    match rest {
        Some((items, end)) => Some((done + items, end)),
        None => None,
    }
}

/// A parse of the rest of a dictionary, behind the entries already read.
pub open spec fn behind_entries(
    done: Seq<(Seq<u8>, BencodeView)>,
    rest: Option<(Seq<(Seq<u8>, BencodeView)>, int)>,
) -> Option<(Seq<(Seq<u8>, BencodeView)>, int)> {
    match rest {
        Some((entries, end)) => Some((done + entries, end)),
        None => None,
    }
}

/// The whole of `s` read as one value: what `s` encodes, if anything.
pub open spec fn parse_all(s: Seq<u8>) -> Option<BencodeView> {
    match parse_value(s, 0) {
        Some((t, end)) => if end == s.len() {
            Some(t)
        } else {
            None
        },
        None => None,
    }
}

/// Reads the integer whose text and closing `e` stand at `pos`.
fn read_int(buf: &[u8], pos: usize) -> (r: Option<(i64, usize)>)
    ensures
        match r {
            Some((i, end)) => parse_int(buf@, pos as int) == Some((i, end as int)) && pos < end
                <= buf.len(),
            None => parse_int(buf@, pos as int) is None,
        },
{
    let len = buf.len();
    let negative = pos < len && buf[pos] == MINUS;
    let start: usize = if negative {
        pos + 1
    } else {
        pos
    };
    let limit: u64 = if negative {
        NEGATIVE_LIMIT
    } else {
        POSITIVE_LIMIT
    };
    match read_number(buf, start, limit) {
        Some((n, end)) => {
            if end < len && buf[end] == END && !(negative && n == 0) {
                let value: i64 = if negative {
                    if n == NEGATIVE_LIMIT {
                        i64::MIN
                    } else {
                        -(n as i64)
                    }
                } else {
                    n as i64
                };
                Some((value, end + 1))
            } else {
                None
            }
        },
        None => None,
    }
}

/// Reads the byte string encoded at `pos`.
fn read_bytes(buf: &[u8], pos: usize) -> (r: Option<(Vec<u8>, usize)>)
    ensures
        match r {
            Some((b, end)) => parse_bytes(buf@, pos as int) == Some((b@, end as int)) && pos < end
                <= buf.len(),
            None => parse_bytes(buf@, pos as int) is None,
        },
{
    let len = buf.len();
    match read_number(buf, pos, len as u64) {
        Some((n, end)) => {
            if end < len && buf[end] == COLON && n <= (len - end - 1) as u64 {
                let start: usize = end + 1;
                let stop: usize = start + n as usize;
                let mut bytes: Vec<u8> = Vec::new();
                let mut i: usize = start;
                while i < stop
                    invariant
                        start <= i <= stop <= buf.len(),
                        bytes@ == buf@.subrange(start as int, i as int),
                    decreases stop - i,
                {
                    bytes.push(buf[i]);
                    assert(bytes@ =~= buf@.subrange(start as int, i + 1));
                    i += 1;
                }
                Some((bytes, stop))
            } else {
                None
            }
        },
        None => None,
    }
}

/// Reads the value encoded at `pos`.
fn read_value(buf: &[u8], pos: usize) -> (r: Option<(Bencode, usize)>)
    ensures
        match r {
            Some((t, end)) => parse_value(buf@, pos as int) == Some((t@, end as int)) && pos < end
                <= buf.len(),
            None => parse_value(buf@, pos as int) is None,
        },
    decreases buf.len() - pos,
{
    let len = buf.len();
    if pos >= len {
        return None;
    }
    let head: u8 = buf[pos];
    if head == INT_START {
        match read_int(buf, pos + 1) {
            Some((i, end)) => Some((Bencode::Int(i), end)),
            None => None,
        }
    } else if head == LIST_START {
        let mut items: Vec<Bencode> = Vec::new();
        let mut p: usize = pos + 1;
        assert(trees_of(items@) + Seq::<BencodeView>::empty() =~= Seq::<BencodeView>::empty());
        while p < len
            invariant
                len == buf.len(),
                pos < p <= len,
                buf@[pos as int] == LIST_START,
                behind_items(trees_of(items@), parse_items(buf@, p as int)) == parse_items(
                    buf@,
                    pos + 1,
                ),
            decreases len - p,
        {
            if buf[p] == END {
                proof {
                    lemma_list_view(items);
                    assert(trees_of(items@) + Seq::<BencodeView>::empty() =~= trees_of(items@));
                }
                return Some((Bencode::List(items), p + 1));
            }
            match read_value(buf, p) {
                Some((item, next)) => {
                    let ghost before = trees_of(items@);
                    let ghost tree = item@;
                    items.push(item);
                    proof {
                        assert(trees_of(items@) =~= before + seq![tree]);
                        let rest = parse_items(buf@, next as int);
                        if rest is Some {
                            assert(before + (seq![tree] + rest->Some_0.0) =~= (before + seq![
                                tree,
                            ]) + rest->Some_0.0);
                        }
                    }
                    p = next;
                },
                None => {
                    return None;
                },
            }
        }
        None
    } else if head == DICT_START {
        let mut entries: Vec<(Vec<u8>, Bencode)> = Vec::new();
        let mut p: usize = pos + 1;
        while p < len
            invariant
                len == buf.len(),
                pos < p <= len,
                buf@[pos as int] == DICT_START,
                behind_entries(entry_trees_of(entries@), parse_entries(buf@, p as int))
                    == parse_entries(buf@, pos + 1),
            decreases len - p,
        {
            if buf[p] == END {
                proof {
                    lemma_dict_view(entries);
                    assert(entry_trees_of(entries@) + Seq::<(Seq<u8>, BencodeView)>::empty()
                        =~= entry_trees_of(entries@));
                }
                return Some((Bencode::Dict(entries), p + 1));
            }
            match read_bytes(buf, p) {
                Some((key, mid)) => {
                    match read_value(buf, mid) {
                        Some((value, next)) => {
                            let ghost before = entry_trees_of(entries@);
                            let ghost entry = (key@, value@);
                            entries.push((key, value));
                            proof {
                                assert(entry_trees_of(entries@) =~= before + seq![entry]);
                                let rest = parse_entries(buf@, next as int);
                                if rest is Some {
                                    assert(before + (seq![entry] + rest->Some_0.0) =~= (before
                                        + seq![entry]) + rest->Some_0.0);
                                }
                            }
                            p = next;
                        },
                        None => {
                            return None;
                        },
                    }
                },
                None => {
                    return None;
                },
            }
        }
        None
    } else {
        match read_bytes(buf, pos) {
            Some((b, end)) => Some((Bencode::Bytes(b), end)),
            None => None,
        }
    }
}

impl Bencode {
    /// Reads a whole buffer as one value. It gives the value whose encoding
    /// the buffer is, and nothing where the buffer is no value's encoding.
    pub fn parse(buf: &[u8]) -> (r: Option<Bencode>)
        ensures
            match r {
                Some(t) => buf@ == encoding(t@) && parse_all(buf@) == Some(t@),
                None => parse_all(buf@) is None && forall|t: BencodeView| buf@ != encoding(t),
            },
    {
        let r = read_value(buf, 0);
        proof {
            assert(buf@.subrange(0, buf@.len() as int) =~= buf@);
            assert forall|t: BencodeView| buf@ == encoding(t) implies parse_value(buf@, 0)
                == Some((t, buf@.len() as int)) by {
                lemma_parse_encoding(buf@, 0, t);
            }
            if r is Some {
                lemma_parsed_value(buf@, 0);
            }
        }
        match r {
            Some((t, end)) => {
                if end == buf.len() {
                    Some(t)
                } else {
                    None
                }
            },
            None => None,
        }
    }
}

} // verus!

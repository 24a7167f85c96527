use vstd::prelude::*;
use super::encode::{
    bytes_encoding, dict_encoding, encoding, int_text, list_encoding, COLON, DICT_START, END,
    INT_START, LIST_START, MINUS,
};
use super::number::{
    digits, is_digit, lemma_digits_canonical, lemma_parse_number_is_digits,
    lemma_parse_number_of_digits, parse_number,
};
use super::parse::{
    parse_all, parse_bytes, parse_entries, parse_int, parse_items, parse_value, NEGATIVE_LIMIT,
    POSITIVE_LIMIT,
};
use super::value::BencodeView;

verus! {

/// Where `x + y` stands at `at` in `s`, `x` stands at `at` and `y` behind it.
pub proof fn lemma_split(s: Seq<u8>, at: int, x: Seq<u8>, y: Seq<u8>)
    requires
        0 <= at,
        at + x.len() + y.len() <= s.len(),
        s.subrange(at, at + x.len() + y.len()) == x + y,
    ensures
        s.subrange(at, at + x.len()) == x,
        s.subrange(at + x.len(), at + x.len() + y.len()) == y,
{
    let whole = s.subrange(at, at + x.len() + y.len());
    assert forall|i: int| 0 <= i < x.len() implies s.subrange(at, at + x.len())[i] == x[i] by {
        assert(whole[i] == (x + y)[i]);
    }
    assert forall|i: int| 0 <= i < y.len() implies s.subrange(
        at + x.len(),
        at + x.len() + y.len(),
    )[i] == y[i] by {
        assert(whole[i + x.len()] == (x + y)[i + x.len()]);
    }
    assert(s.subrange(at, at + x.len()) =~= x);
    assert(s.subrange(at + x.len(), at + x.len() + y.len()) =~= y);
}

/// Where `x` stands at `at` in `s` and `y` behind it, `x + y` stands at `at`.
pub proof fn lemma_join(s: Seq<u8>, at: int, mid: int, end: int, x: Seq<u8>, y: Seq<u8>)
    requires
        0 <= at <= mid <= end <= s.len(),
        s.subrange(at, mid) == x,
        s.subrange(mid, end) == y,
    ensures
        s.subrange(at, end) == x + y,
{
    assert forall|i: int| 0 <= i < end - at implies s.subrange(at, end)[i] == (x + y)[i] by {
        if i < mid - at {
            assert(s.subrange(at, mid)[i] == x[i]);
        } else {
            assert(s.subrange(mid, end)[i - (mid - at)] == y[i - (mid - at)]);
        }
    }
    assert(s.subrange(at, end) =~= x + y);
}

/// An encoding is at least two bytes long, and its first byte tells the kind
/// of the value: a digit opens a byte string, and no encoding starts with
/// the closing `e`.
pub proof fn lemma_encoding_head(t: BencodeView)
    ensures
        encoding(t).len() >= 2,
        encoding(t)[0] != END,
        t is Int <==> encoding(t)[0] == INT_START,
        t is List <==> encoding(t)[0] == LIST_START,
        t is Dict <==> encoding(t)[0] == DICT_START,
        t is Bytes <==> is_digit(encoding(t)[0]),
{
    match t {
        BencodeView::Int(i) => {
            lemma_digits_canonical(if i < 0 {
                (-i) as nat
            } else {
                i as nat
            });
        },
        BencodeView::Bytes(b) => {
            lemma_digits_canonical(b.len());
        },
        BencodeView::List(items) => {},
        BencodeView::Dict(entries) => {},
    }
}

/// Where the encoding of a byte string stands at `pos`, reading a byte
/// string there gives it back.
pub proof fn lemma_parse_bytes_encoding(s: Seq<u8>, pos: int, b: Seq<u8>)
    requires
        0 <= pos,
        pos + bytes_encoding(b).len() <= s.len(),
        s.subrange(pos, pos + bytes_encoding(b).len()) == bytes_encoding(b),
    ensures
        parse_bytes(s, pos) == Some((b, pos + bytes_encoding(b).len())),
        is_digit(s[pos]),
{
    let head = digits(b.len());
    lemma_digits_canonical(b.len());
    assert(bytes_encoding(b) =~= head + (seq![COLON] + b));
    lemma_split(s, pos, head, seq![COLON] + b);
    let mid = pos + head.len();
    lemma_split(s, mid, seq![COLON], b);
    assert(s[mid] == s.subrange(mid, mid + 1)[0]);
    assert(s[pos] == s.subrange(pos, mid)[0]);
    lemma_parse_number_of_digits(s, pos, b.len(), s.len());
}

/// Where the text of an integer and a closing `e` stand at `pos`, reading an
/// integer there gives it back.
pub proof fn lemma_parse_int_text(s: Seq<u8>, pos: int, i: i64)
    requires
        0 <= pos,
        pos + int_text(i as int).len() < s.len(),
        s.subrange(pos, pos + int_text(i as int).len()) == int_text(i as int),
        s[pos + int_text(i as int).len()] == END,
    ensures
        parse_int(s, pos) == Some((i, pos + int_text(i as int).len() + 1)),
{
    let text = int_text(i as int);
    assert(s[pos] == s.subrange(pos, pos + text.len())[0]);
    if i < 0 {
        let n = (-i) as nat;
        lemma_digits_canonical(n);
        lemma_split(s, pos, seq![MINUS], digits(n));
        lemma_parse_number_of_digits(s, pos + 1, n, NEGATIVE_LIMIT as nat);
    } else {
        let n = i as nat;
        lemma_digits_canonical(n);
        lemma_parse_number_of_digits(s, pos, n, POSITIVE_LIMIT as nat);
    }
}

/// Where the encoding of a value stands at `pos`, reading a value there
/// gives it back.
pub proof fn lemma_parse_encoding(s: Seq<u8>, pos: int, t: BencodeView)
    requires
        0 <= pos,
        pos + encoding(t).len() <= s.len(),
        s.subrange(pos, pos + encoding(t).len()) == encoding(t),
    ensures
        parse_value(s, pos) == Some((t, pos + encoding(t).len())),
    decreases t,
{
    lemma_encoding_head(t);
    let enc = encoding(t);
    assert(s[pos] == s.subrange(pos, pos + enc.len())[0]);
    match t {
        BencodeView::Int(i) => {
            let text = int_text(i as int);
            assert(enc =~= seq![INT_START] + (text + seq![END]));
            lemma_split(s, pos, seq![INT_START], text + seq![END]);
            lemma_split(s, pos + 1, text, seq![END]);
            assert(s[pos + 1 + text.len()] == s.subrange(
                pos + 1 + text.len(),
                pos + 1 + text.len() + 1,
            )[0]);
            lemma_parse_int_text(s, pos + 1, i);
        },
        BencodeView::Bytes(b) => {
            lemma_parse_bytes_encoding(s, pos, b);
        },
        BencodeView::List(items) => {
            let body = list_encoding(items);
            assert(enc =~= seq![LIST_START] + (body + seq![END]));
            lemma_split(s, pos, seq![LIST_START], body + seq![END]);
            lemma_split(s, pos + 1, body, seq![END]);
            assert(s[pos + 1 + body.len()] == s.subrange(
                pos + 1 + body.len(),
                pos + 1 + body.len() + 1,
            )[0]);
            lemma_parse_list_encoding(s, pos + 1, items);
        },
        BencodeView::Dict(entries) => {
            let body = dict_encoding(entries);
            assert(enc =~= seq![DICT_START] + (body + seq![END]));
            lemma_split(s, pos, seq![DICT_START], body + seq![END]);
            lemma_split(s, pos + 1, body, seq![END]);
            assert(s[pos + 1 + body.len()] == s.subrange(
                pos + 1 + body.len(),
                pos + 1 + body.len() + 1,
            )[0]);
            lemma_parse_dict_encoding(s, pos + 1, entries);
        },
    }
}

/// Where the encodings of a list's items and a closing `e` stand at `pos`,
/// reading items there gives them back.
pub proof fn lemma_parse_list_encoding(s: Seq<u8>, pos: int, items: Seq<BencodeView>)
    requires
        0 <= pos,
        pos + list_encoding(items).len() < s.len(),
        s.subrange(pos, pos + list_encoding(items).len()) == list_encoding(items),
        s[pos + list_encoding(items).len()] == END,
    ensures
        parse_items(s, pos) == Some((items, pos + list_encoding(items).len() + 1)),
    decreases items,
{
    if items.len() == 0 {
        assert(items =~= Seq::empty());
    } else {
        let first = encoding(items[0]);
        let rest = items.subrange(1, items.len() as int);
        lemma_encoding_head(items[0]);
        lemma_split(s, pos, first, list_encoding(rest));
        assert(s[pos] == s.subrange(pos, pos + first.len())[0]);
        lemma_parse_encoding(s, pos, items[0]);
        lemma_parse_list_encoding(s, pos + first.len(), rest);
        assert(seq![items[0]] + rest =~= items);
    }
}

/// Where the encodings of a dictionary's entries and a closing `e` stand at
/// `pos`, reading entries there gives them back.
pub proof fn lemma_parse_dict_encoding(
    s: Seq<u8>,
    pos: int,
    entries: Seq<(Seq<u8>, BencodeView)>,
)
    requires
        0 <= pos,
        pos + dict_encoding(entries).len() < s.len(),
        s.subrange(pos, pos + dict_encoding(entries).len()) == dict_encoding(entries),
        s[pos + dict_encoding(entries).len()] == END,
    ensures
        parse_entries(s, pos) == Some((entries, pos + dict_encoding(entries).len() + 1)),
    decreases entries,
{
    if entries.len() == 0 {
        assert(entries =~= Seq::empty());
    } else {
        let key = bytes_encoding(entries[0].0);
        let value = encoding(entries[0].1);
        let rest = entries.subrange(1, entries.len() as int);
        lemma_encoding_head(entries[0].1);
        assert(dict_encoding(entries) =~= key + (value + dict_encoding(rest)));
        lemma_split(s, pos, key, value + dict_encoding(rest));
        lemma_split(s, pos + key.len(), value, dict_encoding(rest));
        lemma_parse_bytes_encoding(s, pos, entries[0].0);
        lemma_parse_encoding(s, pos + key.len(), entries[0].1);
        lemma_parse_dict_encoding(s, pos + key.len() + value.len(), rest);
        assert(seq![entries[0]] + rest =~= entries);
    }
}

/// A byte string that was read at `pos` is encoded there.
pub proof fn lemma_parsed_bytes(s: Seq<u8>, pos: int)
    requires
        0 <= pos <= s.len(),
        parse_bytes(s, pos) is Some,
    ensures
        ({
            let (b, end) = parse_bytes(s, pos)->Some_0;
            &&& pos < end <= s.len()
            &&& s.subrange(pos, end) == bytes_encoding(b)
        }),
{
    lemma_parse_number_is_digits(s, pos, s.len());
    let (n, mid) = parse_number(s, pos, s.len())->Some_0;
    let (b, end) = parse_bytes(s, pos)->Some_0;
    assert(s.subrange(mid, mid + 1) =~= seq![COLON]);
    lemma_join(s, pos, mid, mid + 1, digits(n), seq![COLON]);
    lemma_join(s, pos, mid + 1, end, digits(n) + seq![COLON], b);
}

/// An integer that was read at `pos` is written there, with its closing `e`.
pub proof fn lemma_parsed_int(s: Seq<u8>, pos: int)
    requires
        0 <= pos <= s.len(),
        parse_int(s, pos) is Some,
    ensures
        ({
            let (i, end) = parse_int(s, pos)->Some_0;
            &&& pos < end <= s.len()
            &&& s.subrange(pos, end) == int_text(i as int) + seq![END]
        }),
{
    let negative = pos < s.len() && s[pos] == MINUS;
    let (i, end) = parse_int(s, pos)->Some_0;
    if negative {
        lemma_parse_number_is_digits(s, pos + 1, NEGATIVE_LIMIT as nat);
        let (n, mid) = parse_number(s, pos + 1, NEGATIVE_LIMIT as nat)->Some_0;
        assert(s.subrange(pos, pos + 1) =~= seq![MINUS]);
        assert(s.subrange(mid, mid + 1) =~= seq![END]);
        lemma_join(s, pos, pos + 1, mid, seq![MINUS], digits(n));
        lemma_join(s, pos, mid, end, seq![MINUS] + digits(n), seq![END]);
    } else {
        lemma_parse_number_is_digits(s, pos, POSITIVE_LIMIT as nat);
        let (n, mid) = parse_number(s, pos, POSITIVE_LIMIT as nat)->Some_0;
        assert(s.subrange(mid, mid + 1) =~= seq![END]);
        lemma_join(s, pos, mid, end, digits(n), seq![END]);
    }
}

/// A value that was read at `pos` is encoded there.
pub proof fn lemma_parsed_value(s: Seq<u8>, pos: int)
    requires
        parse_value(s, pos) is Some,
    ensures
        ({
            let (t, end) = parse_value(s, pos)->Some_0;
            &&& 0 <= pos < end <= s.len()
            &&& s.subrange(pos, end) == encoding(t)
        }),
    decreases s.len() - pos, 0nat,
{
    let (t, end) = parse_value(s, pos)->Some_0;
    assert(s.subrange(pos, pos + 1) =~= seq![s[pos]]);
    if s[pos] == INT_START {
        lemma_parsed_int(s, pos + 1);
        let i = t->Int_0;
        lemma_join(s, pos, pos + 1, end, seq![INT_START], int_text(i as int) + seq![END]);
        assert(encoding(t) =~= seq![INT_START] + (int_text(i as int) + seq![END]));
    } else if s[pos] == LIST_START {
        lemma_parsed_items(s, pos + 1);
        let items = t->List_0;
        lemma_join(s, pos, pos + 1, end, seq![LIST_START], list_encoding(items) + seq![END]);
        assert(encoding(t) =~= seq![LIST_START] + (list_encoding(items) + seq![END]));
    } else if s[pos] == DICT_START {
        lemma_parsed_entries(s, pos + 1);
        let entries = t->Dict_0;
        lemma_join(s, pos, pos + 1, end, seq![DICT_START], dict_encoding(entries) + seq![END]);
        assert(encoding(t) =~= seq![DICT_START] + (dict_encoding(entries) + seq![END]));
    } else {
        lemma_parsed_bytes(s, pos);
    }
}

/// Items that were read at `pos` are encoded there, with the closing `e`.
pub proof fn lemma_parsed_items(s: Seq<u8>, pos: int)
    requires
        parse_items(s, pos) is Some,
    ensures
        ({
            let (items, end) = parse_items(s, pos)->Some_0;
            &&& 0 <= pos < end <= s.len()
            &&& s.subrange(pos, end) == list_encoding(items) + seq![END]
        }),
    decreases s.len() - pos, 1nat,
{
    let (items, end) = parse_items(s, pos)->Some_0;
    if s[pos] == END {
        assert(s.subrange(pos, pos + 1) =~= seq![END]);
        assert(list_encoding(items) + seq![END] =~= seq![END]);
    } else {
        lemma_parsed_value(s, pos);
        let (item, next) = parse_value(s, pos)->Some_0;
        lemma_parsed_items(s, next);
        let (rest, _) = parse_items(s, next)->Some_0;
        assert(items == seq![item] + rest);
        assert(items[0] == item);
        assert(items.subrange(1, items.len() as int) =~= rest);
        lemma_join(s, pos, next, end, encoding(item), list_encoding(rest) + seq![END]);
        assert(list_encoding(items) + seq![END] =~= encoding(item) + (list_encoding(rest)
            + seq![END]));
    }
}

/// Entries that were read at `pos` are encoded there, with the closing `e`.
pub proof fn lemma_parsed_entries(s: Seq<u8>, pos: int)
    requires
        parse_entries(s, pos) is Some,
    ensures
        ({
            let (entries, end) = parse_entries(s, pos)->Some_0;
            &&& 0 <= pos < end <= s.len()
            &&& s.subrange(pos, end) == dict_encoding(entries) + seq![END]
        }),
    decreases s.len() - pos, 1nat,
{
    let (entries, end) = parse_entries(s, pos)->Some_0;
    if s[pos] == END {
        assert(s.subrange(pos, pos + 1) =~= seq![END]);
        assert(dict_encoding(entries) + seq![END] =~= seq![END]);
    } else {
        lemma_parsed_bytes(s, pos);
        let (key, mid) = parse_bytes(s, pos)->Some_0;
        lemma_parsed_value(s, mid);
        let (value, next) = parse_value(s, mid)->Some_0;
        lemma_parsed_entries(s, next);
        let (rest, _) = parse_entries(s, next)->Some_0;
        assert(entries == seq![(key, value)] + rest);
        assert(entries[0] == (key, value));
        assert(entries.subrange(1, entries.len() as int) =~= rest);
        lemma_join(s, mid, next, end, encoding(value), dict_encoding(rest) + seq![END]);
        lemma_join(
            s,
            pos,
            mid,
            end,
            bytes_encoding(key),
            encoding(value) + (dict_encoding(rest) + seq![END]),
        );
        assert(dict_encoding(entries) + seq![END] =~= bytes_encoding(key) + (encoding(value) + (
            dict_encoding(rest) + seq![END])));
    }
}

/// Reading inverts encoding: the encoding of a value reads as that value.
pub proof fn lemma_parse_inverts_encoding(t: BencodeView)
    ensures
        parse_all(encoding(t)) == Some(t),
{
    let s = encoding(t);
    assert(s.subrange(0, s.len() as int) =~= s);
    lemma_parse_encoding(s, 0, t);
}

/// Encoding inverts reading: bytes that read as a value are its encoding.
pub proof fn lemma_encoding_inverts_parse(s: Seq<u8>)
    requires
        parse_all(s) is Some,
    ensures
        encoding(parse_all(s)->Some_0) == s,
{
    lemma_parsed_value(s, 0);
    assert(s.subrange(0, s.len() as int) =~= s);
}

/// Bytes read as a value exactly when they are its encoding.
pub proof fn lemma_parse_iff_encoding(s: Seq<u8>, t: BencodeView)
    ensures
        parse_all(s) == Some(t) <==> s == encoding(t),
{
    if s == encoding(t) {
        lemma_parse_inverts_encoding(t);
    }
    if parse_all(s) == Some(t) {
        lemma_encoding_inverts_parse(s);
    }
}

/// Two values with the same encoding are the same value.
pub proof fn lemma_encoding_injective(a: BencodeView, b: BencodeView)
    requires
        encoding(a) == encoding(b),
    ensures
        a == b,
{
    lemma_parse_inverts_encoding(a);
    lemma_parse_inverts_encoding(b);
}

} // verus!

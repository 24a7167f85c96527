use vstd::prelude::*;

verus! {

/// Whether a byte is an ASCII decimal digit.
pub open spec fn is_digit(b: u8) -> bool {
    48 <= b <= 57
}

/// The decimal text of a natural number, without leading zeros.
pub open spec fn digits(n: nat) -> Seq<u8>
    decreases n,
{
    if n < 10 {
        seq![(48 + n) as u8]
    } else {
        digits(n / 10).push((48 + n % 10) as u8)
    }
}

/// The number that a string of decimal digits denotes.
pub open spec fn decimal_value(d: Seq<u8>) -> nat
    decreases d.len(),
{
    if d.len() == 0 {
        0
    } else {
        10 * decimal_value(d.drop_last()) + (d.last() - 48) as nat
    }
}

/// A digit string as `digits` writes them: not empty, digits only, and no
/// leading zero but for the number zero itself.
pub open spec fn is_canonical_decimal(d: Seq<u8>) -> bool {
    &&& d.len() > 0
    &&& forall|i: int| 0 <= i < d.len() ==> is_digit(#[trigger] d[i])
    &&& (d[0] == 48 ==> d.len() == 1)
}

/// Where the run of digits that starts at `pos` ends.
pub open spec fn digit_run_end(s: Seq<u8>, pos: int) -> int
    decreases s.len() - pos,
{
    if 0 <= pos < s.len() && is_digit(s[pos]) {
        digit_run_end(s, pos + 1)
    } else {
        pos
    }
}

/// The canonical decimal number written at `pos`, if there is one and it is
/// at most `limit`, with the position after it.
pub open spec fn parse_number(s: Seq<u8>, pos: int, limit: nat) -> Option<(nat, int)> {
    let end = digit_run_end(s, pos);
    let run = s.subrange(pos, end);
    if pos < 0 || end <= pos {
        None
    } else if s[pos] == 48 && end > pos + 1 {
        None
    } else if decimal_value(run) > limit {
        None
    } else {
        Some((decimal_value(run), end))
    }
}

/// The text of `digits` is a canonical decimal and denotes the number.
pub proof fn lemma_digits_canonical(n: nat)
    ensures
        is_canonical_decimal(digits(n)),
        decimal_value(digits(n)) == n,
    decreases n,
{
    if n < 10 {
        assert(digits(n).drop_last() =~= Seq::<u8>::empty());
        assert(decimal_value(digits(n).drop_last()) == 0);
    } else {
        lemma_digits_canonical(n / 10);
        let d = digits(n / 10);
        assert(digits(n).drop_last() =~= d);
        assert(digits(n)[0] == d[0]);
        if d[0] == 48 {
            assert(d.len() == 1);
            assert(d.drop_last() =~= Seq::<u8>::empty());
            assert(decimal_value(d.drop_last()) == 0);
            assert(false);
        }
    }
}

/// A canonical decimal is the text that `digits` writes for its value.
pub proof fn lemma_canonical_is_digits(d: Seq<u8>)
    requires
        is_canonical_decimal(d),
    ensures
        digits(decimal_value(d)) == d,
    decreases d.len(),
{
    if d.len() == 1 {
        assert(d.drop_last() =~= Seq::<u8>::empty());
        assert(decimal_value(d.drop_last()) == 0);
        assert(digits(decimal_value(d)) =~= d);
    } else {
        let p = d.drop_last();
        assert(is_canonical_decimal(p));
        lemma_canonical_is_digits(p);
        lemma_leading_digit_positive(p);
        let v = decimal_value(p);
        let last = (d.last() - 48) as nat;
        assert(decimal_value(d) == 10 * v + last);
        assert((10 * v + last) / 10 == v);
        assert((10 * v + last) % 10 == last);
        assert(digits(decimal_value(d)) =~= d);
    }
}

/// A digit string that does not start with a zero denotes a positive number.
pub proof fn lemma_leading_digit_positive(d: Seq<u8>)
    requires
        d.len() > 0,
        forall|i: int| 0 <= i < d.len() ==> is_digit(#[trigger] d[i]),
        d[0] != 48,
    ensures
        decimal_value(d) > 0,
    decreases d.len(),
{
    if d.len() == 1 {
        assert(d.drop_last() =~= Seq::<u8>::empty());
        assert(decimal_value(d.drop_last()) == 0);
    } else {
        lemma_leading_digit_positive(d.drop_last());
    }
}

/// The value of a digit string is at least the value of each of its
/// prefixes.
pub proof fn lemma_decimal_value_prefix(d: Seq<u8>, k: int)
    requires
        0 <= k <= d.len(),
        forall|i: int| 0 <= i < d.len() ==> is_digit(#[trigger] d[i]),
    ensures
        decimal_value(d.subrange(0, k)) <= decimal_value(d),
    decreases d.len() - k,
{
    if k == d.len() {
        assert(d.subrange(0, k) =~= d);
    } else {
        lemma_decimal_value_prefix(d.drop_last(), k);
        assert(d.drop_last().subrange(0, k) =~= d.subrange(0, k));
    }
}

/// A run of digits that stands at `pos` and is followed by no further digit
/// is the run that `digit_run_end` finds.
pub proof fn lemma_digit_run(s: Seq<u8>, pos: int, end: int)
    requires
        0 <= pos <= end <= s.len(),
        forall|i: int| pos <= i < end ==> is_digit(#[trigger] s[i]),
        end < s.len() ==> !is_digit(s[end]),
    ensures
        digit_run_end(s, pos) == end,
    decreases end - pos,
{
    if pos < end {
        lemma_digit_run(s, pos + 1, end);
    }
}

/// The run of digits found at `pos` reaches at least as far as digits stand.
pub proof fn lemma_digit_run_covers(s: Seq<u8>, pos: int, upto: int)
    requires
        0 <= pos <= upto <= s.len(),
        forall|i: int| pos <= i < upto ==> is_digit(#[trigger] s[i]),
    ensures
        upto <= digit_run_end(s, pos) <= s.len(),
    decreases s.len() - pos,
{
    if pos < s.len() && is_digit(s[pos]) {
        if pos < upto {
            lemma_digit_run_covers(s, pos + 1, upto);
        } else {
            lemma_digit_run_end(s, pos + 1);
        }
    }
}

/// The run of digits found at `pos` holds digits only and stops at the first
/// byte that is none.
pub proof fn lemma_digit_run_end(s: Seq<u8>, pos: int)
    requires
        0 <= pos <= s.len(),
    ensures
        pos <= digit_run_end(s, pos) <= s.len(),
        forall|i: int| pos <= i < digit_run_end(s, pos) ==> is_digit(#[trigger] s[i]),
        digit_run_end(s, pos) < s.len() ==> !is_digit(s[digit_run_end(s, pos)]),
    decreases s.len() - pos,
{
    if pos < s.len() && is_digit(s[pos]) {
        lemma_digit_run_end(s, pos + 1);
    }
}

/// Where the text of `n` stands at `pos` and no digit follows it, reading a
/// number at `pos` gives `n`.
pub proof fn lemma_parse_number_of_digits(s: Seq<u8>, pos: int, n: nat, limit: nat)
    requires
        0 <= pos,
        pos + digits(n).len() <= s.len(),
        s.subrange(pos, pos + digits(n).len()) == digits(n),
        pos + digits(n).len() < s.len() ==> !is_digit(s[pos + digits(n).len()]),
        n <= limit,
    ensures
        parse_number(s, pos, limit) == Some((n, pos + digits(n).len())),
{
    let d = digits(n);
    let end = pos + d.len();
    lemma_digits_canonical(n);
    assert forall|i: int| pos <= i < end implies is_digit(#[trigger] s[i]) by {
        assert(s[i] == s.subrange(pos, end)[i - pos]);
    }
    lemma_digit_run(s, pos, end);
    assert(s[pos] == s.subrange(pos, end)[0]);
}

/// A number read at `pos` is written there as `digits` writes it.
pub proof fn lemma_parse_number_is_digits(s: Seq<u8>, pos: int, limit: nat)
    requires
        parse_number(s, pos, limit) is Some,
        pos <= s.len(),
    ensures
        ({
            let (n, end) = parse_number(s, pos, limit)->Some_0;
            &&& pos < end <= s.len()
            &&& n <= limit
            &&& s.subrange(pos, end) == digits(n)
            &&& end < s.len() ==> !is_digit(s[end])
        }),
{
    lemma_digit_run_end(s, pos);
    let end = digit_run_end(s, pos);
    let run = s.subrange(pos, end);
    assert forall|i: int| 0 <= i < run.len() implies is_digit(#[trigger] run[i]) by {
        assert(run[i] == s[pos + i]);
    }
    assert(run[0] == s[pos]);
    lemma_canonical_is_digits(run);
}

/// Appends the decimal text of `n`.
pub fn write_digits(n: u64, out: &mut Vec<u8>)
    ensures
        final(out)@ == old(out)@ + digits(n as nat),
    decreases n,
{
    if n >= 10 {
        write_digits(n / 10, out);
    }
    let digit: u8 = (48 + n % 10) as u8;
    out.push(digit);
    assert(out@ =~= old(out)@ + digits(n as nat));
}

/// Reads the canonical decimal number that stands at `pos`, if it is at most
/// `limit`.
pub fn read_number(buf: &[u8], pos: usize, limit: u64) -> (r: Option<(u64, usize)>)
    ensures
        match r {
            Some((n, end)) => parse_number(buf@, pos as int, limit as nat) == Some(
                (n as nat, end as int),
            ) && pos < end <= buf.len(),
            None => parse_number(buf@, pos as int, limit as nat) is None,
        },
{
    let len = buf.len();
    if pos >= len {
        return None;
    }
    let first: u8 = buf[pos];
    if first < 48 || first > 57 {
        return None;
    }
    let mut value: u64 = (first - 48) as u64;
    let mut i: usize = pos + 1;
    proof {
        let one = buf@.subrange(pos as int, pos + 1);
        assert(one.drop_last() =~= Seq::<u8>::empty());
        assert(decimal_value(one.drop_last()) == 0);
        assert(one.last() == first);
    }
    if value > limit {
        proof {
            lemma_number_exceeds(buf@, pos as int, pos + 1, limit as nat);
        }
        return None;
    }
    while i < len && 48 <= buf[i] && buf[i] <= 57
        invariant
            len == buf.len(),
            pos < i <= len,
            first == buf@[pos as int],
            first == 48 ==> i == pos + 1,
            forall|j: int| pos <= j < i ==> is_digit(#[trigger] buf@[j]),
            value == decimal_value(buf@.subrange(pos as int, i as int)),
            value <= limit,
        decreases len - i,
    {
        proof {
            let more = buf@.subrange(pos as int, i + 1);
            assert(more.drop_last() =~= buf@.subrange(pos as int, i as int));
            assert(more.last() == buf@[i as int]);
        }
        if first == 48 {
            proof {
                lemma_digit_run_covers(buf@, pos as int, i + 1);
            }
            return None;
        }
        let digit: u64 = (buf[i] - 48) as u64;
        if limit < digit || value > (limit - digit) / 10 {
            proof {
                lemma_number_exceeds(buf@, pos as int, i + 1, limit as nat);
            }
            return None;
        }
        value = value * 10 + digit;
        i += 1;
    }
    proof {
        lemma_digit_run(buf@, pos as int, i as int);
    }
    Some((value, i))
}

/// Where digits stand from `pos` up to `upto` and already denote more than
/// `limit`, no number within the limit is read at `pos`.
proof fn lemma_number_exceeds(s: Seq<u8>, pos: int, upto: int, limit: nat)
    requires
        0 <= pos < upto <= s.len(),
        forall|i: int| pos <= i < upto ==> is_digit(#[trigger] s[i]),
        decimal_value(s.subrange(pos, upto)) > limit,
    ensures
        parse_number(s, pos, limit) is None,
{
    lemma_digit_run_covers(s, pos, upto);
    lemma_digit_run_end(s, pos);
    let end = digit_run_end(s, pos);
    let run = s.subrange(pos, end);
    assert forall|i: int| 0 <= i < run.len() implies is_digit(#[trigger] run[i]) by {
        assert(run[i] == s[pos + i]);
    }
    lemma_decimal_value_prefix(run, upto - pos);
    assert(run.subrange(0, upto - pos) =~= s.subrange(pos, upto));
}

} // verus!

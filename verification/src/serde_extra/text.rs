use vstd::prelude::*;
use vstd::utf8::{decode_utf8, encode_utf8, valid_utf8};
use crate::bencode::dict::bytes_to_vec;
use crate::bencode::encode::{int_text, write_int};

verus! {

/// Reads UTF-8 bytes as a text with `String::from_utf8`: the text that the
/// bytes encode, and none where the bytes are not UTF-8.
#[verifier::external_body]
pub(crate) fn text_of_utf8(bytes: Vec<u8>) -> (text: Option<String>)
    ensures
        match text {
            Some(s) => valid_utf8(bytes@) && s@ == decode_utf8(bytes@),
            None => !valid_utf8(bytes@),
        },
{
    match String::from_utf8(bytes) {
        Ok(s) => Some(s),
        Err(_) => None,
    }
}

/// The UTF-8 bytes of a text.
pub fn utf8_of_text(text: &String) -> (bytes: Vec<u8>)
    ensures
        bytes@ == encode_utf8(text@),
{
    bytes_to_vec(text.as_str().as_bytes())
}

/// Appends a character to a text with `String::push`.
#[verifier::external_body]
pub(crate) fn push_char(text: &mut String, c: char)
    ensures
        final(text)@ == old(text)@.push(c),
{
    text.push(c)
}

/// Appends a text to a text with `String::push_str`.
#[verifier::external_body]
pub(crate) fn push_str(text: &mut String, more: &str)
    ensures
        final(text)@ == old(text)@ + more@,
{
    text.push_str(more)
}

/// The decimal text of an integer, as characters.
pub open spec fn int_chars(i: int) -> Seq<char> {
    Seq::new(int_text(i).len(), |k: int| int_text(i)[k] as char)
}

/// Appends the decimal text of an integer.
pub fn push_int(text: &mut String, i: i64)
    ensures
        final(text)@ == old(text)@ + int_chars(i as int),
{
    let mut digits: Vec<u8> = Vec::new();
    write_int(i, &mut digits);
    assert(digits@ =~= int_text(i as int));
    let mut k: usize = 0;
    while k < digits.len()
        invariant
            k <= digits.len(),
            digits@ == int_text(i as int),
            text@ == old(text)@ + int_chars(i as int).subrange(0, k as int),
        decreases digits.len() - k,
    {
        push_char(text, digits[k] as char);
        assert(text@ =~= old(text)@ + int_chars(i as int).subrange(0, k + 1));
        k += 1;
    }
    assert(int_chars(i as int).subrange(0, k as int) =~= int_chars(i as int));
}

} // verus!

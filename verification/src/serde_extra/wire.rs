use vstd::prelude::*;
use crate::bencode::encode::encoding;
use crate::bencode::laws::lemma_parse_inverts_encoding;
use crate::bencode::parse::parse_all;
use crate::bencode::{Bencode, BencodeView};
use super::text::{int_chars, push_int, push_str};

verus! {

/// Why bytes or a bencode value could not be read as what was asked for.
#[derive(Debug, Clone, Copy, PartialEq, Eq)]
pub enum WireError {
    /// The bytes are not the encoding of a bencode value.
    Syntax,
    /// A value is of another kind than the one asked for.
    InvalidType,
    /// A list has another number of items than the one asked for.
    InvalidLength,
    /// A dictionary lacks a key that is required.
    MissingField,
    /// The envelope's `y` names no kind of message.
    UnknownVariant,
    /// A dictionary has the shape of none of the variants asked for.
    NoVariant,
    /// A text is not UTF-8.
    InvalidText,
    /// A compact socket address is not six bytes long.
    InvalidSocketAddr,
    /// A node identifier or a compact node list has a wrong length.
    MalformedNodeInfo,
    /// An integer is the code of no variant of the integer-tagged enum of
    /// the given name.
    UnknownValue(&'static str, i64),
    /// A method name is none of those supported.
    UnsupportedMethod,
}

impl WireError {
    /// What the error says.
    pub open spec fn message_of(self) -> Seq<char> {
        match self {
            WireError::Syntax => "invalid bencode"@,
            WireError::InvalidType => "invalid type"@,
            WireError::InvalidLength => "invalid length"@,
            WireError::MissingField => "missing field"@,
            WireError::UnknownVariant => "unknown variant"@,
            WireError::NoVariant => "data did not match any variant"@,
            WireError::InvalidText => "invalid text"@,
            WireError::InvalidSocketAddr => "invalid socket addr"@,
            WireError::MalformedNodeInfo => "Malformed compact node info"@,
            WireError::UnknownValue(name, value) => "unknown "@ + name@ + " value: "@
                + int_chars(value as int),
            WireError::UnsupportedMethod => "Unsupported method"@,
        }
    }

    /// What the error says.
    pub fn message(&self) -> (text: String)
        ensures
            text@ == self.message_of(),
    {
        match self {
            WireError::Syntax => "invalid bencode".to_owned(),
            WireError::InvalidType => "invalid type".to_owned(),
            WireError::InvalidLength => "invalid length".to_owned(),
            WireError::MissingField => "missing field".to_owned(),
            WireError::UnknownVariant => "unknown variant".to_owned(),
            WireError::NoVariant => "data did not match any variant".to_owned(),
            WireError::InvalidText => "invalid text".to_owned(),
            WireError::InvalidSocketAddr => "invalid socket addr".to_owned(),
            WireError::MalformedNodeInfo => "Malformed compact node info".to_owned(),
            WireError::UnknownValue(name, value) => {
                let mut text = "unknown ".to_owned();
                push_str(&mut text, name);
                push_str(&mut text, " value: ");
                push_int(&mut text, *value);
                text
            },
            WireError::UnsupportedMethod => "Unsupported method".to_owned(),
        }
    }
}

/// A type whose values can be told apart.
pub trait Same: View + Sized {
    /// Whether two values are the same.
    fn same(&self, other: &Self) -> (same: bool)
        ensures
            same == (self@ == other@),
    ;
}

/// A type with a bencode form.
pub trait Wire: View + Sized {
    /// Whether the value can be written: what is written is read back only
    /// for such values.
    spec fn writable(value: Self::V) -> bool;

    /// The bencode value that a value is written as.
    spec fn wire(value: Self::V) -> BencodeView;

    /// What a bencode value is read as.
    spec fn unwire(tree: BencodeView) -> Result<Self::V, WireError>;

    /// What was written is read back.
    proof fn lemma_round_trip(value: Self::V)
        requires
            Self::writable(value),
        ensures
            Self::unwire(Self::wire(value)) == Ok::<Self::V, WireError>(value),
    ;

    /// What is written has the keys of every dictionary in ascending order.
    proof fn lemma_sorted(value: Self::V)
        ensures
            Self::wire(value).sorted(),
    ;

    /// Writes the value.
    fn serialize(&self) -> (tree: Bencode)
        ensures
            tree@ == Self::wire(self@),
    ;

    /// Reads a value.
    fn deserialize(tree: &Bencode) -> (r: Result<Self, WireError>)
        ensures
            match r {
                Ok(value) => Self::unwire(tree@) == Ok::<Self::V, WireError>(value@),
                Err(e) => Self::unwire(tree@) == Err::<Self::V, WireError>(e),
            },
    ;
}

/// What bytes are read as where a value of `T` is asked for: they are to be
/// the encoding of one bencode value, and that value is to read as a `T`.
pub open spec fn read_as<T: Wire>(bytes: Seq<u8>) -> Result<T::V, WireError> {
    match parse_all(bytes) {
        Some(tree) => T::unwire(tree),
        None => Err(WireError::Syntax),
    }
}

/// The bytes that a value is written as.
pub fn to_bytes<T: Wire>(value: &T) -> (bytes: Vec<u8>)
    ensures
        bytes@ == encoding(T::wire(value@)),
{
    value.serialize().to_vec()
}

/// Reads a value from bytes.
pub fn from_bytes<T: Wire>(buf: &[u8]) -> (r: Result<T, WireError>)
    ensures
        match r {
            Ok(value) => read_as::<T>(buf@) == Ok::<T::V, WireError>(value@),
            Err(e) => read_as::<T>(buf@) == Err::<T::V, WireError>(e),
        },
{
    match Bencode::parse(buf) {
        Some(tree) => T::deserialize(&tree),
        None => Err(WireError::Syntax),
    }
}

/// The bytes of a writable value are read back as that value.
pub proof fn lemma_bytes_round_trip<T: Wire>(value: T::V)
    requires
        T::writable(value),
    ensures
        read_as::<T>(encoding(T::wire(value))) == Ok::<T::V, WireError>(value),
{
    lemma_parse_inverts_encoding(T::wire(value));
    T::lemma_round_trip(value);
}

} // verus!

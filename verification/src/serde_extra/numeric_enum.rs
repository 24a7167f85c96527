use vstd::prelude::*;
use crate::bencode::{Bencode, BencodeView};
use super::wire::WireError;

verus! {

/// An enum each of whose variants has a fixed integer, by which it is
/// written.
pub trait NumericEnum: Sized {
    /// The enum's name.
    spec fn name_of() -> &'static str;

    /// The variant's integer.
    spec fn code_of(self) -> i64;

    /// The variant that has the integer, if one has.
    spec fn of_code(code: i64) -> Option<Self>;

    /// Each variant is the one found under its integer.
    proof fn lemma_code_round_trip(self)
        ensures
            Self::of_code(self.code_of()) == Some(self),
    ;

    /// The enum's name.
    fn name() -> (name: &'static str)
        ensures
            name == Self::name_of(),
    ;

    /// The variant's integer.
    fn code(&self) -> (code: i64)
        ensures
            code == self.code_of(),
    ;

    /// The variant that has the integer.
    fn from_code(code: i64) -> (variant: Option<Self>)
        ensures
            variant == Self::of_code(code),
    ;
}

/// What a bencode value is read as where a variant is asked for.
pub open spec fn variant_of_tree<E: NumericEnum>(tree: BencodeView) -> Result<E, WireError> {
    match tree {
        BencodeView::Int(code) => match E::of_code(code) {
            Some(variant) => Ok(variant),
            None => Err(WireError::UnknownValue(E::name_of(), code)),
        },
        _ => Err(WireError::InvalidType),
    }
}

/// Writes a variant as its integer.
pub fn serialize<E: NumericEnum>(variant: &E) -> (tree: Bencode)
    ensures
        tree@ == BencodeView::Int(variant.code_of()),
{
    Bencode::Int(variant.code())
}

/// Reads a variant from its integer: an integer that no variant has is
/// refused, with the enum's name.
pub fn deserialize<E: NumericEnum>(tree: &Bencode) -> (r: Result<E, WireError>)
    ensures
        r == variant_of_tree::<E>(tree@),
{
    match tree.as_int() {
        Some(code) => match E::from_code(code) {
            Some(variant) => Ok(variant),
            None => Err(WireError::UnknownValue(E::name(), code)),
        },
        None => Err(WireError::InvalidType),
    }
}

} // verus!

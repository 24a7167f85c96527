use vstd::prelude::*;
use crate::bencode::{Bencode, BencodeView};

verus! {

/// What a flag is written as: the number one when it is set, and no field
/// at all when it is not.
pub open spec fn flag_wire(option: bool) -> Option<BencodeView> {
    if option {
        Some(BencodeView::Int(1))
    } else {
        None
    }
}

/// What a field is read as where a flag is asked for: set when the field is
/// there and holds the number one, not set in every other case.
pub open spec fn flag_of(field: Option<BencodeView>) -> bool {
    field == Some(BencodeView::Int(1))
}

/// A flag that was written is read back.
pub proof fn lemma_flag_round_trip(option: bool)
    ensures
        flag_of(flag_wire(option)) == option,
{
}

/// Writes a flag: the number one when it is set, nothing when it is not.
pub fn serialize(option: &bool) -> (field: Option<Bencode>)
    ensures
        match field {
            Some(tree) => flag_wire(*option) == Some(tree@),
            None => flag_wire(*option) is None,
        },
{
    if *option {
        Some(Bencode::Int(1))
    } else {
        None
    }
}

/// Reads a flag from a field that may be absent.
pub fn deserialize(field: Option<&Bencode>) -> (option: bool)
    ensures
        option == flag_of(
            match field {
                Some(tree) => Some(tree@),
                None => None,
            },
        ),
{
    match field {
        Some(tree) => match tree.as_int() {
            Some(i) => i == 1,
            None => false,
        },
        None => false,
    }
}

} // verus!

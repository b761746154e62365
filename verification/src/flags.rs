//! Flags: the ordered (capability, predicate) pairs that span the matrix.

use crate::bitmask::{valid_flag_count, MAX_FLAGS};
use vstd::prelude::*;
use vstd::string::StringExecFns;

verus! {

/// One flag: a capability and the predicate that switches it on.
///
/// Both are token text. The position of a flag in its list is the index of
/// its bit in every mask.
#[derive(Debug, Clone, PartialEq, Eq)]
pub struct FlagSpec {
    /// The supertrait bound that a variant gains when the predicate holds.
    pub capability: String,
    /// The `cfg` condition that decides whether the flag is active.
    pub predicate: String,
}

/// What a flag is to the contracts: its two texts.
pub struct FlagModel {
    pub capability: Seq<char>,
    pub predicate: Seq<char>,
}

impl View for FlagSpec {
    type V = FlagModel;

    open spec fn view(&self) -> FlagModel {
        FlagModel { capability: self.capability@, predicate: self.predicate@ }
    }
}

/// The models of a list of flags, in the same order.
pub open spec fn flag_models(flags: Seq<FlagSpec>) -> Seq<FlagModel> {
    flags.map_values(|f: FlagSpec| f@)
}

/// The capabilities of a list of flags, in the same order.
pub open spec fn capabilities(flags: Seq<FlagModel>) -> Seq<Seq<char>> {
    flags.map_values(|f: FlagModel| f.capability)
}

impl FlagSpec {
    /// A flag that grants `capability` where `predicate` holds.
    pub fn new(capability: &str, predicate: &str) -> (flag: FlagSpec)
        ensures
            flag@ == (FlagModel { capability: capability@, predicate: predicate@ }),
    {
        FlagSpec {
            capability: String::from_str(capability),
            predicate: String::from_str(predicate),
        }
    }
}

/// Whether `count` flags can be expanded: at least one, at most `MAX_FLAGS`.
pub fn count_is_valid(count: usize) -> (valid: bool)
    ensures
        valid == valid_flag_count(count as nat),
{
    1 <= count && count <= MAX_FLAGS
}

} // verus!

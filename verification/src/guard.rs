//! Guards: the condition under which one variant is the active one.
//!
//! A guard has one atom per flag, in flag order. The atom of flag `j` takes
//! the predicate as it stands where bit `j` of the mask is set, and negates
//! it where the bit is clear. So the guards of two different masks can never
//! hold together, and one of them holds whatever the predicates come to.

use crate::bitmask::{bit_at, bit_is_set};
use crate::flags::{flag_models, FlagModel, FlagSpec};
use crate::text::{join, joined, texts};
use vstd::prelude::*;
use vstd::string::StringExecFns;

verus! {

/// One conjunct of a guard: a predicate, taken as it stands or negated.
#[derive(Debug, Clone, PartialEq, Eq)]
pub struct Atom {
    /// The predicate of the flag that this atom belongs to.
    pub predicate: String,
    /// `true` where the atom states the predicate, `false` where it denies it.
    pub asserted: bool,
}

/// What an atom is to the contracts.
pub struct AtomModel {
    pub predicate: Seq<char>,
    pub asserted: bool,
}

impl View for Atom {
    type V = AtomModel;

    open spec fn view(&self) -> AtomModel {
        AtomModel { predicate: self.predicate@, asserted: self.asserted }
    }
}

/// The models of a list of atoms, in the same order.
pub open spec fn atom_models(atoms: Seq<Atom>) -> Seq<AtomModel> {
    atoms.map_values(|a: Atom| a@)
}

/// The guard of `mask`: atom `j` carries the predicate of flag `j` and states
/// it exactly where bit `j` of `mask` is set.
pub open spec fn guard_of(flags: Seq<FlagModel>, mask: nat) -> Seq<AtomModel> {
    Seq::new(
        flags.len(),
        |j: int| AtomModel { predicate: flags[j].predicate, asserted: bit_at(mask, j as nat) },
    )
}

/// The text of one atom: the predicate, wrapped in `not(..)` where denied.
pub open spec fn atom_text(atom: AtomModel) -> Seq<char> {
    if atom.asserted {
        atom.predicate
    } else {
        "not("@ + atom.predicate + ")"@
    }
}

/// The texts of a list of atoms, in the same order.
pub open spec fn atom_texts(guard: Seq<AtomModel>) -> Seq<Seq<char>> {
    guard.map_values(|a: AtomModel| atom_text(a))
}

/// The attribute that puts a definition under `guard`.
pub open spec fn guard_text(guard: Seq<AtomModel>) -> Seq<char> {
    "#[cfg(all("@ + joined(atom_texts(guard), ", "@) + "))]"@
}

/// Builds the guard of `mask` over `flags`.
pub fn build_guard(mask: usize, flags: &Vec<FlagSpec>) -> (guard: Vec<Atom>)
    ensures
        atom_models(guard@) == guard_of(flag_models(flags@), mask as nat),
{
    let mut guard: Vec<Atom> = Vec::new();
    let mut j: usize = 0;
    while j < flags.len()
        invariant
            j <= flags.len(),
            guard.len() == j,
            forall|k: int|
                0 <= k < j ==> (#[trigger] guard@[k])@ == (AtomModel {
                    predicate: flags@[k].predicate@,
                    asserted: bit_at(mask as nat, k as nat),
                }),
        decreases flags.len() - j,
    {
        let asserted = bit_is_set(mask, j);
        guard.push(Atom { predicate: flags[j].predicate.clone(), asserted });
        j += 1;
    }
    assert(atom_models(guard@) =~= guard_of(flag_models(flags@), mask as nat));
    guard
}

impl Atom {
    /// Writes the atom as it stands inside `all(..)`.
    pub fn render(&self) -> (out: String)
        ensures
            out@ == atom_text(self@),
    {
        if self.asserted {
            self.predicate.clone()
        } else {
            let mut out = String::from_str("not(");
            out.append(self.predicate.as_str());
            out.append(")");
            out
        }
    }
}

/// Writes the attribute that puts a definition under `guard`.
pub fn render_guard(guard: &Vec<Atom>) -> (out: String)
    ensures
        out@ == guard_text(atom_models(guard@)),
{
    let mut parts: Vec<String> = Vec::new();
    let mut j: usize = 0;
    while j < guard.len()
        invariant
            j <= guard.len(),
            parts.len() == j,
            forall|k: int| 0 <= k < j ==> (#[trigger] parts@[k])@ == atom_text(guard@[k]@),
        decreases guard.len() - j,
    {
        parts.push(guard[j].render());
        j += 1;
    }
    assert(texts(parts@) =~= atom_texts(atom_models(guard@)));
    let mut out = String::from_str("#[cfg(all(");
    out.append(join(&parts, ", ").as_str());
    out.append("))]");
    out
}

} // verus!

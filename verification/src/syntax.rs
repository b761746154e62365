//! Where `syn` is asked whether a text is well formed.
//!
//! `parse_bound`, `parse_meta` and `parse_trait` are believed, not proved.
//! Each hands one text to `syn::parse_str` and reports whether it was
//! accepted. The three predicates above them stand for `syn`'s answer in
//! the contracts of the rest of the crate; nothing is said of which texts
//! they hold of.
//!
//! `syn::parse_str` first turns the text into tokens with proc-macro2. This
//! crate asks for `syn` and `quote` without their `proc-macro` feature, so
//! proc-macro2 is built with its own lexer and no other: the compiler's is
//! never asked, inside a macro run or outside of one, and the answer to a
//! text is the same wherever the call is made.

use crate::error::{MatrixError, ParseSite};
use vstd::prelude::*;

verus! {

/// `syn::Error`: the reason that `syn` gives for refusing a text. It is
/// carried as far as `fault_at` and never looked into.
#[verifier::external_type_specification]
#[verifier::external_body]
pub struct ExSynError(syn::Error);

/// Whether `syn` reads `text` as exactly one `syn::TypeParamBound`.
pub uninterp spec fn is_bound_syntax(text: Seq<char>) -> bool;

/// Whether `syn` reads `text` as exactly one `syn::Meta`.
pub uninterp spec fn is_meta_syntax(text: Seq<char>) -> bool;

/// Whether `syn` reads `text` as exactly one `syn::ItemTrait`.
pub uninterp spec fn is_trait_syntax(text: Seq<char>) -> bool;

/// Calls `syn::parse_str::<syn::TypeParamBound>` and drops the parsed bound.
///
/// Claimed: whether the call returns `Ok` depends on the text alone, and
/// `is_bound_syntax` is the name of that answer.
#[verifier::external_body]
pub(crate) fn parse_bound(text: &str) -> (parsed: Result<(), syn::Error>)
    ensures
        parsed.is_ok() == is_bound_syntax(text@),
{
    match syn::parse_str::<syn::TypeParamBound>(text) {
        Ok(_) => Ok(()),
        Err(e) => Err(e),
    }
}

/// Calls `syn::parse_str::<syn::Meta>` and drops the parsed condition.
///
/// Claimed: whether the call returns `Ok` depends on the text alone, and
/// `is_meta_syntax` is the name of that answer.
#[verifier::external_body]
pub(crate) fn parse_meta(text: &str) -> (parsed: Result<(), syn::Error>)
    ensures
        parsed.is_ok() == is_meta_syntax(text@),
{
    match syn::parse_str::<syn::Meta>(text) {
        Ok(_) => Ok(()),
        Err(e) => Err(e),
    }
}

/// Calls `syn::parse_str::<syn::ItemTrait>` and drops the parsed definition.
///
/// Claimed: whether the call returns `Ok` depends on the text alone, and
/// `is_trait_syntax` is the name of that answer.
#[verifier::external_body]
pub(crate) fn parse_trait(text: &str) -> (parsed: Result<(), syn::Error>)
    ensures
        parsed.is_ok() == is_trait_syntax(text@),
{
    match syn::parse_str::<syn::ItemTrait>(text) {
        Ok(_) => Ok(()),
        Err(e) => Err(e),
    }
}

/// Turns `syn`'s answer about the part at `site` into the library's own:
/// nothing to report where the text was accepted, a parse error that names
/// `site` where it was not.
pub fn fault_at(parsed: Result<(), syn::Error>, site: ParseSite) -> (checked: Result<
    (),
    MatrixError,
>)
    ensures
        checked == if parsed.is_ok() {
            Ok::<(), MatrixError>(())
        } else {
            Err::<(), MatrixError>(MatrixError::Parse { site })
        },
{
    match parsed {
        Ok(_) => Ok(()),
        Err(_) => Err(MatrixError::Parse { site }),
    }
}

} // verus!

//! The ways in which a generation can fail. Every one of them ends the whole
//! generation: a declaration yields all of its variants or none.

use crate::bitmask::MAX_FLAGS;
use crate::text::{decimal, decimal_text};
use vstd::prelude::*;
use vstd::string::StringExecFns;

verus! {

/// The part of the input that `syn` could not read.
#[derive(Debug, Clone, Copy, PartialEq, Eq, Structural)]
pub enum ParseSite {
    /// The template itself is no trait definition.
    Template,
    /// The capability of the flag at this position is no supertrait bound.
    Capability(usize),
    /// The predicate of the flag at this position is no `cfg` condition.
    Predicate(usize),
}

/// Why no variants were generated.
#[derive(Debug, Clone, Copy, PartialEq, Eq, Structural)]
pub enum MatrixError {
    /// The declaration carries no flag, or more than `MAX_FLAGS` of them.
    Configuration { count: usize },
    /// A part of the input is malformed.
    Parse { site: ParseSite },
    /// The variant of this mask came out malformed although the template and
    /// every flag were accepted on their own. It happens where a template is
    /// not split where its bounds stand, and where a capability reads as a
    /// bound but may not stand among supertraits, as `use<'a>` does.
    InternalInvariant { mask: usize },
}

/// What is said of the part at `site`. Flags are counted from 0.
pub open spec fn site_text(site: ParseSite) -> Seq<char> {
    match site {
        ParseSite::Template => "the template is not a trait definition"@,
        ParseSite::Capability(j) => "flag "@ + decimal_text(j as nat)
            + ": the capability is not a trait bound"@,
        ParseSite::Predicate(j) => "flag "@ + decimal_text(j as nat)
            + ": the predicate is not a cfg condition"@,
    }
}

/// What is said of `error`. A configuration error names the limit and the
/// number of flags that were given.
pub open spec fn message_text(error: MatrixError) -> Seq<char> {
    match error {
        MatrixError::Configuration { count } => "expected 1 to "@ + decimal_text(MAX_FLAGS as nat)
            + " flags, found "@ + decimal_text(count as nat),
        MatrixError::Parse { site } => site_text(site),
        MatrixError::InternalInvariant { mask } => "variant "@ + decimal_text(mask as nat)
            + " came out malformed"@,
    }
}

impl ParseSite {
    /// Says which part of the input was malformed.
    pub fn message(&self) -> (out: String)
        ensures
            out@ == site_text(*self),
    {
        match self {
            ParseSite::Template => String::from_str("the template is not a trait definition"),
            ParseSite::Capability(j) => {
                let mut out = String::from_str("flag ");
                out.append(decimal(*j).as_str());
                out.append(": the capability is not a trait bound");
                out
            },
            ParseSite::Predicate(j) => {
                let mut out = String::from_str("flag ");
                out.append(decimal(*j).as_str());
                out.append(": the predicate is not a cfg condition");
                out
            },
        }
    }
}

impl MatrixError {
    /// Says what went wrong, for the one who wrote the declaration.
    pub fn message(&self) -> (out: String)
        ensures
            out@ == message_text(*self),
    {
        match self {
            MatrixError::Configuration { count } => {
                let mut out = String::from_str("expected 1 to ");
                out.append(decimal(MAX_FLAGS).as_str());
                out.append(" flags, found ");
                out.append(decimal(*count).as_str());
                out
            },
            MatrixError::Parse { site } => site.message(),
            MatrixError::InternalInvariant { mask } => {
                let mut out = String::from_str("variant ");
                out.append(decimal(*mask).as_str());
                out.append(" came out malformed");
                out
            },
        }
    }
}

} // verus!

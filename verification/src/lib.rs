//! Combinatorial expansion of one trait definition over a short list of flags.
//!
//! A flag pairs a capability (a supertrait bound) with a predicate (a `cfg`
//! condition). For `n` flags the generator yields `2^n` variants of the
//! template, one per assignment of the predicates to true or false. Each
//! variant is guarded by the conjunction that selects exactly its assignment
//! and is extended by the capabilities of the predicates it takes as true.
//!
//! Capabilities, predicates and the parts of the template are carried as
//! token text. The logic never looks inside them; `syn` decides whether a
//! text is well formed.
//!
//! - `bitmask`: masks, their bits, and the walk over all masks of `n` flags.
//! - `flags`, `guard`, `template`: the data and what one mask makes of it.
//! - `generator`: all variants of a declaration, checked and written out.
//! - `syntax`: the calls into `syn`, which are believed, not proved.
//! - `laws`: what is proved of every generation.
//! - `error`, `text`: failures and their messages; joining and numerals.

pub mod bitmask;
pub mod error;
pub mod flags;
pub mod generator;
pub mod guard;
pub mod laws;
pub mod syntax;
pub mod template;
pub mod text;

pub use generator::cfg_matrix;

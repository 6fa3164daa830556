//! Conditionally const syntax: rewrites code that marks const-ness with the
//! placeholder `c0nst` either for stable Rust, where the marks vanish, or for
//! nightly Rust, where they become native `const` syntax.
//!
//! Two engines do the work. The token engine ([`convert`]) rewrites a token
//! sequence with a fixed table of patterns ([`rule`]). The structural engine
//! ([`xform`]) rebuilds declarations from their rewritten parts, resolving the
//! `#[c0nst]` attribute and the wrapper bounds `c0nst<Trait>` and
//! `?c0nst<Trait>` ([`bounds`]).
use vstd::prelude::*;

pub mod attrs;
pub mod bounds;
pub mod convert;
pub mod rule;
pub mod subslice;
pub mod syntax;
pub mod token;
pub mod xform;

pub use convert::{Convert, Target};

verus! {

} // verus!

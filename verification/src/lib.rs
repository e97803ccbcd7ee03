//! A post-link static-analysis core for compiled WebAssembly modules.
//!
//! The host decodes a binary once into a plain [`model::ModuleInfo`] snapshot;
//! the four read-only passes then run over it in any order:
//!
//! - split-point discovery from the marker naming convention on imports and
//!   exports ([`helpers::accumulate_split_points`]),
//! - indirect-call-site classification ([`helpers::accumulate_indirect_fns`]),
//! - active-table enumeration ([`helpers::accumulate_active_segments`]),
//! - relocation decoding and per-function bucketing
//!   ([`relocations::accumulate_relocations`]).
//!
//! Every pass is a pure function of the snapshot: it either completes, or
//! fails fast with an explicit [`errors::AnalysisError`] value.

use vstd::prelude::*;

pub mod errors;
pub mod helpers;
pub mod marker;
pub mod model;
pub mod relocations;

verus! {

/// A stable, dense identity for a function of the analyzed module, assigned
/// by the module provider: the function's index in
/// [`model::ModuleInfo::functions`]. It is the sole key of every per-function
/// result; names never substitute for it, since names may be absent or
/// duplicated.
pub type FunctionRef = usize;

} // verus!

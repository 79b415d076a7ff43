//! Configuration accepted by the debugging harnesses that sit around
//! the compiler core and display inferred declarations and per-query
//! results. The analysis itself reads none of these flags; they only
//! steer how an external consumer reports.

use vstd::prelude::*;

verus! {

/// Flags for a harness that runs inference over a source snippet and
/// prints what it found.
#[derive(Clone, Copy)]
pub struct InferOptions {
    /// Also pretty-print the canonicalized declarations.
    pub print_can_decls: bool,
    /// Print types as seen underneath aliases.
    pub print_only_under_alias: bool,
    /// Keep going when the source has canonicalization or type problems.
    pub allow_errors: bool,
}

impl Default for InferOptions {
    /// Every flag starts switched off.
    fn default() -> (r: Self)
        ensures
            !r.print_can_decls,
            !r.print_only_under_alias,
            !r.allow_errors,
    {
        InferOptions { print_can_decls: false, print_only_under_alias: false, allow_errors: false }
    }
}

} // verus!

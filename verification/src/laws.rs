//! The promises the analysis makes to its consumers, each proved once
//! and for all from `analysis_of`, the contract that `analyze`
//! establishes, and the usage model of `crate::expr`.

use vstd::prelude::*;

use crate::expr::Expr;
use crate::expr::Symbol;
use crate::expr::lemma_branches_max_uses_ge;
use crate::expr::lemma_branches_max_uses_le;
use crate::expr::max_uses;
use crate::expr::sum_uses;
use crate::sharing::analysis_of;
use crate::sharing::classify;
use crate::usage::ReferenceCount;
use crate::usage::entry_of;

verus! {

/// A symbol that every execution path reads exactly once — a single
/// sequential use, or one use per mutually exclusive branch — is
/// classified `Unique`.
pub proof fn lemma_single_use_unique(e: Expr, m: Map<Symbol, ReferenceCount>, s: Symbol)
    requires
        analysis_of(e, m),
        max_uses(e, s) == 1,
    ensures
        entry_of(m, s) == Some(ReferenceCount::Unique),
{
    assert(entry_of(m, s) == classify(None, max_uses(e, s)));
}

/// A symbol that some execution path reads at least twice — twice in
/// sequence, or in a scrutinee and again in a branch — is classified
/// `Shared`.
pub proof fn lemma_repeated_use_shared(e: Expr, m: Map<Symbol, ReferenceCount>, s: Symbol)
    requires
        analysis_of(e, m),
        max_uses(e, s) >= 2,
    ensures
        entry_of(m, s) == Some(ReferenceCount::Shared),
{
    assert(entry_of(m, s) == classify(None, max_uses(e, s)));
}

/// A symbol read once inside one branch of a case, and nowhere else,
/// stays `Unique`: the other branches are mutually exclusive with that
/// use, so they add nothing.
pub proof fn lemma_branch_confined_use_unique(
    e: Expr,
    m: Map<Symbol, ReferenceCount>,
    s: Symbol,
    k: int,
)
    requires
        analysis_of(e, m),
        e is Case,
        max_uses(*(e->Case_0), s) == 0,
        0 <= k < (e->Case_1)@.len(),
        max_uses((e->Case_1)@[k].1, s) == 1,
        forall|j: int|
            0 <= j < (e->Case_1)@.len() && j != k ==> max_uses(
                (#[trigger] (e->Case_1)@[j]).1,
                s,
            ) == 0,
    ensures
        entry_of(m, s) == Some(ReferenceCount::Unique),
{
    let branches = (e->Case_1)@;
    lemma_branches_max_uses_ge(branches, s, k);
    lemma_branches_max_uses_le(branches, s, 1);
    lemma_single_use_unique(e, m, s);
}

/// A use in the scrutinee together with a use in any branch lies on one
/// and the same path, so it forces `Shared`.
pub proof fn lemma_scrutinee_and_branch_shared(
    e: Expr,
    m: Map<Symbol, ReferenceCount>,
    s: Symbol,
    k: int,
)
    requires
        analysis_of(e, m),
        e is Case,
        max_uses(*(e->Case_0), s) >= 1,
        0 <= k < (e->Case_1)@.len(),
        max_uses((e->Case_1)@[k].1, s) >= 1,
    ensures
        entry_of(m, s) == Some(ReferenceCount::Shared),
{
    lemma_branches_max_uses_ge((e->Case_1)@, s, k);
    lemma_repeated_use_shared(e, m, s);
}

/// The callee symbol of a statically-resolved call counts as one use:
/// it always has an entry, and any further use of the same symbol among
/// the arguments forces `Shared`.
pub proof fn lemma_call_target_use(e: Expr, m: Map<Symbol, ReferenceCount>)
    requires
        analysis_of(e, m),
        e is CallByName,
    ensures
        m.contains_key(e->CallByName_0),
        sum_uses((e->CallByName_1)@, e->CallByName_0) >= 1 ==> entry_of(m, e->CallByName_0)
            == Some(ReferenceCount::Shared),
{
    let f = e->CallByName_0;
    assert(max_uses(e, f) == 1 + sum_uses((e->CallByName_1)@, f));
    assert(entry_of(m, f) == classify(None, max_uses(e, f)));
}

/// A symbol that the analyzed expression never mentions has no entry at
/// all: absence, not a default classification, records zero uses.
pub proof fn lemma_unreferenced_absent(e: Expr, m: Map<Symbol, ReferenceCount>, s: Symbol)
    requires
        analysis_of(e, m),
        max_uses(e, s) == 0,
    ensures
        !m.contains_key(s),
{
    assert(entry_of(m, s) == classify(None, max_uses(e, s)));
}

/// Analyzing the same immutable tree twice yields identical usage maps:
/// the result is a function of the tree alone, with no hidden state.
pub proof fn lemma_reanalysis_identical(
    e: Expr,
    m1: Map<Symbol, ReferenceCount>,
    m2: Map<Symbol, ReferenceCount>,
)
    requires
        analysis_of(e, m1),
        analysis_of(e, m2),
    ensures
        m1 == m2,
{
    assert forall|s: Symbol| #[trigger] m1.contains_key(s) == m2.contains_key(s) by {
        assert(entry_of(m1, s) == classify(None, max_uses(e, s)));
        assert(entry_of(m2, s) == classify(None, max_uses(e, s)));
    }
    assert forall|s: Symbol| m1.contains_key(s) implies #[trigger] m1[s] == m2[s] by {
        assert(entry_of(m1, s) == classify(None, max_uses(e, s)));
        assert(entry_of(m2, s) == classify(None, max_uses(e, s)));
    }
    assert(m1.dom() =~= m2.dom());
    assert(m1 =~= m2);
}

/// A case nested inside one branch of an outer case composes: when the
/// inner case's branches are the only places that read the symbol, each
/// at most once and at least one exactly once, the symbol still ends
/// `Unique` — no path through the nest reads it twice.
pub proof fn lemma_nested_case_unique(
    e: Expr,
    m: Map<Symbol, ReferenceCount>,
    s: Symbol,
    k: int,
    j: int,
)
    requires
        analysis_of(e, m),
        e is Case,
        max_uses(*(e->Case_0), s) == 0,
        0 <= k < (e->Case_1)@.len(),
        forall|i: int|
            0 <= i < (e->Case_1)@.len() && i != k ==> max_uses(
                (#[trigger] (e->Case_1)@[i]).1,
                s,
            ) == 0,
        (e->Case_1)@[k].1 is Case,
        max_uses(*((e->Case_1)@[k].1->Case_0), s) == 0,
        0 <= j < ((e->Case_1)@[k].1->Case_1)@.len(),
        max_uses(((e->Case_1)@[k].1->Case_1)@[j].1, s) == 1,
        forall|i: int|
            0 <= i < ((e->Case_1)@[k].1->Case_1)@.len() ==> max_uses(
                (#[trigger] ((e->Case_1)@[k].1->Case_1)@[i]).1,
                s,
            ) <= 1,
    ensures
        entry_of(m, s) == Some(ReferenceCount::Unique),
{
    let inner = (e->Case_1)@[k].1;
    let inner_branches = (inner->Case_1)@;
    lemma_branches_max_uses_ge(inner_branches, s, j);
    lemma_branches_max_uses_le(inner_branches, s, 1);
    assert(max_uses(inner, s) == 1);
    let branches = (e->Case_1)@;
    lemma_branches_max_uses_ge(branches, s, k);
    assert forall|i: int|
        0 <= i < branches.len() implies max_uses((#[trigger] branches[i]).1, s) <= 1 by {
        if i != k {
            assert(max_uses(branches[i].1, s) == 0);
        }
    }
    lemma_branches_max_uses_le(branches, s, 1);
    lemma_single_use_unique(e, m, s);
}

} // verus!

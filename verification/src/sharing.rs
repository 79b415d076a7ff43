//! The usage classifier: a single depth-first traversal that registers
//! every symbol reference, forks an isolated copy of the map for each
//! case branch, and folds the branch results back with the
//! alternative-path merge.
//!
//! The whole behaviour is summed up by one spec function, `classify`:
//! after analyzing `e`, the entry a map holds for a symbol `s` is
//! exactly `classify(prior entry, max_uses(e, s))`. In particular, on an
//! empty starting map a symbol ends `Unique` if and only if every
//! execution path through `e` reads it at most once, and it has an entry
//! if and only if some path reads it at all.

use vstd::prelude::*;

use crate::expr::Expr;
use crate::expr::Pattern;
use crate::expr::Symbol;
use crate::expr::branches_max_uses;
use crate::expr::defs_sum_uses;
use crate::expr::fields_sum_uses;
use crate::expr::max_uses;
use crate::expr::nat_max;
use crate::expr::sum_uses;
use crate::usage::ReferenceCount;
use crate::usage::UsageMap;
use crate::usage::entry_of;
use crate::usage::merge_entry;

verus! {

/// What a map entry becomes after `n` further certain sequential uses
/// land on it: no use leaves it alone; a first use on an absent entry
/// yields `Unique`; anything more, or any use on an existing entry,
/// yields `Shared`.
pub open spec fn classify(prior: Option<ReferenceCount>, n: nat) -> Option<ReferenceCount> {
    if n == 0 {
        prior
    } else if prior is None && n == 1 {
        Some(ReferenceCount::Unique)
    } else {
        Some(ReferenceCount::Shared)
    }
}

/// The result of analyzing `e` on an empty starting map: every symbol's
/// entry is decided by the greatest number of reads along one path.
pub open spec fn analysis_of(e: Expr, m: Map<Symbol, ReferenceCount>) -> bool {
    forall|s: Symbol| #[trigger] entry_of(m, s) == classify(None, max_uses(e, s))
}

/// Merging two branch outcomes grown from the same fork point agrees
/// with classifying by the larger branch count: the heart of why the
/// per-branch copy plus `or`-merge is sound and precise.
proof fn lemma_merge_classify(prior: Option<ReferenceCount>, m: nat, b: nat)
    ensures
        merge_entry(classify(prior, m), classify(prior, b)) == classify(prior, nat_max(m, b)),
{
}

/// Note one certain use of `symbol`: a first reference enters as
/// `Unique`; any further sequential reference forces `Shared`.
fn register(symbol: &Symbol, usage: &mut UsageMap)
    ensures
        forall|s: Symbol|
            #[trigger] entry_of(final(usage)@, s) == classify(
                entry_of(old(usage)@, s),
                if s == *symbol {
                    1nat
                } else {
                    0nat
                },
            ),
{
    let value = match usage.get(*symbol) {
        None => ReferenceCount::Unique,
        Some(current) => ReferenceCount::add(&current, &ReferenceCount::Unique),
    };
    usage.insert(*symbol, value);
}

/// Analyze every expression of `es` in order against the same map:
/// sequential accumulation, used for list elements and call arguments.
fn analyze_each(es: &Vec<Expr>, usage: &mut UsageMap)
    ensures
        forall|s: Symbol|
            #[trigger] entry_of(final(usage)@, s) == classify(
                entry_of(old(usage)@, s),
                sum_uses(es@, s),
            ),
    decreases es@,
{
    let ghost pre = usage@;
    let n = es.len();
    let mut i: usize = 0;
    while i < n
        invariant
            n == es@.len(),
            i <= n,
            pre == old(usage)@,
            forall|s: Symbol|
                #[trigger] entry_of(usage@, s) == classify(
                    entry_of(pre, s),
                    sum_uses(es@.take(i as int), s),
                ),
        decreases n - i,
    {
        let ghost prev = usage@;
        sharing_analysis(&es[i], usage);
        proof {
            assert(es@.take(i as int + 1).drop_last() =~= es@.take(i as int));
            assert(es@.take(i as int + 1).last() == es@[i as int]);
            assert forall|s: Symbol|
                #[trigger] entry_of(usage@, s) == classify(
                    entry_of(pre, s),
                    sum_uses(es@.take(i as int + 1), s),
                ) by {
                assert(entry_of(usage@, s) == classify(
                    entry_of(prev, s),
                    max_uses(es@[i as int], s),
                ));
                assert(entry_of(prev, s) == classify(
                    entry_of(pre, s),
                    sum_uses(es@.take(i as int), s),
                ));
            }
        }
        i += 1;
    }
    proof {
        assert(es@.take(n as int) =~= es@);
    }
}

/// Analyze every field value of a record in order: sequential
/// accumulation, since every field is evaluated on every path.
fn analyze_fields(fields: &Vec<(String, Expr)>, usage: &mut UsageMap)
    ensures
        forall|s: Symbol|
            #[trigger] entry_of(final(usage)@, s) == classify(
                entry_of(old(usage)@, s),
                fields_sum_uses(fields@, s),
            ),
    decreases fields@,
{
    let ghost pre = usage@;
    let n = fields.len();
    let mut i: usize = 0;
    while i < n
        invariant
            n == fields@.len(),
            i <= n,
            pre == old(usage)@,
            forall|s: Symbol|
                #[trigger] entry_of(usage@, s) == classify(
                    entry_of(pre, s),
                    fields_sum_uses(fields@.take(i as int), s),
                ),
        decreases n - i,
    {
        let ghost prev = usage@;
        sharing_analysis(&fields[i].1, usage);
        proof {
            assert(fields@.take(i as int + 1).drop_last() =~= fields@.take(i as int));
            assert(fields@.take(i as int + 1).last() == fields@[i as int]);
            assert forall|s: Symbol|
                #[trigger] entry_of(usage@, s) == classify(
                    entry_of(pre, s),
                    fields_sum_uses(fields@.take(i as int + 1), s),
                ) by {
                assert(entry_of(usage@, s) == classify(
                    entry_of(prev, s),
                    max_uses(fields@[i as int].1, s),
                ));
                assert(entry_of(prev, s) == classify(
                    entry_of(pre, s),
                    fields_sum_uses(fields@.take(i as int), s),
                ));
            }
        }
        i += 1;
    }
    proof {
        assert(fields@.take(n as int) =~= fields@);
    }
}

/// Analyze every definition's value of a block in order: sequential
/// accumulation, since every binding executes on every path.
fn analyze_defs(defs: &Vec<(Pattern, Expr)>, usage: &mut UsageMap)
    ensures
        forall|s: Symbol|
            #[trigger] entry_of(final(usage)@, s) == classify(
                entry_of(old(usage)@, s),
                defs_sum_uses(defs@, s),
            ),
    decreases defs@,
{
    let ghost pre = usage@;
    let n = defs.len();
    let mut i: usize = 0;
    while i < n
        invariant
            n == defs@.len(),
            i <= n,
            pre == old(usage)@,
            forall|s: Symbol|
                #[trigger] entry_of(usage@, s) == classify(
                    entry_of(pre, s),
                    defs_sum_uses(defs@.take(i as int), s),
                ),
        decreases n - i,
    {
        let ghost prev = usage@;
        sharing_analysis(&defs[i].1, usage);
        proof {
            assert(defs@.take(i as int + 1).drop_last() =~= defs@.take(i as int));
            assert(defs@.take(i as int + 1).last() == defs@[i as int]);
            assert forall|s: Symbol|
                #[trigger] entry_of(usage@, s) == classify(
                    entry_of(pre, s),
                    defs_sum_uses(defs@.take(i as int + 1), s),
                ) by {
                assert(entry_of(usage@, s) == classify(
                    entry_of(prev, s),
                    max_uses(defs@[i as int].1, s),
                ));
                assert(entry_of(prev, s) == classify(
                    entry_of(pre, s),
                    defs_sum_uses(defs@.take(i as int), s),
                ));
            }
        }
        i += 1;
    }
    proof {
        assert(defs@.take(n as int) =~= defs@);
    }
}

/// Analyze every branch body against its own copy of `snapshot`, the
/// map as it stood after the scrutinee, and fold each branch-local
/// result back into `usage` with the alternative-path merge. On entry
/// `usage` must still equal the snapshot; afterwards each symbol's
/// entry reflects only the largest branch count, never a sum.
fn analyze_branches(branches: &Vec<(Pattern, Expr)>, snapshot: &UsageMap, usage: &mut UsageMap)
    requires
        old(usage)@ == snapshot@,
    ensures
        forall|s: Symbol|
            #[trigger] entry_of(final(usage)@, s) == classify(
                entry_of(old(usage)@, s),
                branches_max_uses(branches@, s),
            ),
    decreases branches@,
{
    let ghost snap = snapshot@;
    let n = branches.len();
    let mut i: usize = 0;
    while i < n
        invariant
            n == branches@.len(),
            i <= n,
            snap == snapshot@,
            snap == old(usage)@,
            forall|s: Symbol|
                #[trigger] entry_of(usage@, s) == classify(
                    entry_of(snap, s),
                    branches_max_uses(branches@.take(i as int), s),
                ),
        decreases n - i,
    {
        let mut local = snapshot.duplicate();
        sharing_analysis(&branches[i].1, &mut local);
        let ghost outer_prev = usage@;
        usage.merge_or(&local);
        proof {
            assert(branches@.take(i as int + 1).drop_last() =~= branches@.take(i as int));
            assert(branches@.take(i as int + 1).last() == branches@[i as int]);
            assert forall|s: Symbol|
                #[trigger] entry_of(usage@, s) == classify(
                    entry_of(snap, s),
                    branches_max_uses(branches@.take(i as int + 1), s),
                ) by {
                assert(entry_of(usage@, s) == merge_entry(
                    entry_of(outer_prev, s),
                    entry_of(local@, s),
                ));
                assert(entry_of(local@, s) == classify(
                    entry_of(snap, s),
                    max_uses(branches@[i as int].1, s),
                ));
                assert(entry_of(outer_prev, s) == classify(
                    entry_of(snap, s),
                    branches_max_uses(branches@.take(i as int), s),
                ));
                lemma_merge_classify(
                    entry_of(snap, s),
                    branches_max_uses(branches@.take(i as int), s),
                    max_uses(branches@[i as int].1, s),
                );
            }
        }
        i += 1;
    }
    proof {
        assert(branches@.take(n as int) =~= branches@);
    }
}

/// Walk `expr` once, depth first, updating `usage` so that afterwards
/// every symbol's entry reflects its prior entry plus the uses that
/// `expr` adds: `classify(prior, max_uses(expr, s))`. Mutually exclusive
/// case branches are analyzed against isolated copies of the map taken
/// at the fork, so a use confined to one branch never forces `Shared`.
pub fn sharing_analysis(expr: &Expr, usage: &mut UsageMap)
    ensures
        forall|s: Symbol|
            #[trigger] entry_of(final(usage)@, s) == classify(
                entry_of(old(usage)@, s),
                max_uses(*expr, s),
            ),
    decreases *expr,
{
    match expr {
        Expr::Var(symbol) => {
            register(symbol, usage);
        },
        Expr::FunctionPointer(symbol) => {
            register(symbol, usage);
        },
        Expr::Int(_) | Expr::Float | Expr::Str(_) | Expr::BlockStr(_) | Expr::EmptyRecord
        | Expr::RuntimeError => {
        },
        Expr::List(elements) => {
            analyze_each(elements, usage);
        },
        Expr::Record(fields) => {
            analyze_fields(fields, usage);
        },
        Expr::Field(base, _) => {
            sharing_analysis(base, usage);
        },
        Expr::Case(scrutinee, branches) => {
            sharing_analysis(scrutinee, usage);
            let snapshot = usage.duplicate();
            analyze_branches(branches, &snapshot, usage);
        },
        Expr::Defs(defs, body) => {
            analyze_defs(defs, usage);
            sharing_analysis(body, usage);
        },
        Expr::CallByName(symbol, args) => {
            register(symbol, usage);
            analyze_each(args, usage);
        },
        Expr::CallPointer(callee, args) => {
            sharing_analysis(callee, usage);
            analyze_each(args, usage);
        },
    }
}

/// Analyze one expression from scratch: the per-definition entry point.
/// The returned map is exactly the invariant promised of the analysis:
/// a symbol has an entry if and only if some execution path through
/// `expr` reads it, and the entry is `Unique` if and only if no path
/// reads it more than once.
pub fn analyze(expr: &Expr) -> (usage: UsageMap)
    ensures
        analysis_of(*expr, usage@),
        forall|s: Symbol| #[trigger] usage@.contains_key(s) <==> max_uses(*expr, s) >= 1,
        forall|s: Symbol|
            #[trigger] usage@.contains_key(s) ==> (usage@[s] == ReferenceCount::Unique <==> max_uses(
                *expr,
                s,
            ) == 1),
{
    let mut usage = UsageMap::new();
    sharing_analysis(expr, &mut usage);
    proof {
        assert forall|s: Symbol| #[trigger] usage@.contains_key(s) <==> max_uses(*expr, s) >= 1 by {
            assert(entry_of(usage@, s) == classify(None, max_uses(*expr, s)));
        }
        assert forall|s: Symbol| #[trigger] usage@.contains_key(s) implies (usage@[s]
            == ReferenceCount::Unique <==> max_uses(*expr, s) == 1) by {
            assert(entry_of(usage@, s) == classify(None, max_uses(*expr, s)));
        }
    }
    usage
}

} // verus!

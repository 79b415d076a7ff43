//! The canonicalized expression tree that the classifier walks, and the
//! mathematical model of symbol usage: for each symbol, the greatest
//! number of times it can be read along any single execution path.

use vstd::prelude::*;

verus! {

/// An identity-unique handle for a named binding (a function parameter, a
/// let-bound name, a pattern-matched name, or a top-level definition).
/// Symbols are compared by identity alone; display names are resolved by
/// the canonicalization stage and play no part here.
#[derive(Clone, Copy, Debug, PartialEq, Eq, Hash, Structural)]
pub struct Symbol {
    pub id: u64,
}

/// A binding pattern. The classifier never reads patterns: a pattern
/// introduces symbols, it does not use them. Patterns are carried so that
/// case branches and definition blocks keep their full shape.
pub enum Pattern {
    /// Binds one symbol.
    Identifier(Symbol),
    /// Binds nothing.
    Underscore,
}

/// A canonicalized expression. Every variable, closure-value and
/// call-target reference already carries a resolved symbol; no name
/// lookup happens in this crate.
pub enum Expr {
    /// A reference to a named binding: one use of the symbol.
    Var(Symbol),
    /// A reference to a closure value by its symbol: one use.
    FunctionPointer(Symbol),
    /// An integer literal; contributes no usages.
    Int(i64),
    /// A fractional literal; its numeric value plays no part in the
    /// analysis, so none is carried.
    Float,
    /// A string literal; contributes no usages.
    Str(String),
    /// A block string literal; contributes no usages.
    BlockStr(String),
    /// The empty record literal; contributes no usages.
    EmptyRecord,
    /// A placeholder for code that failed an earlier compiler stage;
    /// carries no bindings and contributes no usages.
    RuntimeError,
    /// A list of element expressions, all evaluated on every path.
    List(Vec<Expr>),
    /// A record of named fields, all evaluated on every path.
    Record(Vec<(String, Expr)>),
    /// Field access on a record-valued expression.
    Field(Box<Expr>, String),
    /// A pattern match: one scrutinee plus an ordered set of branches, of
    /// which exactly one body runs per evaluation.
    Case(Box<Expr>, Vec<(Pattern, Expr)>),
    /// A block of local definitions followed by a body; every
    /// definition's value and the body are evaluated on every path.
    Defs(Vec<(Pattern, Expr)>, Box<Expr>),
    /// A statically-resolved call: the callee's symbol plus arguments.
    /// The callee symbol itself counts as one use.
    CallByName(Symbol, Vec<Expr>),
    /// A dynamically-resolved call: a callee expression plus arguments.
    CallPointer(Box<Expr>, Vec<Expr>),
}

/// The larger of two naturals.
pub open spec fn nat_max(a: nat, b: nat) -> nat {
    if a >= b {
        a
    } else {
        b
    }
}

/// The greatest number of times symbol `s` can be read along any single
/// execution path through `e`. Sequential parts add their counts, since
/// both certainly execute; the branches of a case contribute only the
/// largest count among them, since exactly one branch runs.
pub open spec fn max_uses(e: Expr, s: Symbol) -> nat
    decreases e,
{
    match e {
        Expr::Var(sym) => if sym == s {
            1nat
        } else {
            0nat
        },
        Expr::FunctionPointer(sym) => if sym == s {
            1nat
        } else {
            0nat
        },
        Expr::Int(_) => 0nat,
        Expr::Float => 0nat,
        Expr::Str(_) => 0nat,
        Expr::BlockStr(_) => 0nat,
        Expr::EmptyRecord => 0nat,
        Expr::RuntimeError => 0nat,
        Expr::List(elements) => sum_uses(elements@, s),
        Expr::Record(fields) => fields_sum_uses(fields@, s),
        Expr::Field(base, _) => max_uses(*base, s),
        Expr::Case(scrutinee, branches) => max_uses(*scrutinee, s) + branches_max_uses(
            branches@,
            s,
        ),
        Expr::Defs(defs, body) => defs_sum_uses(defs@, s) + max_uses(*body, s),
        Expr::CallByName(callee, args) => (
        if callee == s {
            1nat
        } else {
            0nat
        }) + sum_uses(args@, s),
        Expr::CallPointer(callee, args) => max_uses(*callee, s) + sum_uses(args@, s),
    }
}

/// Total uses of `s` over a sequence of expressions that all execute.
pub open spec fn sum_uses(es: Seq<Expr>, s: Symbol) -> nat
    decreases es,
{
    if es.len() == 0 {
        0nat
    } else {
        sum_uses(es.drop_last(), s) + max_uses(es.last(), s)
    }
}

/// Total uses of `s` over the field values of a record.
pub open spec fn fields_sum_uses(fields: Seq<(String, Expr)>, s: Symbol) -> nat
    decreases fields,
{
    if fields.len() == 0 {
        0nat
    } else {
        fields_sum_uses(fields.drop_last(), s) + max_uses(fields.last().1, s)
    }
}

/// Total uses of `s` over the values of a definitions block.
pub open spec fn defs_sum_uses(defs: Seq<(Pattern, Expr)>, s: Symbol) -> nat
    decreases defs,
{
    if defs.len() == 0 {
        0nat
    } else {
        defs_sum_uses(defs.drop_last(), s) + max_uses(defs.last().1, s)
    }
}

/// The greatest number of uses of `s` in any single branch body of a
/// case: branches are mutually exclusive, so their counts do not add.
pub open spec fn branches_max_uses(branches: Seq<(Pattern, Expr)>, s: Symbol) -> nat
    decreases branches,
{
    if branches.len() == 0 {
        0nat
    } else {
        nat_max(branches_max_uses(branches.drop_last(), s), max_uses(branches.last().1, s))
    }
}

/// Any single branch's count bounds the branch maximum from below.
pub proof fn lemma_branches_max_uses_ge(branches: Seq<(Pattern, Expr)>, s: Symbol, j: int)
    requires
        0 <= j < branches.len(),
    ensures
        branches_max_uses(branches, s) >= max_uses(branches[j].1, s),
    decreases branches.len(),
{
    if j == branches.len() - 1 {
        assert(branches.last() == branches[j]);
    } else {
        lemma_branches_max_uses_ge(branches.drop_last(), s, j);
        assert(branches.drop_last()[j] == branches[j]);
    }
}

/// A bound that holds of every branch's count bounds the branch maximum.
pub proof fn lemma_branches_max_uses_le(branches: Seq<(Pattern, Expr)>, s: Symbol, bound: nat)
    requires
        forall|j: int| 0 <= j < branches.len() ==> max_uses((#[trigger] branches[j]).1, s) <= bound,
    ensures
        branches_max_uses(branches, s) <= bound,
    decreases branches.len(),
{
    if branches.len() > 0 {
        assert(branches.last() == branches[branches.len() - 1]);
        assert forall|j: int|
            0 <= j < branches.drop_last().len() implies max_uses(
            (#[trigger] branches.drop_last()[j]).1,
            s,
        ) <= bound by {
            assert(branches.drop_last()[j] == branches[j]);
        }
        lemma_branches_max_uses_le(branches.drop_last(), s, bound);
    }
}

/// Any single element's count bounds the sequential sum from below.
pub proof fn lemma_sum_uses_ge(es: Seq<Expr>, s: Symbol, j: int)
    requires
        0 <= j < es.len(),
    ensures
        sum_uses(es, s) >= max_uses(es[j], s),
    decreases es.len(),
{
    if j == es.len() - 1 {
        assert(es.last() == es[j]);
    } else {
        lemma_sum_uses_ge(es.drop_last(), s, j);
        assert(es.drop_last()[j] == es[j]);
    }
}

} // verus!

//! The two-point classification lattice and the usage map that the
//! classifier builds: a mapping from symbol to classification with unique
//! keys, supporting lookup, insertion, a structural copy for branch
//! forks, and the alternative-path merge.

use vstd::prelude::*;

use crate::expr::Symbol;

verus! {

/// How often a symbol's runtime value may be referenced: at most once
/// (`Unique`), or possibly more than once along some path (`Shared`).
/// `Shared` is the absorbing element of the lattice.
#[derive(Clone, Copy, Debug, PartialEq, Eq, Structural)]
pub enum ReferenceCount {
    Unique,
    Shared,
}

/// The alternative-path combinator: only two `Unique` sides stay
/// `Unique`; any `Shared` operand absorbs.
pub open spec fn or_spec(a: ReferenceCount, b: ReferenceCount) -> ReferenceCount {
    if a == ReferenceCount::Unique && b == ReferenceCount::Unique {
        ReferenceCount::Unique
    } else {
        ReferenceCount::Shared
    }
}

impl ReferenceCount {
    /// The sequential combinator: a second reference on the same path
    /// always forces `Shared`, whatever the operands.
    pub fn add(_a: &ReferenceCount, _b: &ReferenceCount) -> (r: Self)
        ensures
            r == ReferenceCount::Shared,
    {
        Self::Shared
    }

    /// The alternative-path combinator `or_spec`, executably.
    pub fn or(a: &ReferenceCount, b: &ReferenceCount) -> (r: Self)
        ensures
            r == or_spec(*a, *b),
    {
        match (a, b) {
            (Self::Unique, Self::Unique) => Self::Unique,
            _ => Self::Shared,
        }
    }
}

/// The entry a map holds for `s`, if any.
pub open spec fn entry_of(m: Map<Symbol, ReferenceCount>, s: Symbol) -> Option<ReferenceCount> {
    if m.contains_key(s) {
        Some(m[s])
    } else {
        None
    }
}

/// How one branch-local result for a symbol folds into the outer map
/// when a case expression's branches are merged: absence from the branch
/// leaves the outer entry alone, absence from the outer map adopts the
/// branch entry, and two entries combine with the alternative-path `or`.
pub open spec fn merge_entry(
    outer: Option<ReferenceCount>,
    branch: Option<ReferenceCount>,
) -> Option<ReferenceCount> {
    match branch {
        None => outer,
        Some(b) => match outer {
            None => Some(b),
            Some(a) => Some(or_spec(a, b)),
        },
    }
}

/// The map described by an association list, later entries winning.
/// With unique keys the order never matters.
spec fn entries_map(s: Seq<(Symbol, ReferenceCount)>) -> Map<Symbol, ReferenceCount>
    decreases s.len(),
{
    if s.len() == 0 {
        Map::empty()
    } else {
        entries_map(s.drop_last()).insert(s.last().0, s.last().1)
    }
}

/// No key occurs twice.
spec fn unique_keys(s: Seq<(Symbol, ReferenceCount)>) -> bool {
    forall|i: int, j: int| 0 <= i < j < s.len() ==> (#[trigger] s[i]).0 != (#[trigger] s[j]).0
}

proof fn lemma_unique_keys_drop_last(s: Seq<(Symbol, ReferenceCount)>)
    requires
        unique_keys(s),
        s.len() > 0,
    ensures
        unique_keys(s.drop_last()),
{
    assert forall|i: int, j: int|
        0 <= i < j < s.drop_last().len() implies (#[trigger] s.drop_last()[i]).0 != (
    #[trigger] s.drop_last()[j]).0 by {
        assert(s.drop_last()[i] == s[i]);
        assert(s.drop_last()[j] == s[j]);
    }
}

proof fn lemma_entries_map_contains(s: Seq<(Symbol, ReferenceCount)>, k: Symbol)
    ensures
        entries_map(s).contains_key(k) <==> exists|i: int| 0 <= i < s.len() && (#[trigger] s[i]).0 == k,
    decreases s.len(),
{
    if s.len() > 0 {
        let dl = s.drop_last();
        lemma_entries_map_contains(dl, k);
        if entries_map(s).contains_key(k) {
            if s.last().0 == k {
                assert(s[s.len() - 1].0 == k);
            } else {
                let i = choose|i: int| 0 <= i < dl.len() && (#[trigger] dl[i]).0 == k;
                assert(s[i] == dl[i]);
            }
        }
        if exists|i: int| 0 <= i < s.len() && (#[trigger] s[i]).0 == k {
            let i = choose|i: int| 0 <= i < s.len() && (#[trigger] s[i]).0 == k;
            if i < s.len() - 1 {
                assert(dl[i] == s[i]);
            }
        }
    }
}

proof fn lemma_entries_map_value(s: Seq<(Symbol, ReferenceCount)>, i: int)
    requires
        unique_keys(s),
        0 <= i < s.len(),
    ensures
        entries_map(s).contains_key(s[i].0),
        entries_map(s)[s[i].0] == s[i].1,
    decreases s.len(),
{
    if i == s.len() - 1 {
        assert(s.last() == s[i]);
    } else {
        lemma_unique_keys_drop_last(s);
        lemma_entries_map_value(s.drop_last(), i);
        assert(s.drop_last()[i] == s[i]);
        assert(s.last().0 != s[i].0);
    }
}

proof fn lemma_entries_map_update(s: Seq<(Symbol, ReferenceCount)>, i: int, k: Symbol, c: ReferenceCount)
    requires
        unique_keys(s),
        0 <= i < s.len(),
        s[i].0 == k,
    ensures
        entries_map(s.update(i, (k, c))) == entries_map(s).insert(k, c),
    decreases s.len(),
{
    let t = s.update(i, (k, c));
    if i == s.len() - 1 {
        assert(t.drop_last() =~= s.drop_last());
        assert(t.last() == (k, c));
        assert(entries_map(s.drop_last()).insert(s.last().0, s.last().1).insert(k, c)
            =~= entries_map(s.drop_last()).insert(k, c));
    } else {
        lemma_unique_keys_drop_last(s);
        assert(t.drop_last() =~= s.drop_last().update(i, (k, c)));
        assert(t.last() == s.last());
        lemma_entries_map_update(s.drop_last(), i, k, c);
        assert(s.last().0 != k);
        assert(entries_map(s.drop_last()).insert(k, c).insert(s.last().0, s.last().1)
            =~= entries_map(s.drop_last()).insert(s.last().0, s.last().1).insert(k, c));
    }
}

proof fn lemma_entries_map_push(s: Seq<(Symbol, ReferenceCount)>, k: Symbol, c: ReferenceCount)
    ensures
        entries_map(s.push((k, c))) == entries_map(s).insert(k, c),
{
    assert(s.push((k, c)).drop_last() =~= s);
    assert(s.push((k, c)).last() == (k, c));
}

/// The per-analysis result: which symbols the analyzed expression
/// references, and whether each stays `Unique` or must be `Shared`. A
/// symbol that is never referenced has no entry. Insertion order is
/// irrelevant to the map's meaning, so the view is a `Map`.
#[derive(Debug, PartialEq, Eq)]
pub struct UsageMap {
    entries: Vec<(Symbol, ReferenceCount)>,
}

impl View for UsageMap {
    type V = Map<Symbol, ReferenceCount>;

    closed spec fn view(&self) -> Map<Symbol, ReferenceCount> {
        entries_map(self.entries@)
    }
}

impl UsageMap {
    #[verifier::type_invariant]
    spec fn wf(self) -> bool {
        unique_keys(self.entries@)
    }

    /// An empty map: the starting point of every analysis.
    pub fn new() -> (m: UsageMap)
        ensures
            m@ == Map::<Symbol, ReferenceCount>::empty(),
    {
        UsageMap { entries: Vec::new() }
    }

    /// The classification recorded for `s`, if `s` has been registered.
    pub fn get(&self, s: Symbol) -> (r: Option<ReferenceCount>)
        ensures
            r == entry_of(self@, s),
    {
        proof {
            use_type_invariant(&*self);
        }
        let n = self.entries.len();
        let mut i: usize = 0;
        while i < n
            invariant
                unique_keys(self.entries@),
                n == self.entries.len(),
                i <= n,
                forall|j: int| 0 <= j < i ==> (#[trigger] self.entries@[j]).0 != s,
            decreases n - i,
        {
            if self.entries[i].0 == s {
                proof {
                    lemma_entries_map_value(self.entries@, i as int);
                }
                return Some(self.entries[i].1);
            }
            i += 1;
        }
        proof {
            lemma_entries_map_contains(self.entries@, s);
        }
        None
    }

    /// Record classification `c` for `s`, replacing any earlier entry.
    pub fn insert(&mut self, s: Symbol, c: ReferenceCount)
        ensures
            final(self)@ == old(self)@.insert(s, c),
    {
        proof {
            use_type_invariant(&*self);
        }
        let mut entries: Vec<(Symbol, ReferenceCount)> = Vec::new();
        core::mem::swap(&mut entries, &mut self.entries);
        let ghost s0 = entries@;
        let n = entries.len();
        let mut i: usize = 0;
        while i < n
            invariant
                unique_keys(entries@),
                entries@ == s0,
                old(self)@ == entries_map(s0),
                n == entries.len(),
                i <= n,
                forall|j: int| 0 <= j < i ==> (#[trigger] entries@[j]).0 != s,
            decreases n - i,
        {
            if entries[i].0 == s {
                entries[i] = (s, c);
                proof {
                    lemma_entries_map_update(s0, i as int, s, c);
                    assert forall|a: int, b: int|
                        0 <= a < b < entries@.len() implies (#[trigger] entries@[a]).0 != (
                    #[trigger] entries@[b]).0 by {
                        assert(s0[a].0 == entries@[a].0);
                        assert(s0[b].0 == entries@[b].0);
                    }
                }
                core::mem::swap(&mut entries, &mut self.entries);
                return;
            }
            i += 1;
        }
        entries.push((s, c));
        proof {
            lemma_entries_map_push(s0, s, c);
            assert forall|a: int, b: int|
                0 <= a < b < entries@.len() implies (#[trigger] entries@[a]).0 != (
            #[trigger] entries@[b]).0 by {
                if b < entries@.len() - 1 {
                    assert(s0[a].0 == entries@[a].0);
                    assert(s0[b].0 == entries@[b].0);
                } else {
                    assert(s0[a].0 == entries@[a].0);
                }
            }
        }
        core::mem::swap(&mut entries, &mut self.entries);
    }

    /// An independent copy, taken at each branch fork of a case
    /// expression so that mutually exclusive branches cannot see each
    /// other's registrations.
    pub fn duplicate(&self) -> (r: UsageMap)
        ensures
            r@ == self@,
    {
        let n = self.entries.len();
        let mut entries: Vec<(Symbol, ReferenceCount)> = Vec::new();
        let mut i: usize = 0;
        while i < n
            invariant
                n == self.entries.len(),
                i <= n,
                entries@ =~= self.entries@.take(i as int),
            decreases n - i,
        {
            entries.push(self.entries[i]);
            i += 1;
        }
        proof {
            use_type_invariant(&*self);
            assert(entries@ =~= self.entries@);
        }
        UsageMap { entries }
    }

    /// Fold one branch-local result into this map, entry by entry, with
    /// the alternative-path combinator: the merge rule of a case.
    pub fn merge_or(&mut self, branch: &UsageMap)
        ensures
            forall|s: Symbol|
                entry_of(final(self)@, s) == merge_entry(
                    entry_of(old(self)@, s),
                    #[trigger] entry_of(branch@, s),
                ),
    {
        proof {
            use_type_invariant(branch);
        }
        let ghost m0 = self@;
        let n = branch.entries.len();
        let mut i: usize = 0;
        while i < n
            invariant
                unique_keys(branch.entries@),
                n == branch.entries.len(),
                i <= n,
                forall|s: Symbol|
                    #[trigger] entry_of(self@, s) == if exists|j: int|
                        0 <= j < i && (#[trigger] branch.entries@[j]).0 == s {
                        merge_entry(entry_of(m0, s), entry_of(branch@, s))
                    } else {
                        entry_of(m0, s)
                    },
            decreases n - i,
        {
            let (k, v) = branch.entries[i];
            let ghost before = self@;
            proof {
                lemma_entries_map_value(branch.entries@, i as int);
                assert(branch.entries@[i as int].0 == k);
                assert(entry_of(branch@, k) == Some(v));
            }
            match self.get(k) {
                None => {
                    self.insert(k, v);
                },
                Some(current) => {
                    let merged = ReferenceCount::or(&current, &v);
                    self.insert(k, merged);
                },
            }
            proof {
                assert forall|s: Symbol|
                    #[trigger] entry_of(self@, s) == if exists|j: int|
                        0 <= j < i + 1 && (#[trigger] branch.entries@[j]).0 == s {
                        merge_entry(entry_of(m0, s), entry_of(branch@, s))
                    } else {
                        entry_of(m0, s)
                    } by {
                    if s == k {
                        assert(branch.entries@[i as int].0 == s);
                        assert(!(exists|j: int|
                            0 <= j < i && (#[trigger] branch.entries@[j]).0 == s));
                        assert(entry_of(before, s) == entry_of(m0, s));
                    } else {
                        assert(entry_of(self@, s) == entry_of(before, s));
                        if exists|j: int| 0 <= j < i + 1 && (#[trigger] branch.entries@[j]).0 == s {
                            let j = choose|j: int|
                                0 <= j < i + 1 && (#[trigger] branch.entries@[j]).0 == s;
                            assert(j < i);
                        }
                    }
                }
            }
            i += 1;
        }
        proof {
            assert forall|s: Symbol|
                entry_of(self@, s) == merge_entry(entry_of(m0, s), #[trigger] entry_of(branch@, s)) by {
                lemma_entries_map_contains(branch.entries@, s);
            }
        }
    }
}

} // verus!

use usage_sharing::InferOptions;
use usage_sharing::ReferenceCount;
use usage_sharing::Symbol;
use usage_sharing::UsageMap;

#[test]
fn add_always_shares() {
    let u = ReferenceCount::Unique;
    let s = ReferenceCount::Shared;
    assert_eq!(ReferenceCount::add(&u, &u), ReferenceCount::Shared);
    assert_eq!(ReferenceCount::add(&u, &s), ReferenceCount::Shared);
    assert_eq!(ReferenceCount::add(&s, &u), ReferenceCount::Shared);
    assert_eq!(ReferenceCount::add(&s, &s), ReferenceCount::Shared);
}

#[test]
fn or_keeps_unique_only_for_two_uniques() {
    let u = ReferenceCount::Unique;
    let s = ReferenceCount::Shared;
    assert_eq!(ReferenceCount::or(&u, &u), ReferenceCount::Unique);
    assert_eq!(ReferenceCount::or(&u, &s), ReferenceCount::Shared);
    assert_eq!(ReferenceCount::or(&s, &u), ReferenceCount::Shared);
    assert_eq!(ReferenceCount::or(&s, &s), ReferenceCount::Shared);
}

#[test]
fn usage_map_insert_and_get() {
    let mut m = UsageMap::new();
    let a = Symbol { id: 1 };
    let b = Symbol { id: 2 };
    assert_eq!(m.get(a), None);
    m.insert(a, ReferenceCount::Unique);
    assert_eq!(m.get(a), Some(ReferenceCount::Unique));
    assert_eq!(m.get(b), None);
    m.insert(a, ReferenceCount::Shared);
    assert_eq!(m.get(a), Some(ReferenceCount::Shared));
}

#[test]
fn usage_map_duplicate_is_independent() {
    let mut m = UsageMap::new();
    let a = Symbol { id: 1 };
    m.insert(a, ReferenceCount::Unique);
    let copy = m.duplicate();
    m.insert(a, ReferenceCount::Shared);
    assert_eq!(copy.get(a), Some(ReferenceCount::Unique));
    assert_eq!(m.get(a), Some(ReferenceCount::Shared));
}

#[test]
fn infer_options_default_is_all_off() {
    let options = InferOptions::default();
    assert!(!options.print_can_decls);
    assert!(!options.print_only_under_alias);
    assert!(!options.allow_errors);
}

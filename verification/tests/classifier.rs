use usage_sharing::Expr;
use usage_sharing::Pattern;
use usage_sharing::ReferenceCount;
use usage_sharing::Symbol;
use usage_sharing::analyze;
use usage_sharing::sharing_analysis;
use usage_sharing::UsageMap;

fn sym(id: u64) -> Symbol {
    Symbol { id }
}

fn var(id: u64) -> Expr {
    Expr::Var(sym(id))
}

#[test]
fn single_sequential_use_is_unique() {
    let m = analyze(&var(1));
    assert_eq!(m.get(sym(1)), Some(ReferenceCount::Unique));
}

#[test]
fn closure_value_reference_is_a_use() {
    let m = analyze(&Expr::FunctionPointer(sym(7)));
    assert_eq!(m.get(sym(7)), Some(ReferenceCount::Unique));
}

#[test]
fn two_arguments_of_one_call_are_shared() {
    let e = Expr::CallByName(sym(9), vec![var(1), var(1)]);
    let m = analyze(&e);
    assert_eq!(m.get(sym(1)), Some(ReferenceCount::Shared));
    assert_eq!(m.get(sym(9)), Some(ReferenceCount::Unique));
}

#[test]
fn definitions_block_reading_twice_is_shared() {
    let e = Expr::Defs(
        vec![(Pattern::Identifier(sym(2)), var(1))],
        Box::new(var(1)),
    );
    let m = analyze(&e);
    assert_eq!(m.get(sym(1)), Some(ReferenceCount::Shared));
}

#[test]
fn definitions_block_distinct_reads_stay_unique() {
    let e = Expr::Defs(
        vec![(Pattern::Identifier(sym(2)), var(1))],
        Box::new(var(3)),
    );
    let m = analyze(&e);
    assert_eq!(m.get(sym(1)), Some(ReferenceCount::Unique));
    assert_eq!(m.get(sym(3)), Some(ReferenceCount::Unique));
}

#[test]
fn exclusive_branch_uses_stay_unique() {
    let e = Expr::Case(
        Box::new(Expr::Int(0)),
        vec![
            (Pattern::Identifier(sym(10)), var(1)),
            (Pattern::Identifier(sym(11)), var(2)),
        ],
    );
    let m = analyze(&e);
    assert_eq!(m.get(sym(1)), Some(ReferenceCount::Unique));
    assert_eq!(m.get(sym(2)), Some(ReferenceCount::Unique));
}

#[test]
fn same_symbol_in_two_branches_stays_unique() {
    let e = Expr::Case(
        Box::new(Expr::Int(0)),
        vec![
            (Pattern::Underscore, var(1)),
            (Pattern::Underscore, var(1)),
        ],
    );
    let m = analyze(&e);
    assert_eq!(m.get(sym(1)), Some(ReferenceCount::Unique));
}

#[test]
fn scrutinee_use_plus_branch_use_is_shared() {
    let e = Expr::Case(
        Box::new(var(1)),
        vec![
            (Pattern::Underscore, var(1)),
            (Pattern::Underscore, var(2)),
        ],
    );
    let m = analyze(&e);
    assert_eq!(m.get(sym(1)), Some(ReferenceCount::Shared));
    assert_eq!(m.get(sym(2)), Some(ReferenceCount::Unique));
}

#[test]
fn call_target_symbol_counts_as_a_use() {
    let e = Expr::CallByName(sym(5), vec![var(5)]);
    let m = analyze(&e);
    assert_eq!(m.get(sym(5)), Some(ReferenceCount::Shared));
}

#[test]
fn call_target_used_once_stays_unique() {
    let e = Expr::CallByName(sym(5), vec![var(6)]);
    let m = analyze(&e);
    assert_eq!(m.get(sym(5)), Some(ReferenceCount::Unique));
    assert_eq!(m.get(sym(6)), Some(ReferenceCount::Unique));
}

#[test]
fn dynamic_call_callee_and_argument_share() {
    let e = Expr::CallPointer(Box::new(var(4)), vec![var(4)]);
    let m = analyze(&e);
    assert_eq!(m.get(sym(4)), Some(ReferenceCount::Shared));
}

#[test]
fn absent_symbol_has_no_entry() {
    let e = Expr::List(vec![var(1), var(2)]);
    let m = analyze(&e);
    assert_eq!(m.get(sym(3)), None);
}

#[test]
fn literals_register_nothing() {
    let e = Expr::List(vec![
        Expr::Int(42),
        Expr::Float,
        Expr::Str(String::from("a")),
        Expr::BlockStr(String::from("b")),
        Expr::EmptyRecord,
        Expr::RuntimeError,
    ]);
    let m = analyze(&e);
    assert_eq!(m, UsageMap::new());
}

#[test]
fn reanalysis_yields_identical_maps() {
    let e = Expr::Case(
        Box::new(var(1)),
        vec![
            (Pattern::Underscore, Expr::CallByName(sym(2), vec![var(3)])),
            (Pattern::Underscore, var(3)),
        ],
    );
    let first = analyze(&e);
    let second = analyze(&e);
    assert_eq!(first, second);
}

#[test]
fn nested_case_alternative_uses_stay_unique() {
    let inner = Expr::Case(
        Box::new(Expr::Int(0)),
        vec![
            (Pattern::Underscore, var(1)),
            (Pattern::Underscore, var(1)),
        ],
    );
    let e = Expr::Case(
        Box::new(Expr::Int(1)),
        vec![
            (Pattern::Underscore, inner),
            (Pattern::Underscore, Expr::EmptyRecord),
        ],
    );
    let m = analyze(&e);
    assert_eq!(m.get(sym(1)), Some(ReferenceCount::Unique));
}

#[test]
fn branch_use_then_sequential_use_is_shared() {
    let case = Expr::Case(
        Box::new(Expr::Int(0)),
        vec![(Pattern::Underscore, var(1))],
    );
    let e = Expr::List(vec![case, var(1)]);
    let m = analyze(&e);
    assert_eq!(m.get(sym(1)), Some(ReferenceCount::Shared));
}

#[test]
fn empty_case_keeps_scrutinee_usages_only() {
    let e = Expr::Case(Box::new(var(1)), vec![]);
    let m = analyze(&e);
    assert_eq!(m.get(sym(1)), Some(ReferenceCount::Unique));
}

#[test]
fn record_fields_accumulate_sequentially() {
    let e = Expr::Record(vec![
        (String::from("a"), var(1)),
        (String::from("b"), var(1)),
    ]);
    let m = analyze(&e);
    assert_eq!(m.get(sym(1)), Some(ReferenceCount::Shared));
}

#[test]
fn field_access_walks_the_record_expression() {
    let record = Expr::Record(vec![(String::from("a"), var(1))]);
    let e = Expr::Field(Box::new(record), String::from("a"));
    let m = analyze(&e);
    assert_eq!(m.get(sym(1)), Some(ReferenceCount::Unique));
}

#[test]
fn analysis_threads_an_existing_map() {
    let mut usage = UsageMap::new();
    sharing_analysis(&var(1), &mut usage);
    sharing_analysis(&var(1), &mut usage);
    assert_eq!(usage.get(sym(1)), Some(ReferenceCount::Shared));
}

#[test]
fn branch_use_on_top_of_prior_unique_entry_is_shared() {
    let mut usage = UsageMap::new();
    sharing_analysis(&var(1), &mut usage);
    let e = Expr::Case(
        Box::new(Expr::Int(0)),
        vec![(Pattern::Underscore, var(1))],
    );
    sharing_analysis(&e, &mut usage);
    assert_eq!(usage.get(sym(1)), Some(ReferenceCount::Shared));
}

//! Scenario tests for the structural matcher.

use record_match::value::{field_mut, Value, Field, Record};
use record_match::pattern::{Slot, FieldPat, Pattern};
use record_match::matcher::{MatchError, MatchOutcome, match_record, match_record_owned,
    lookup_binding};

// Field and binding names used throughout: small integers standing for the
// identifiers `x`, `y`, `z`, `b`, `i`, and tuple positions 0 and 1.
const X: u64 = 1;
const Y: u64 = 2;
const Z: u64 = 3;
const B: u64 = 7;
const I: u64 = 8;
const POS0: u64 = 100;
const POS1: u64 = 101;

fn int_field(name: u64, v: i64) -> Field {
    Field { name, value: Value::Int(v) }
}

fn rec(fields: Vec<Field>) -> Record {
    Record { fields }
}

fn pair(a: i64, b: i64) -> Value {
    Value::Rec(rec(vec![int_field(POS0, a), int_field(POS1, b)]))
}

fn bind(field: u64, name: u64) -> FieldPat {
    FieldPat { field, slot: Slot::Bind(name) }
}

fn lit(field: u64, c: i64) -> FieldPat {
    FieldPat { field, slot: Slot::Lit(c) }
}

fn nested(field: u64, p: Pattern) -> FieldPat {
    FieldPat { field, slot: Slot::Nested(p) }
}

fn pat(fields: Vec<FieldPat>) -> Pattern {
    Pattern { fields, rest: false }
}

fn pat_rest(fields: Vec<FieldPat>) -> Pattern {
    Pattern { fields, rest: true }
}

fn expect_int(o: &MatchOutcome, name: u64) -> i64 {
    match lookup_binding(&o.bindings, name) {
        Some(Value::Int(n)) => *n,
        Some(_) => panic!("binding holds a nested record"),
        None => panic!("binding not found"),
    }
}

#[test]
fn nested_tuple_pattern_wins() {
    // record {x: (1, 2), y: 3}
    let r = rec(vec![Field { name: X, value: pair(1, 2) }, int_field(Y, 3)]);
    // patterns [{x: (1, b), y}, {y: 2, x: i}, {y, ..}]
    let ps = vec![
        pat(vec![nested(X, pat(vec![lit(POS0, 1), bind(POS1, B)])), bind(Y, Y)]),
        pat(vec![lit(Y, 2), bind(X, I)]),
        pat_rest(vec![bind(Y, Y)]),
    ];
    let o = match_record(&r, &ps).unwrap();
    assert_eq!(o.index, 0);
    assert_eq!(o.bindings.len(), 2);
    assert_eq!(expect_int(&o, B), 2);
    assert_eq!(expect_int(&o, Y), 3);
    assert!(lookup_binding(&o.bindings, I).is_none());
}

#[test]
fn literal_slot_matches_without_binding() {
    // record {x: 0, y: 10}; patterns [{x: 0, y}, {x, y}]
    let r = rec(vec![int_field(X, 0), int_field(Y, 10)]);
    let ps = vec![
        pat(vec![lit(X, 0), bind(Y, Y)]),
        pat(vec![bind(X, X), bind(Y, Y)]),
    ];
    let o = match_record(&r, &ps).unwrap();
    assert_eq!(o.index, 0);
    assert_eq!(o.bindings.len(), 1);
    assert_eq!(expect_int(&o, Y), 10);
    assert!(lookup_binding(&o.bindings, X).is_none());
}

#[test]
fn literal_mismatch_falls_through() {
    // record {x: 0, y: 7}; patterns [{x, y: 0}, {x, y}]
    let r = rec(vec![int_field(X, 0), int_field(Y, 7)]);
    let ps = vec![
        pat(vec![bind(X, X), lit(Y, 0)]),
        pat(vec![bind(X, X), bind(Y, Y)]),
    ];
    let o = match_record(&r, &ps).unwrap();
    assert_eq!(o.index, 1);
    assert_eq!(expect_int(&o, X), 0);
    assert_eq!(expect_int(&o, Y), 7);
}

#[test]
fn omitted_field_without_rest_is_malformed() {
    // pattern {y} against record {x: (u, u), y: u}: x is not mentioned
    let r = rec(vec![Field { name: X, value: pair(4, 4) }, int_field(Y, 4)]);
    let ps = vec![pat(vec![bind(Y, Y)])];
    assert_eq!(match_record(&r, &ps), Err(MatchError::MalformedPattern));
}

#[test]
fn unknown_field_is_malformed() {
    let r = rec(vec![int_field(X, 1)]);
    let ps = vec![pat_rest(vec![bind(Z, Z)])];
    assert_eq!(match_record(&r, &ps), Err(MatchError::MalformedPattern));
}

#[test]
fn duplicate_field_listing_is_malformed() {
    let r = rec(vec![int_field(X, 1)]);
    let ps = vec![pat(vec![lit(X, 1), bind(X, B)])];
    assert_eq!(match_record(&r, &ps), Err(MatchError::MalformedPattern));
}

#[test]
fn duplicate_binding_name_is_malformed() {
    let r = rec(vec![int_field(X, 1), int_field(Y, 2)]);
    let ps = vec![pat(vec![bind(X, B), bind(Y, B)])];
    assert_eq!(match_record(&r, &ps), Err(MatchError::MalformedPattern));
}

#[test]
fn no_pattern_matches_is_reported() {
    let r = rec(vec![int_field(X, 1)]);
    let ps = vec![pat(vec![lit(X, 0)])];
    assert_eq!(match_record(&r, &ps), Err(MatchError::NoPatternMatches));
}

#[test]
fn empty_pattern_list_never_matches() {
    let r = rec(vec![int_field(X, 1)]);
    let ps: Vec<Pattern> = vec![];
    assert_eq!(match_record(&r, &ps), Err(MatchError::NoPatternMatches));
}

#[test]
fn empty_pattern_matches_empty_record() {
    let r = rec(vec![]);
    let ps = vec![pat(vec![])];
    let o = match_record(&r, &ps).unwrap();
    assert_eq!(o.index, 0);
    assert!(o.bindings.is_empty());
}

#[test]
fn all_literal_pattern_yields_empty_bindings() {
    let r = rec(vec![int_field(X, 0), int_field(Y, 10)]);
    let ps = vec![pat(vec![lit(X, 0), lit(Y, 10)])];
    let o = match_record(&r, &ps).unwrap();
    assert_eq!(o.index, 0);
    assert!(o.bindings.is_empty());
}

#[test]
fn all_binding_pattern_matches_any_record() {
    let r = rec(vec![int_field(X, 5), int_field(Y, -6)]);
    let ps = vec![pat(vec![bind(X, X), bind(Y, Y)])];
    let o = match_record(&r, &ps).unwrap();
    assert_eq!(o.index, 0);
    assert_eq!(o.bindings.len(), 2);
    assert_eq!(expect_int(&o, X), 5);
    assert_eq!(expect_int(&o, Y), -6);
}

#[test]
fn repeated_calls_agree() {
    let r = rec(vec![Field { name: X, value: pair(1, 2) }, int_field(Y, 3)]);
    let ps = vec![
        pat(vec![nested(X, pat(vec![lit(POS0, 1), bind(POS1, B)])), bind(Y, Y)]),
        pat_rest(vec![bind(Y, Y)]),
    ];
    let o1 = match_record(&r, &ps).unwrap();
    let o2 = match_record(&r, &ps).unwrap();
    assert_eq!(o1.index, o2.index);
    assert_eq!(o1.bindings, o2.bindings);
}

#[test]
fn owned_and_borrowed_forms_agree() {
    let make = || rec(vec![int_field(X, 0), int_field(Y, 7)]);
    let ps = vec![
        pat(vec![bind(X, X), lit(Y, 0)]),
        pat(vec![bind(X, X), bind(Y, Y)]),
    ];
    let borrowed_record = make();
    let o1 = match_record(&borrowed_record, &ps).unwrap();
    let o2 = match_record_owned(make(), &ps).unwrap();
    assert_eq!(o1.index, o2.index);
    assert_eq!(o1.bindings, o2.bindings);
}

#[test]
fn rest_marker_ignores_unlisted_fields() {
    let ps = vec![pat_rest(vec![bind(Y, Y)])];
    let narrow = rec(vec![int_field(Y, 3)]);
    let wide = rec(vec![int_field(X, 44), int_field(Y, 3), int_field(Z, -9)]);
    let o1 = match_record(&narrow, &ps).unwrap();
    let o2 = match_record(&wide, &ps).unwrap();
    assert_eq!(o1.index, o2.index);
    assert_eq!(o1.bindings, o2.bindings);
    assert_eq!(expect_int(&o2, Y), 3);
}

#[test]
fn rest_only_pattern_matches_anything() {
    let r = rec(vec![int_field(X, 1), int_field(Y, 2)]);
    let ps = vec![pat_rest(vec![])];
    let o = match_record(&r, &ps).unwrap();
    assert_eq!(o.index, 0);
    assert!(o.bindings.is_empty());
}

#[test]
fn nested_matching_composes() {
    // matching the inner record alone with the sub-pattern yields the same
    // bindings as matching it through the enclosing record
    let inner = rec(vec![int_field(POS0, 1), int_field(POS1, 2)]);
    let sub = || pat(vec![lit(POS0, 1), bind(POS1, B)]);
    let direct = match_record(&inner, &vec![sub()]).unwrap();

    let outer = rec(vec![Field { name: X, value: Value::Rec(inner) }]);
    let through = match_record(&outer, &vec![pat(vec![nested(X, sub())])]).unwrap();
    assert_eq!(direct.bindings, through.bindings);
    assert_eq!(expect_int(&through, B), 2);
}

#[test]
fn literal_against_nested_record_fails() {
    let r = rec(vec![Field { name: X, value: pair(1, 2) }]);
    let ps = vec![pat(vec![lit(X, 5)])];
    assert_eq!(match_record(&r, &ps), Err(MatchError::NoPatternMatches));
}

#[test]
fn nested_pattern_against_integer_fails() {
    let r = rec(vec![int_field(X, 5)]);
    let ps = vec![pat(vec![nested(X, pat_rest(vec![]))])];
    assert_eq!(match_record(&r, &ps), Err(MatchError::NoPatternMatches));
}

#[test]
fn first_match_wins_over_later_match() {
    // both patterns match; the earlier index is returned
    let r = rec(vec![int_field(X, 0), int_field(Y, 10)]);
    let ps = vec![
        pat(vec![bind(X, B), bind(Y, I)]),
        pat(vec![bind(X, X), bind(Y, Y)]),
    ];
    let o = match_record(&r, &ps).unwrap();
    assert_eq!(o.index, 0);
    assert_eq!(expect_int(&o, B), 0);
    assert_eq!(expect_int(&o, I), 10);
    assert!(lookup_binding(&o.bindings, X).is_none());
}

#[test]
fn field_update_changes_later_matches() {
    // matching is read-only; mutation is a separate, explicit step
    let mut r = rec(vec![int_field(X, 0), int_field(Y, 10)]);
    let ps = vec![
        pat(vec![lit(X, 0), bind(Y, Y)]),
        pat(vec![bind(X, X), bind(Y, Y)]),
    ];
    assert_eq!(match_record(&r, &ps).unwrap().index, 0);

    *field_mut(&mut r, X) = Value::Int(1);
    let o = match_record(&r, &ps).unwrap();
    assert_eq!(o.index, 1);
    assert_eq!(expect_int(&o, X), 1);
    assert_eq!(expect_int(&o, Y), 10);
}

#[test]
fn malformed_later_pattern_rejects_whole_list() {
    // validation runs over the whole list before any matching
    let r = rec(vec![int_field(X, 1), int_field(Y, 2)]);
    let ps = vec![
        pat(vec![bind(X, X), bind(Y, Y)]),
        pat(vec![bind(Y, B)]),
    ];
    assert_eq!(match_record(&r, &ps), Err(MatchError::MalformedPattern));
}

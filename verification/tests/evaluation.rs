use sat_eval::clause::{Clause, Operator};
use sat_eval::instance::SatInstance;
use sat_eval::literal::Literal;
use sat_eval::state::{InstanceState, LiteralState, Truth};

fn lit(name: &str, negated: bool) -> Literal {
    Literal { name: String::from(name), negated }
}

fn entry(name: &str, value: Option<bool>) -> LiteralState {
    LiteralState { literal: lit(name, false), value }
}

fn or_clause(lits: Vec<Literal>) -> Clause {
    Clause { operator: Operator::OR, literals: lits }
}

fn and_clause(lits: Vec<Literal>) -> Clause {
    Clause { operator: Operator::AND, literals: lits }
}

fn state(entries: Vec<LiteralState>) -> InstanceState {
    InstanceState { states: entries }
}

#[test]
fn polarity_positive_literal() {
    let c = or_clause(vec![lit("x", false)]);
    assert!(c.satisfied_by(&state(vec![entry("x", Some(true))])));
    assert!(!c.satisfied_by(&state(vec![entry("x", Some(false))])));
}

#[test]
fn polarity_negated_literal() {
    let c = or_clause(vec![lit("x", true)]);
    assert!(!c.satisfied_by(&state(vec![entry("x", Some(true))])));
    assert!(c.satisfied_by(&state(vec![entry("x", Some(false))])));
}

#[test]
fn or_semantics() {
    let c = or_clause(vec![lit("a", false), lit("b", false)]);
    let sat = state(vec![entry("a", Some(false)), entry("b", Some(true))]);
    let unsat = state(vec![entry("a", Some(false)), entry("b", Some(false))]);
    assert!(c.satisfied_by(&sat));
    assert!(!c.satisfied_by(&unsat));
}

#[test]
fn and_semantics() {
    let c = and_clause(vec![lit("c", false), lit("b", true)]);
    let sat = state(vec![entry("c", Some(true)), entry("b", Some(false))]);
    let unsat = state(vec![entry("c", Some(true)), entry("b", Some(true))]);
    assert!(c.satisfied_by(&sat));
    assert!(!c.satisfied_by(&unsat));
}

fn worked_example() -> SatInstance {
    SatInstance {
        clauses: vec![
            or_clause(vec![lit("a", false), lit("b", false)]),
            and_clause(vec![lit("c", false), lit("b", true)]),
        ],
    }
}

#[test]
fn instance_conjunction_satisfied() {
    let instance = worked_example();
    let st = state(vec![
        entry("a", Some(true)),
        entry("b", Some(false)),
        entry("c", Some(true)),
    ]);
    assert!(instance.satisfied_by(&st));
}

#[test]
fn instance_conjunction_counter_example() {
    let instance = worked_example();
    let st = state(vec![
        entry("a", Some(false)),
        entry("b", Some(true)),
        entry("c", Some(true)),
    ]);
    // clause 1 holds through b, but clause 2 fails: NOT b is false.
    assert!(!instance.satisfied_by(&st));
}

#[test]
fn absent_variable_blocks_or_clause() {
    // A literal without a state leaves the clause unsatisfied even though
    // the resolved literals alone would satisfy the OR.
    let c = or_clause(vec![lit("a", false), lit("missing", false)]);
    let st = state(vec![entry("a", Some(true))]);
    assert!(!c.satisfied_by(&st));
}

#[test]
fn undetermined_value_blocks_and_clause() {
    let c = and_clause(vec![lit("a", false), lit("b", false)]);
    let st = state(vec![entry("a", Some(true)), entry("b", None)]);
    assert!(!c.satisfied_by(&st));
}

#[test]
fn first_match_by_name_wins() {
    // Two entries for the same variable: the first one is authoritative.
    let c = or_clause(vec![lit("x", false)]);
    let st = state(vec![entry("x", Some(false)), entry("x", Some(true))]);
    assert!(!c.satisfied_by(&st));
}

#[test]
fn state_literal_polarity_is_ignored_by_lookup() {
    // Lookup is by name only: the stored value counts as the truth of the
    // bare variable name, whatever polarity the stored literal carries.
    let c = or_clause(vec![lit("x", false)]);
    let st = state(vec![LiteralState { literal: lit("x", true), value: Some(true) }]);
    assert!(c.satisfied_by(&st));
}

#[test]
fn duplicate_literals_in_clause() {
    let c = and_clause(vec![lit("x", false), lit("x", false)]);
    assert!(c.satisfied_by(&state(vec![entry("x", Some(true))])));
    assert!(!c.satisfied_by(&state(vec![entry("x", Some(false))])));
}

#[test]
fn resolve_applies_polarity_and_first_match() {
    let st = state(vec![
        entry("x", Some(true)),
        entry("x", Some(false)),
        entry("y", None),
    ]);
    assert_eq!(st.resolve(&lit("x", false)), Truth::True);
    assert_eq!(st.resolve(&lit("x", true)), Truth::False);
    assert_eq!(st.resolve(&lit("y", false)), Truth::Unknown);
    assert_eq!(st.resolve(&lit("y", true)), Truth::Unknown);
    assert_eq!(st.resolve(&lit("absent", false)), Truth::Unknown);
}

#[test]
fn empty_instance_is_vacuously_satisfied() {
    let instance = SatInstance { clauses: vec![] };
    assert!(instance.satisfied_by(&state(vec![])));
    assert!(instance.satisfied_by(&state(vec![entry("a", Some(false))])));
}

#[test]
fn empty_and_clause_is_satisfied() {
    let c = and_clause(vec![]);
    assert!(c.satisfied_by(&state(vec![])));
    assert!(c.satisfied_by(&state(vec![entry("a", Some(false))])));
}

#[test]
fn empty_or_clause_is_never_satisfied() {
    let c = or_clause(vec![]);
    assert!(!c.satisfied_by(&state(vec![])));
    assert!(!c.satisfied_by(&state(vec![entry("a", Some(true))])));
}

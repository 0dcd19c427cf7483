use sat_eval::clause::{Clause, Operator};
use sat_eval::instance::SatInstance;
use sat_eval::literal::Literal;

fn lit(name: &str, negated: bool) -> Literal {
    Literal { name: String::from(name), negated }
}

fn instance(clauses: Vec<Clause>) -> SatInstance {
    SatInstance { clauses }
}

#[test]
fn inspect_collects_sorts_and_collapses_inverses() {
    // (a OR b) AND (c AND NOT b): the literals sort to a, b, NOT b, c, and
    // the adjacent inverse pair collapses to its first representative.
    let inst = instance(vec![
        Clause { operator: Operator::OR, literals: vec![lit("a", false), lit("b", false)] },
        Clause { operator: Operator::AND, literals: vec![lit("c", false), lit("b", true)] },
    ]);
    let vars = inst.inspect();
    assert_eq!(vars, vec![lit("a", false), lit("b", false), lit("c", false)]);
}

#[test]
fn inspect_is_deterministic() {
    let make = || {
        instance(vec![
            Clause { operator: Operator::OR, literals: vec![lit("q", true), lit("p", false)] },
            Clause { operator: Operator::AND, literals: vec![lit("r", false), lit("q", false)] },
        ])
    };
    let inst = make();
    let copy = inst.clone();
    assert_eq!(inst.inspect(), inst.inspect());
    assert_eq!(inst.inspect(), copy.inspect());
    assert_eq!(make().inspect(), inst.inspect());
}

#[test]
fn inspect_keeps_one_polarity_per_name() {
    // The sorted order puts the non-negated literal first, so it is the
    // surviving representative of each name.
    let inst = instance(vec![
        Clause { operator: Operator::AND, literals: vec![lit("x", true), lit("y", false)] },
        Clause { operator: Operator::OR, literals: vec![lit("x", false), lit("y", true)] },
    ]);
    let vars = inst.inspect();
    assert_eq!(vars, vec![lit("x", false), lit("y", false)]);
}

#[test]
fn inspect_names_cover_the_instance() {
    let inst = instance(vec![
        Clause { operator: Operator::OR, literals: vec![lit("delta", false), lit("alpha", true)] },
        Clause { operator: Operator::AND, literals: vec![lit("beta", false)] },
        Clause { operator: Operator::OR, literals: vec![] },
    ]);
    let names: Vec<String> = inst.inspect().into_iter().map(|l| l.name).collect();
    let expected = vec![String::from("alpha"), String::from("beta"), String::from("delta")];
    assert_eq!(names, expected);
}

#[test]
fn inspect_keeps_exact_duplicates() {
    // Deduplication only collapses inverse pairs; duplicate literals of the
    // same polarity survive.
    let inst = instance(vec![
        Clause { operator: Operator::OR, literals: vec![lit("x", false), lit("x", false)] },
    ]);
    let vars = inst.inspect();
    assert_eq!(vars, vec![lit("x", false), lit("x", false)]);

    // With an inverse in the mix, every following inverse of the retained
    // representative is collapsed, but equal duplicates still survive.
    let chain = instance(vec![
        Clause {
            operator: Operator::OR,
            literals: vec![lit("x", true), lit("x", false), lit("x", false)],
        },
    ]);
    assert_eq!(chain.inspect(), vec![lit("x", false), lit("x", false)]);
}

#[test]
fn inspect_of_empty_instance_is_empty() {
    let inst = instance(vec![]);
    assert_eq!(inst.inspect(), Vec::<Literal>::new());
}

#[test]
fn literal_order_by_name_then_polarity() {
    assert!(lit("a", false) < lit("b", false));
    assert!(lit("a", true) < lit("b", false));
    assert!(lit("a", false) < lit("a", true));
    assert!(!(lit("a", true) < lit("a", false)));
    assert!(lit("ab", false) < lit("b", false));
    assert!(lit("a", false) < lit("ab", false));
    assert_eq!(lit("a", false), lit("a", false));
    assert!(lit("a", false) != lit("a", true));
}

#[test]
fn literal_helpers() {
    assert!(lit("x", false).same_name_as(&lit("x", true)));
    assert!(!lit("x", false).same_name_as(&lit("y", false)));
    assert!(lit("x", false).inverse_of(&lit("x", true)));
    assert!(!lit("x", false).inverse_of(&lit("x", false)));
    assert!(!lit("x", false).inverse_of(&lit("y", true)));
}

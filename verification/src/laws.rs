//! Properties of the evaluation engine, stated and proved once for all
//! instances, clauses and assignments.

use vstd::prelude::*;
use vstd::relations::sorted_by;

use crate::clause::{ClauseV, Operator, all_resolved, clause_sat};
use crate::instance::{all_literals, dedup_inverses, discovered, instance_sat};
use crate::literal::{LiteralV, is_inverse, lit_le, lit_le_fn, names_of};
use crate::literal::{lemma_lit_le_total_ordering, lemma_lit_le_transitive};
use crate::state::{LiteralStateV, Truth, truth_of};

verus! {

/// Partial-assignment strictness: a clause with at least one literal whose
/// variable is absent from the state or has an undetermined value is not
/// satisfied, regardless of its operator and of the other literals' values.
pub proof fn lemma_partial_assignment_strict(c: ClauseV, states: Seq<LiteralStateV>, i: int)
    requires
        0 <= i < c.literals.len(),
        truth_of(c.literals[i], states) == Truth::Unknown,
    ensures
        !clause_sat(c, states),
{
    assert(!all_resolved(c.literals, states));
}

/// Vacuous satisfaction: an instance with no clauses is satisfied by every
/// assignment, including an empty one.
pub proof fn lemma_empty_instance_satisfied(clauses: Seq<ClauseV>, states: Seq<LiteralStateV>)
    requires
        clauses.len() == 0,
    ensures
        instance_sat(clauses, states),
{
}

/// Vacuous satisfaction: an AND clause with no literals is satisfied by
/// every assignment.
pub proof fn lemma_empty_and_clause_satisfied(c: ClauseV, states: Seq<LiteralStateV>)
    requires
        c.operator == Operator::AND,
        c.literals.len() == 0,
    ensures
        clause_sat(c, states),
{
}

/// Vacuous failure: an OR clause with no literals is satisfied by no
/// assignment.
pub proof fn lemma_empty_or_clause_unsatisfied(c: ClauseV, states: Seq<LiteralStateV>)
    requires
        c.operator == Operator::OR,
        c.literals.len() == 0,
    ensures
        !clause_sat(c, states),
{
}

/// Collapsing inverse neighbours keeps the set of variable names intact.
proof fn lemma_dedup_inverses_names(s: Seq<LiteralV>)
    ensures
        names_of(dedup_inverses(s)) =~= names_of(s),
    decreases s.len(),
{
    if s.len() == 0 {
    } else {
        let prev = dedup_inverses(s.drop_last());
        lemma_dedup_inverses_names(s.drop_last());
        assert forall|n: Seq<char>| names_of(s).contains(n) implies names_of(
            dedup_inverses(s),
        ).contains(n) by {
            let i = choose|i: int| 0 <= i < s.len() && s[i].name == n;
            if i < s.len() - 1 {
                assert(s.drop_last()[i].name == n);
                assert(names_of(s.drop_last()).contains(n));
                let j = choose|j: int| 0 <= j < prev.len() && prev[j].name == n;
                if prev.len() > 0 && is_inverse(s.last(), prev.last()) {
                } else {
                    assert(dedup_inverses(s)[j].name == n);
                }
            } else {
                if prev.len() > 0 && is_inverse(s.last(), prev.last()) {
                    assert(prev[prev.len() - 1].name == n);
                } else {
                    assert(dedup_inverses(s)[prev.len() as int].name == n);
                }
            }
        }
        assert forall|n: Seq<char>| names_of(dedup_inverses(s)).contains(n) implies names_of(
            s,
        ).contains(n) by {
            let d = dedup_inverses(s);
            let i = choose|i: int| 0 <= i < d.len() && d[i].name == n;
            if prev.len() > 0 && is_inverse(s.last(), prev.last()) {
                assert(names_of(s.drop_last()).contains(n));
                let j = choose|j: int| 0 <= j < s.len() - 1 && s.drop_last()[j].name == n;
                assert(s[j].name == n);
            } else {
                if i < prev.len() {
                    assert(names_of(s.drop_last()).contains(n));
                    let j = choose|j: int| 0 <= j < s.len() - 1 && s.drop_last()[j].name == n;
                    assert(s[j].name == n);
                } else {
                    assert(s[s.len() - 1].name == n);
                }
            }
        }
    }
}

/// Two sequences with the same elements mention the same variable names.
proof fn lemma_names_of_multiset(s: Seq<LiteralV>, t: Seq<LiteralV>)
    requires
        s.to_multiset() == t.to_multiset(),
    ensures
        names_of(s) =~= names_of(t),
{
    broadcast use vstd::seq_lib::group_to_multiset_ensures;

    assert forall|n: Seq<char>| names_of(s).contains(n) implies names_of(t).contains(n) by {
        let i = choose|i: int| 0 <= i < s.len() && s[i].name == n;
        assert(s.contains(s[i]));
        assert(s.to_multiset().count(s[i]) > 0);
        assert(t.to_multiset().count(s[i]) > 0);
        assert(t.contains(s[i]));
        let j = choose|j: int| 0 <= j < t.len() && t[j] == s[i];
        assert(t[j].name == n);
    }
    assert forall|n: Seq<char>| names_of(t).contains(n) implies names_of(s).contains(n) by {
        let i = choose|i: int| 0 <= i < t.len() && t[i].name == n;
        assert(t.contains(t[i]));
        assert(t.to_multiset().count(t[i]) > 0);
        assert(s.to_multiset().count(t[i]) > 0);
        assert(s.contains(t[i]));
        let j = choose|j: int| 0 <= j < s.len() && s[j] == t[i];
        assert(s[j].name == n);
    }
}

/// Collapsing inverse neighbours keeps a sorted sequence sorted, and never
/// moves its last element past the input sequence's last.
proof fn lemma_dedup_inverses_sorted(s: Seq<LiteralV>)
    requires
        sorted_by(s, lit_le_fn()),
    ensures
        sorted_by(dedup_inverses(s), lit_le_fn()),
        dedup_inverses(s).len() > 0 ==> s.len() > 0 && lit_le(
            dedup_inverses(s).last(),
            s.last(),
        ),
    decreases s.len(),
{
    if s.len() > 0 {
        let d0 = s.drop_last();
        assert forall|p: int, q: int| 0 <= p < q < d0.len() implies #[trigger] lit_le_fn()(
            d0[p],
            d0[q],
        ) by {
            assert(lit_le_fn()(s[p], s[q]));
        }
        lemma_dedup_inverses_sorted(d0);
        let prev = dedup_inverses(d0);
        if prev.len() > 0 && is_inverse(s.last(), prev.last()) {
            assert(d0.len() > 0);
            assert(lit_le_fn()(s[s.len() - 2], s[s.len() - 1]));
            lemma_lit_le_transitive(prev.last(), d0.last(), s.last());
        } else {
            let d = prev.push(s.last());
            assert forall|p: int, q: int| 0 <= p < q < d.len() implies #[trigger] lit_le_fn()(
                d[p],
                d[q],
            ) by {
                if q < prev.len() {
                    assert(lit_le_fn()(prev[p], prev[q]));
                } else {
                    if p < prev.len() - 1 {
                        assert(lit_le_fn()(prev[p], prev[prev.len() - 1]));
                    }
                    assert(d0.len() > 0);
                    assert(lit_le_fn()(s[s.len() - 2], s[s.len() - 1]));
                    lemma_lit_le_transitive(prev[p], prev.last(), d0.last());
                    lemma_lit_le_transitive(prev[p], d0.last(), s.last());
                }
            }
        }
    }
}

/// Variable discovery yields its representatives in sorted order, one
/// reason `inspect` is deterministic.
pub proof fn lemma_discovered_sorted(clauses: Seq<ClauseV>)
    ensures
        sorted_by(discovered(clauses), lit_le_fn()),
{
    lemma_lit_le_total_ordering();
    let all = all_literals(clauses);
    all.lemma_sort_by_ensures(lit_le_fn());
    lemma_dedup_inverses_sorted(all.sort_by(lit_le_fn()));
}

/// Variable discovery is exact: the names mentioned by `discovered` (and so
/// by `inspect`), with polarity ignored, are precisely the distinct
/// variable names that appear anywhere in the instance's clauses.
pub proof fn lemma_discovered_names(clauses: Seq<ClauseV>)
    ensures
        names_of(discovered(clauses)) == names_of(all_literals(clauses)),
{
    lemma_lit_le_total_ordering();
    let all = all_literals(clauses);
    let sorted = all.sort_by(lit_le_fn());
    all.lemma_sort_by_ensures(lit_le_fn());
    lemma_names_of_multiset(sorted, all);
    lemma_dedup_inverses_names(sorted);
}

} // verus!

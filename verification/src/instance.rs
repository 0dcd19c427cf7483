//! Satisfiability instances: an ordered sequence of clauses, evaluated as
//! their conjunction, with discovery of the variables the instance depends
//! on.

use vstd::prelude::*;
use vstd::relations::sorted_by;

use crate::clause::{Clause, ClauseV, clause_sat};
use crate::literal::{Literal, LiteralV, is_inverse, lit_le, lit_le_fn, lits_view};
use crate::literal::{lemma_lit_le_connected, lemma_lit_le_total_ordering, lemma_lit_le_transitive};
use crate::state::{InstanceState, LiteralStateV};

verus! {

/// A conjunction of clauses. The top-level AND is implicit and fixed: it is
/// not a stored operator, and it is independent of each clause's own
/// operator.
#[derive(Debug)]
pub struct SatInstance {
    pub clauses: Vec<Clause>,
}

impl View for SatInstance {
    type V = Seq<ClauseV>;

    open spec fn view(&self) -> Seq<ClauseV> {
        Seq::new(self.clauses@.len(), |i: int| self.clauses@[i]@)
    }
}

/// Instance satisfaction: every clause must be satisfied. An instance with
/// no clauses is vacuously satisfied.
pub open spec fn instance_sat(clauses: Seq<ClauseV>, states: Seq<LiteralStateV>) -> bool {
    forall|i: int| 0 <= i < clauses.len() ==> clause_sat(clauses[i], states)
}

/// Every literal of every clause, in clause order.
pub open spec fn all_literals(clauses: Seq<ClauseV>) -> Seq<LiteralV>
    decreases clauses.len(),
{
    if clauses.len() == 0 {
        Seq::empty()
    } else {
        all_literals(clauses.drop_last()) + clauses.last().literals
    }
}

/// Collapses, left to right, each literal that is the inverse of the last
/// retained literal. On a sorted sequence this leaves one polarity
/// representative per variable name, the first-encountered one; it is not a
/// full group-by-name.
pub open spec fn dedup_inverses(s: Seq<LiteralV>) -> Seq<LiteralV>
    decreases s.len(),
{
    if s.len() == 0 {
        Seq::empty()
    } else {
        let prev = dedup_inverses(s.drop_last());
        if prev.len() > 0 && is_inverse(s.last(), prev.last()) {
            prev
        } else {
            prev.push(s.last())
        }
    }
}

/// The variables an instance depends on, as literal models: every literal
/// of every clause, sorted by the literal order, with adjacent inverse
/// pairs collapsed.
pub open spec fn discovered(clauses: Seq<ClauseV>) -> Seq<LiteralV> {
    dedup_inverses(all_literals(clauses).sort_by(lit_le_fn()))
}

impl SatInstance {
    /// True iff every clause of the instance is satisfied by the given
    /// assignment.
    pub fn satisfied_by(&self, state: &InstanceState) -> (r: bool)
        ensures
            r == instance_sat(self@, state@),
    {
        let n = self.clauses.len();
        let mut i: usize = 0;
        while i < n
            invariant
                n == self.clauses.len(),
                i <= n,
                forall|j: int| 0 <= j < i ==> clause_sat(self@[j], state@),
            decreases n - i,
        {
            if !self.clauses[i].satisfied_by(state) {
                proof {
                    assert(self@[i as int] == self.clauses@[i as int]@);
                    assert(!clause_sat(self@[i as int], state@));
                }
                return false;
            }
            i += 1;
        }
        true
    }

    /// Enumerates the distinct variables the instance depends on: one
    /// representative literal per variable name, in sorted order, per
    /// [`discovered`].
    pub fn inspect(&self) -> (r: Vec<Literal>)
        ensures
            lits_view(r@) == discovered(self@),
    {
        let flat = self.collect_literals();
        let sorted = sort_literals(&flat);
        proof {
            lemma_lit_le_total_ordering();
            lits_view(flat@).lemma_sort_by_ensures(lit_le_fn());
            vstd::seq_lib::lemma_sorted_unique(
                lits_view(sorted@),
                lits_view(flat@).sort_by(lit_le_fn()),
                lit_le_fn(),
            );
            assert(lits_view(sorted@) == all_literals(self@).sort_by(lit_le_fn()));
        }
        let n = sorted.len();
        let mut out: Vec<Literal> = Vec::new();
        let mut i: usize = 0;
        while i < n
            invariant
                n == sorted.len(),
                i <= n,
                lits_view(out@) == dedup_inverses(lits_view(sorted@).take(i as int)),
            decreases n - i,
        {
            let ghost pre = lits_view(out@);
            let keep = if out.len() == 0 {
                true
            } else {
                !sorted[i].inverse_of(&out[out.len() - 1])
            };
            if keep {
                out.push(sorted[i].clone());
                proof {
                    assert(lits_view(out@) =~= pre.push(sorted@[i as int]@));
                }
            }
            proof {
                let s = lits_view(sorted@);
                assert(s.take(i + 1).drop_last() =~= s.take(i as int));
                assert(s.take(i + 1).last() == sorted@[i as int]@);
            }
            i += 1;
        }
        proof {
            assert(lits_view(sorted@).take(n as int) =~= lits_view(sorted@));
        }
        out
    }

    /// Every literal of every clause, in clause order.
    fn collect_literals(&self) -> (r: Vec<Literal>)
        ensures
            lits_view(r@) == all_literals(self@),
    {
        let mut flat: Vec<Literal> = Vec::new();
        let nc = self.clauses.len();
        let mut i: usize = 0;
        while i < nc
            invariant
                nc == self.clauses.len(),
                i <= nc,
                lits_view(flat@) == all_literals(self@.take(i as int)),
            decreases nc - i,
        {
            let ghost pre = lits_view(flat@);
            let c = &self.clauses[i];
            let nl = c.literals.len();
            let mut j: usize = 0;
            while j < nl
                invariant
                    nl == c.literals.len(),
                    i < self.clauses@.len(),
                    c == &self.clauses[i as int],
                    j <= nl,
                    lits_view(flat@) =~= pre + self@[i as int].literals.take(j as int),
                decreases nl - j,
            {
                let ghost mid = lits_view(flat@);
                flat.push(c.literals[j].clone());
                proof {
                    assert(lits_view(flat@) =~= mid.push(c.literals@[j as int]@));
                    assert(c.literals@[j as int]@ == self@[i as int].literals[j as int]);
                    assert(self@[i as int].literals.take(j + 1) =~= self@[i as int].literals.take(
                        j as int,
                    ).push(self@[i as int].literals[j as int]));
                }
                j += 1;
            }
            proof {
                assert(self@[i as int].literals.take(nl as int) =~= self@[i as int].literals);
                assert(self@.take(i + 1).drop_last() =~= self@.take(i as int));
                assert(all_literals(self@.take(i + 1)) == all_literals(self@.take(i as int))
                    + self@[i as int].literals);
            }
            i += 1;
        }
        proof {
            assert(self@.take(nc as int) =~= self@);
        }
        flat
    }
}

impl Clone for SatInstance {
    fn clone(&self) -> (r: Self)
        ensures
            r@ == self@,
    {
        let mut cs: Vec<Clause> = Vec::new();
        let n = self.clauses.len();
        let mut i: usize = 0;
        while i < n
            invariant
                n == self.clauses.len(),
                i <= n,
                cs@.len() == i,
                forall|j: int| 0 <= j < i ==> cs@[j]@ == self.clauses@[j]@,
            decreases n - i,
        {
            cs.push(self.clauses[i].clone());
            i += 1;
        }
        let r = SatInstance { clauses: cs };
        proof {
            assert(r@ =~= self@);
        }
        r
    }
}

/// The index at which `x` belongs in the sorted vector `out`: the first
/// position whose literal does not come at or before `x`.
fn find_insert_pos(out: &Vec<Literal>, x: &Literal) -> (p: usize)
    ensures
        p <= out@.len(),
        forall|k: int| 0 <= k < p ==> lit_le(lits_view(out@)[k], x@),
        p < out@.len() ==> !lit_le(lits_view(out@)[p as int], x@),
{
    let n = out.len();
    let mut j: usize = 0;
    while j < n
        invariant
            n == out.len(),
            j <= n,
            forall|k: int| 0 <= k < j ==> lit_le(lits_view(out@)[k], x@),
        decreases n - j,
    {
        if !out[j].le(x) {
            return j;
        }
        j += 1;
    }
    j
}

/// The input literals in sorted order.
fn sort_literals(input: &Vec<Literal>) -> (r: Vec<Literal>)
    ensures
        sorted_by(lits_view(r@), lit_le_fn()),
        lits_view(r@).to_multiset() == lits_view(input@).to_multiset(),
{
    let mut out: Vec<Literal> = Vec::new();
    let n = input.len();
    proof {
        assert(lits_view(out@) =~= lits_view(input@).take(0));
    }
    let mut i: usize = 0;
    while i < n
        invariant
            n == input.len(),
            i <= n,
            sorted_by(lits_view(out@), lit_le_fn()),
            lits_view(out@).to_multiset() == lits_view(input@).take(i as int).to_multiset(),
        decreases n - i,
    {
        let ghost pre_l = out@;
        let ghost pre = lits_view(out@);
        let x = input[i].clone();
        let pos = find_insert_pos(&out, &x);
        out.insert(pos, x);
        proof {
            lemma_lits_view_insert(pre_l, pos as int, x);
            assert(lits_view(out@) =~= pre.insert(pos as int, x@));
            lemma_sorted_insert(pre, pos as int, x@);
            vstd::seq_lib::to_multiset_insert(pre, pos as int, x@);
            assert(lits_view(input@).take(i + 1) =~= lits_view(input@).take(i as int).push(
                input@[i as int]@,
            ));
            vstd::seq_lib::to_multiset_build(lits_view(input@).take(i as int), input@[i as int]@);
        }
        i += 1;
    }
    proof {
        assert(lits_view(input@).take(n as int) =~= lits_view(input@));
    }
    out
}

/// Viewing a sequence of literals commutes with inserting one.
proof fn lemma_lits_view_insert(s: Seq<Literal>, j: int, x: Literal)
    requires
        0 <= j <= s.len(),
    ensures
        lits_view(s.insert(j, x)) =~= lits_view(s).insert(j, x@),
{
    s.insert_ensures(j, x);
    lits_view(s).insert_ensures(j, x@);
    assert forall|k: int| 0 <= k < s.len() + 1 implies lits_view(s.insert(j, x))[k] == lits_view(
        s,
    ).insert(j, x@)[k] by {
        if k < j {
            assert(s.insert(j, x)[k] == s[k]);
        } else if k > j {
            assert(s.insert(j, x)[k] == s[k - 1]);
        }
    }
}

/// Inserting an element at the position `find_insert_pos` picks keeps the
/// sequence sorted.
proof fn lemma_sorted_insert(s: Seq<LiteralV>, j: int, x: LiteralV)
    requires
        sorted_by(s, lit_le_fn()),
        0 <= j <= s.len(),
        forall|k: int| 0 <= k < j ==> lit_le(s[k], x),
        j < s.len() ==> !lit_le(s[j], x),
    ensures
        sorted_by(s.insert(j, x), lit_le_fn()),
{
    s.insert_ensures(j, x);
    let t = s.insert(j, x);
    if j < s.len() {
        lemma_lit_le_connected(s[j], x);
    }
    assert forall|k: int| j <= k < s.len() implies lit_le(x, s[k]) by {
        if k > j {
            assert(lit_le_fn()(s[j], s[k]));
            lemma_lit_le_transitive(x, s[j], s[k]);
        }
    }
    assert forall|p: int, q: int| 0 <= p < q < t.len() implies #[trigger] lit_le_fn()(
        t[p],
        t[q],
    ) by {
        if q < j {
            assert(lit_le_fn()(s[p], s[q]));
        } else if p < j && q == j {
            assert(lit_le(s[p], x));
        } else if p < j && q > j {
            assert(lit_le_fn()(s[p], s[q - 1]));
        } else if p == j {
            assert(lit_le(x, s[q - 1]));
        } else {
            assert(lit_le_fn()(s[p - 1], s[q - 1]));
        }
    }
}

} // verus!

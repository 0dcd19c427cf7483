//! Clauses: an AND/OR operator over an ordered sequence of literals, and
//! clause satisfaction under a partial assignment.

use vstd::prelude::*;

use crate::literal::{Literal, LiteralV};
use crate::state::{InstanceState, LiteralStateV, Truth, truth_of};

verus! {

/// The operator a clause combines its literals with. It applies only inside
/// the clause; the instance level conjunction is fixed.
#[derive(Clone, Copy, PartialEq, Eq, Structural, Debug)]
pub enum Operator {
    OR,
    AND,
}

/// An operator over an ordered sequence of literals. Literals may repeat;
/// no deduplication happens at this level.
#[derive(Debug)]
pub struct Clause {
    pub operator: Operator,
    pub literals: Vec<Literal>,
}

/// Mathematical model of a [`Clause`].
#[verifier::ext_equal]
pub struct ClauseV {
    pub operator: Operator,
    pub literals: Seq<LiteralV>,
}

impl View for Clause {
    type V = ClauseV;

    open spec fn view(&self) -> ClauseV {
        ClauseV {
            operator: self.operator,
            literals: Seq::new(self.literals@.len(), |i: int| self.literals@[i]@),
        }
    }
}

/// Every literal of the sequence resolves to a determined truth value.
pub open spec fn all_resolved(lits: Seq<LiteralV>, states: Seq<LiteralStateV>) -> bool {
    forall|i: int| 0 <= i < lits.len() ==> truth_of(lits[i], states) != Truth::Unknown
}

/// At least one literal of the sequence resolves to true.
pub open spec fn some_true(lits: Seq<LiteralV>, states: Seq<LiteralStateV>) -> bool {
    exists|i: int| 0 <= i < lits.len() && truth_of(lits[i], states) == Truth::True
}

/// Every literal of the sequence resolves to true.
pub open spec fn all_true(lits: Seq<LiteralV>, states: Seq<LiteralStateV>) -> bool {
    forall|i: int| 0 <= i < lits.len() ==> truth_of(lits[i], states) == Truth::True
}

/// Clause satisfaction under the strict partial-assignment policy: a clause
/// with any unresolved literal is unsatisfied, whatever its operator and
/// the other literals; otherwise OR asks for at least one true literal and
/// AND for all of them. An OR clause with no literals is never satisfied;
/// an AND clause with no literals always is.
pub open spec fn clause_sat(c: ClauseV, states: Seq<LiteralStateV>) -> bool {
    all_resolved(c.literals, states) && match c.operator {
        Operator::OR => some_true(c.literals, states),
        Operator::AND => all_true(c.literals, states),
    }
}

impl Clause {
    /// True iff this clause is satisfied by the given assignment, per the
    /// strict policy of [`clause_sat`].
    pub fn satisfied_by(&self, state: &InstanceState) -> (r: bool)
        ensures
            r == clause_sat(self@, state@),
    {
        let mut resolved = true;
        let mut any_true = false;
        let mut every_true = true;
        let n = self.literals.len();
        let mut i: usize = 0;
        while i < n
            invariant
                n == self.literals.len(),
                i <= n,
                resolved == (forall|j: int|
                    0 <= j < i ==> truth_of(self@.literals[j], state@) != Truth::Unknown),
                any_true == (exists|j: int|
                    0 <= j < i && truth_of(self@.literals[j], state@) == Truth::True),
                every_true == (forall|j: int|
                    0 <= j < i ==> truth_of(self@.literals[j], state@) == Truth::True),
            decreases n - i,
        {
            let t = state.resolve(&self.literals[i]);
            proof {
                assert(self.literals@[i as int]@ == self@.literals[i as int]);
                assert(t == truth_of(self@.literals[i as int], state@));
            }
            match t {
                Truth::Unknown => {
                    resolved = false;
                    every_true = false;
                },
                Truth::True => {
                    any_true = true;
                },
                Truth::False => {
                    every_true = false;
                },
            }
            i += 1;
        }
        if !resolved {
            false
        } else {
            match self.operator {
                Operator::OR => any_true,
                Operator::AND => every_true,
            }
        }
    }
}

impl Clone for Clause {
    fn clone(&self) -> (r: Self)
        ensures
            r@ == self@,
    {
        let mut lits: Vec<Literal> = Vec::new();
        let n = self.literals.len();
        let mut i: usize = 0;
        while i < n
            invariant
                n == self.literals.len(),
                i <= n,
                lits@.len() == i,
                forall|j: int| 0 <= j < i ==> lits@[j]@ == self.literals@[j]@,
            decreases n - i,
        {
            lits.push(self.literals[i].clone());
            i += 1;
        }
        let r = Clause { operator: self.operator, literals: lits };
        proof {
            assert(r@.literals =~= self@.literals);
            assert(r@ =~= self@);
        }
        r
    }
}

} // verus!

//! Partial assignments: a literal's observed truth value, the flat
//! collection of such observations, and three-valued resolution of a clause
//! literal against that collection.

use vstd::prelude::*;

use crate::literal::{Literal, LiteralV};

verus! {

/// Three-valued truth: the value a literal resolves to under a partial
/// assignment.
#[derive(Clone, Copy, PartialEq, Eq, Structural, Debug)]
pub enum Truth {
    True,
    False,
    Unknown,
}

/// A literal together with its observed truth value. `None` means the truth
/// is not yet determined. A `Some` value records the truth of the bare
/// variable name as stored; each clause literal applies its own polarity on
/// top of it.
#[derive(Debug)]
pub struct LiteralState {
    pub literal: Literal,
    pub value: Option<bool>,
}

/// Mathematical model of a [`LiteralState`].
#[verifier::ext_equal]
pub struct LiteralStateV {
    pub literal: LiteralV,
    pub value: Option<bool>,
}

impl View for LiteralState {
    type V = LiteralStateV;

    open spec fn view(&self) -> LiteralStateV {
        LiteralStateV { literal: self.literal@, value: self.value }
    }
}

/// A (possibly partial) assignment: a flat collection of literal states,
/// looked up by variable name with first-match semantics.
#[derive(Debug)]
pub struct InstanceState {
    pub states: Vec<LiteralState>,
}

impl View for InstanceState {
    type V = Seq<LiteralStateV>;

    open spec fn view(&self) -> Seq<LiteralStateV> {
        Seq::new(self.states@.len(), |i: int| self.states@[i]@)
    }
}

/// The first state whose literal has the given name, if any; later entries
/// for the same name are ignored.
pub open spec fn find_first(states: Seq<LiteralStateV>, name: Seq<char>) -> Option<LiteralStateV>
    decreases states.len(),
{
    if states.len() == 0 {
        None
    } else if states[0].literal.name == name {
        Some(states[0])
    } else {
        find_first(states.drop_first(), name)
    }
}

/// Three-valued truth of a clause literal under an assignment: unknown when
/// the variable has no state or its value is undetermined, otherwise the
/// stored value with the literal's polarity applied.
pub open spec fn truth_of(lit: LiteralV, states: Seq<LiteralStateV>) -> Truth {
    match find_first(states, lit.name) {
        None => Truth::Unknown,
        Some(ls) => match ls.value {
            None => Truth::Unknown,
            Some(b) => if b != lit.negated {
                Truth::True
            } else {
                Truth::False
            },
        },
    }
}

proof fn lemma_find_first_at(states: Seq<LiteralStateV>, name: Seq<char>, i: int)
    requires
        0 <= i < states.len(),
        states[i].literal.name == name,
        forall|j: int| 0 <= j < i ==> states[j].literal.name != name,
    ensures
        find_first(states, name) == Some(states[i]),
    decreases i,
{
    if i > 0 {
        lemma_find_first_at(states.drop_first(), name, i - 1);
    }
}

proof fn lemma_find_first_none(states: Seq<LiteralStateV>, name: Seq<char>)
    requires
        forall|j: int| 0 <= j < states.len() ==> states[j].literal.name != name,
    ensures
        find_first(states, name) == None::<LiteralStateV>,
    decreases states.len(),
{
    if states.len() > 0 {
        lemma_find_first_none(states.drop_first(), name);
    }
}

impl InstanceState {
    /// Resolves a clause literal to its three-valued truth under this
    /// assignment: first match by name, unknown when absent or
    /// undetermined, the literal's polarity applied to the stored value.
    pub fn resolve(&self, lit: &Literal) -> (t: Truth)
        ensures
            t == truth_of(lit@, self@),
    {
        let n = self.states.len();
        let mut i: usize = 0;
        while i < n
            invariant
                n == self.states.len(),
                i <= n,
                forall|j: int| 0 <= j < i ==> self@[j].literal.name != lit@.name,
            decreases n - i,
        {
            let entry = &self.states[i];
            if entry.literal.same_name_as(lit) {
                proof {
                    lemma_find_first_at(self@, lit@.name, i as int);
                }
                match entry.value {
                    None => {
                        return Truth::Unknown;
                    },
                    Some(b) => {
                        if b != lit.negated {
                            return Truth::True;
                        } else {
                            return Truth::False;
                        }
                    },
                }
            }
            i += 1;
        }
        proof {
            lemma_find_first_none(self@, lit@.name);
        }
        Truth::Unknown
    }
}

impl Clone for LiteralState {
    fn clone(&self) -> (r: Self)
        ensures
            r@ == self@,
    {
        LiteralState { literal: self.literal.clone(), value: self.value }
    }
}

impl Clone for InstanceState {
    fn clone(&self) -> (r: Self)
        ensures
            r@ == self@,
    {
        let mut entries: Vec<LiteralState> = Vec::new();
        let n = self.states.len();
        let mut i: usize = 0;
        while i < n
            invariant
                n == self.states.len(),
                i <= n,
                entries@.len() == i,
                forall|j: int| 0 <= j < i ==> entries@[j]@ == self.states@[j]@,
            decreases n - i,
        {
            entries.push(self.states[i].clone());
            i += 1;
        }
        let r = InstanceState { states: entries };
        proof {
            assert(r@ =~= self@);
        }
        r
    }
}

impl PartialEq for LiteralState {
    fn eq(&self, other: &Self) -> bool {
        self.literal == other.literal && self.value == other.value
    }
}

impl vstd::std_specs::cmp::PartialEqSpecImpl for LiteralState {
    open spec fn obeys_eq_spec() -> bool {
        true
    }

    open spec fn eq_spec(&self, other: &Self) -> bool {
        self@ == other@
    }
}

} // verus!

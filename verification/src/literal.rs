//! Literals: named boolean variable references with a polarity, together
//! with their equality and their total order (by name, then polarity).

use vstd::prelude::*;

verus! {

/// A named boolean variable reference. `negated` means the literal asserts
/// the variable's negation.
#[derive(Debug)]
pub struct Literal {
    pub name: String,
    pub negated: bool,
}

/// Mathematical model of a [`Literal`]: the variable name as a sequence of
/// characters, and the polarity.
#[verifier::ext_equal]
pub struct LiteralV {
    pub name: Seq<char>,
    pub negated: bool,
}

impl View for Literal {
    type V = LiteralV;

    open spec fn view(&self) -> LiteralV {
        LiteralV { name: self.name@, negated: self.negated }
    }
}

/// Two literal models are inverses iff the names match and the polarities
/// differ.
pub open spec fn is_inverse(a: LiteralV, b: LiteralV) -> bool {
    a.name == b.name && a.negated != b.negated
}

/// Strict lexicographic order on character sequences, comparing characters
/// by Unicode scalar value.
pub open spec fn chars_lt(a: Seq<char>, b: Seq<char>) -> bool
    decreases a.len(),
{
    if b.len() == 0 {
        false
    } else if a.len() == 0 {
        true
    } else if a[0] as u32 == b[0] as u32 {
        chars_lt(a.drop_first(), b.drop_first())
    } else {
        (a[0] as u32) < (b[0] as u32)
    }
}

/// Total order on literal models: primarily by name (lexicographic),
/// secondarily by polarity, non-negated before negated.
pub open spec fn lit_le(a: LiteralV, b: LiteralV) -> bool {
    if a.name == b.name {
        !a.negated || b.negated
    } else {
        chars_lt(a.name, b.name)
    }
}

/// The models of a sequence of literals, element for element.
pub open spec fn lits_view(s: Seq<Literal>) -> Seq<LiteralV> {
    Seq::new(s.len(), |i: int| s[i]@)
}

/// The set of variable names that occur in a sequence of literal models.
pub open spec fn names_of(s: Seq<LiteralV>) -> Set<Seq<char>> {
    Set::new(|n: Seq<char>| exists|i: int| 0 <= i < s.len() && s[i].name == n)
}

/// The literal order as a function value, for use with sequence sorting.
pub open spec fn lit_le_fn() -> spec_fn(LiteralV, LiteralV) -> bool {
    |a: LiteralV, b: LiteralV| lit_le(a, b)
}

impl Literal {
    /// True iff the two literals refer to the same variable, regardless of
    /// polarity.
    pub fn same_name_as(&self, other: &Self) -> (r: bool)
        ensures
            r == (self@.name == other@.name),
    {
        self.name == other.name
    }

    /// True iff the two literals refer to the same variable with opposite
    /// polarity.
    pub fn inverse_of(&self, other: &Self) -> (r: bool)
        ensures
            r == is_inverse(self@, other@),
    {
        self.same_name_as(other) && self.negated != other.negated
    }

    /// True iff `self` comes no later than `other` in the literal order.
    pub fn le(&self, other: &Self) -> (r: bool)
        ensures
            r == lit_le(self@, other@),
    {
        if self.name == other.name {
            !self.negated || other.negated
        } else {
            str_lt(self.name.as_str(), other.name.as_str())
        }
    }
}

/// Compares two strings lexicographically by Unicode scalar value.
fn str_lt(a: &str, b: &str) -> (r: bool)
    ensures
        r == chars_lt(a@, b@),
    decreases a@.len(),
{
    let alen = a.unicode_len();
    let blen = b.unicode_len();
    if blen == 0 {
        false
    } else if alen == 0 {
        true
    } else {
        let ca = a.get_char(0);
        let cb = b.get_char(0);
        if ca as u32 == cb as u32 {
            let ra = a.substring_char(1, alen);
            let rb = b.substring_char(1, blen);
            proof {
                assert(ra@ =~= a@.drop_first());
                assert(rb@ =~= b@.drop_first());
            }
            str_lt(ra, rb)
        } else {
            (ca as u32) < (cb as u32)
        }
    }
}

impl Clone for Literal {
    fn clone(&self) -> (r: Self)
        ensures
            r@ == self@,
    {
        Literal { name: self.name.clone(), negated: self.negated }
    }
}

impl PartialEq for Literal {
    fn eq(&self, other: &Self) -> bool {
        self.name == other.name && self.negated == other.negated
    }
}

impl Eq for Literal {}

impl vstd::std_specs::cmp::PartialEqSpecImpl for Literal {
    open spec fn obeys_eq_spec() -> bool {
        true
    }

    open spec fn eq_spec(&self, other: &Self) -> bool {
        self@ == other@
    }
}

impl vstd::std_specs::cmp::PartialOrdSpecImpl for Literal {
    open spec fn obeys_partial_cmp_spec() -> bool {
        true
    }

    open spec fn partial_cmp_spec(&self, other: &Self) -> Option<core::cmp::Ordering> {
        if self@ == other@ {
            Some(core::cmp::Ordering::Equal)
        } else if lit_le(self@, other@) {
            Some(core::cmp::Ordering::Less)
        } else {
            Some(core::cmp::Ordering::Greater)
        }
    }
}

impl PartialOrd for Literal {
    fn partial_cmp(&self, other: &Self) -> Option<core::cmp::Ordering> {
        if self.name == other.name {
            if self.negated == other.negated {
                Some(core::cmp::Ordering::Equal)
            } else if !self.negated {
                Some(core::cmp::Ordering::Less)
            } else {
                Some(core::cmp::Ordering::Greater)
            }
        } else if str_lt(self.name.as_str(), other.name.as_str()) {
            Some(core::cmp::Ordering::Less)
        } else {
            Some(core::cmp::Ordering::Greater)
        }
    }
}

/// No character sequence is lexicographically below itself.
pub proof fn lemma_chars_lt_irreflexive(a: Seq<char>)
    ensures
        !chars_lt(a, a),
    decreases a.len(),
{
    if a.len() > 0 {
        lemma_chars_lt_irreflexive(a.drop_first());
    }
}

/// Any two character sequences are lexicographically comparable.
pub proof fn lemma_chars_lt_connected(a: Seq<char>, b: Seq<char>)
    ensures
        chars_lt(a, b) || chars_lt(b, a) || a == b,
    decreases a.len(),
{
    if a.len() == 0 && b.len() == 0 {
        assert(a =~= b);
    } else if a.len() > 0 && b.len() > 0 {
        if a[0] as u32 == b[0] as u32 {
            vstd::utf8::char_u32_cast(a[0], a[0] as u32);
            vstd::utf8::char_u32_cast(b[0], b[0] as u32);
            assert(a[0] == b[0]);
            lemma_chars_lt_connected(a.drop_first(), b.drop_first());
            if a.drop_first() == b.drop_first() {
                assert(a.drop_first().len() == b.drop_first().len());
                assert(a.len() == b.len());
                assert forall|i: int| 0 <= i < a.len() implies a[i] == b[i] by {
                    if i > 0 {
                        assert(a.drop_first()[i - 1] == b.drop_first()[i - 1]);
                        assert(a[i] == a.drop_first()[i - 1]);
                        assert(b[i] == b.drop_first()[i - 1]);
                    }
                }
                assert(a =~= b);
            }
        }
    }
}

/// The lexicographic order on character sequences is transitive.
pub proof fn lemma_chars_lt_transitive(a: Seq<char>, b: Seq<char>, c: Seq<char>)
    requires
        chars_lt(a, b),
        chars_lt(b, c),
    ensures
        chars_lt(a, c),
    decreases a.len(),
{
    if a.len() > 0 {
        if a[0] as u32 == b[0] as u32 && b[0] as u32 == c[0] as u32 {
            lemma_chars_lt_transitive(a.drop_first(), b.drop_first(), c.drop_first());
        }
    }
}

/// The literal order is antisymmetric: mutual `lit_le` means equality.
pub proof fn lemma_lit_le_antisymmetric(a: LiteralV, b: LiteralV)
    requires
        lit_le(a, b),
        lit_le(b, a),
    ensures
        a == b,
{
    if a.name == b.name {
        assert(a =~= b);
    } else {
        lemma_chars_lt_transitive(a.name, b.name, a.name);
        lemma_chars_lt_irreflexive(a.name);
    }
}

/// The literal order is transitive.
pub proof fn lemma_lit_le_transitive(a: LiteralV, b: LiteralV, c: LiteralV)
    requires
        lit_le(a, b),
        lit_le(b, c),
    ensures
        lit_le(a, c),
{
    if a.name != b.name && b.name != c.name {
        lemma_chars_lt_transitive(a.name, b.name, c.name);
        if a.name == c.name {
            lemma_chars_lt_irreflexive(a.name);
        }
    }
}

/// Any two literal models are comparable under the literal order.
pub proof fn lemma_lit_le_connected(a: LiteralV, b: LiteralV)
    ensures
        lit_le(a, b) || lit_le(b, a),
{
    if a.name != b.name {
        lemma_chars_lt_connected(a.name, b.name);
    }
}

/// The literal order is a total order, fit for sorting and deduplication.
pub proof fn lemma_lit_le_total_ordering()
    ensures
        vstd::relations::total_ordering(lit_le_fn()),
{
    let r = lit_le_fn();
    assert forall|x: LiteralV| #[trigger] r(x, x) by {}
    assert forall|x: LiteralV, y: LiteralV| #[trigger] r(x, y) && #[trigger] r(y, x) implies x
        == y by {
        lemma_lit_le_antisymmetric(x, y);
    }
    assert forall|x: LiteralV, y: LiteralV, z: LiteralV|
        #[trigger] r(x, y) && #[trigger] r(y, z) implies r(x, z) by {
        lemma_lit_le_transitive(x, y, z);
    }
    assert forall|x: LiteralV, y: LiteralV| #[trigger] r(x, y) || #[trigger] r(y, x) by {
        lemma_lit_le_connected(x, y);
    }
}

} // verus!

//! Boolean conditions over the variable store and the player's item holdings:
//! a recursive expression tree of conjunctions, disjunctions, negations,
//! named comparisons and item-possession tests.

use vstd::prelude::*;

use crate::variable::{ValueV, Variable};

verus! {

broadcast use vstd::std_specs::vec::group_vec_axioms;

/// A comparator of a named comparison. Ordering comparators are valid only
/// for integer variables; equality and inequality for any pair of one tag.
#[derive(Debug, Clone, Copy, PartialEq, Eq, Structural)]
pub enum ComparisonOp {
    EQ,
    NEQ,
    GT,
    GTE,
    LT,
    LTE,
}

/// A named comparison: a variable name, a comparator, and a literal value.
#[derive(Debug, Clone)]
pub struct Operation {
    pub name: String,
    pub op: ComparisonOp,
    pub value: Variable,
}

/// A recursive boolean expression over variables and item holdings.
#[derive(Debug)]
pub enum Condition {
    /// True iff all children are true; an empty list is true.
    And(Vec<Condition>),
    /// True iff any child is true; an empty list is false.
    Or(Vec<Condition>),
    /// The boolean complement of the child.
    Not(Box<Condition>),
    /// A named comparison against the variable store.
    Op(Operation),
    /// True iff the player holds at least one instance of the named item.
    HasItem(String),
}

/// The mathematical form of an [`Operation`].
pub struct OperationV {
    pub name: Seq<char>,
    pub op: ComparisonOp,
    pub value: ValueV,
}

/// The mathematical form of a [`Condition`].
pub enum ConditionV {
    And(Seq<ConditionV>),
    Or(Seq<ConditionV>),
    Not(Box<ConditionV>),
    Op(OperationV),
    HasItem(Seq<char>),
}

impl View for Operation {
    type V = OperationV;

    open spec fn view(&self) -> OperationV {
        OperationV { name: self.name@, op: self.op, value: self.value@ }
    }
}

/// The mathematical form of a list of conditions.
pub open spec fn conds_view(s: Seq<Condition>) -> Seq<ConditionV>
    decreases s,
{
    if s.len() == 0 {
        Seq::empty()
    } else {
        seq![cond_view(s[0])] + conds_view(s.drop_first())
    }
}

/// The mathematical form of a condition tree.
pub open spec fn cond_view(c: Condition) -> ConditionV
    decreases c,
{
    match c {
        Condition::And(cs) => ConditionV::And(conds_view(cs@)),
        Condition::Or(cs) => ConditionV::Or(conds_view(cs@)),
        Condition::Not(child) => ConditionV::Not(Box::new(cond_view(*child))),
        Condition::Op(o) => ConditionV::Op(o@),
        Condition::HasItem(name) => ConditionV::HasItem(name@),
    }
}

/// Each element of the mathematical form of a list is the mathematical form
/// of the corresponding element.
pub proof fn lemma_conds_view(s: Seq<Condition>)
    ensures
        conds_view(s).len() == s.len(),
        forall|i: int| 0 <= i < s.len() ==> conds_view(s)[i] == cond_view(#[trigger] s[i]),
    decreases s,
{
    if s.len() > 0 {
        lemma_conds_view(s.drop_first());
        assert forall|i: int| 0 <= i < s.len() implies conds_view(s)[i] == cond_view(
            #[trigger] s[i],
        ) by {
            if i > 0 {
                assert(conds_view(s)[i] == conds_view(s.drop_first())[i - 1]);
                assert(s.drop_first()[i - 1] == s[i]);
            }
        }
    }
}

impl View for Condition {
    type V = ConditionV;

    open spec fn view(&self) -> ConditionV {
        cond_view(*self)
    }
}

/// Copies an operation; the copy's mathematical form equals the
/// original's.
pub fn clone_operation(o: &Operation) -> (r: Operation)
    ensures
        r@ == o@,
{
    Operation {
        name: o.name.clone(),
        op: o.op,
        value: crate::variable::clone_variable(&o.value),
    }
}

/// Copies a condition tree; the copy's mathematical form equals the
/// original's.
pub fn clone_condition(c: &Condition) -> (r: Condition)
    ensures
        r@ == c@,
    decreases *c,
{
    match c {
        Condition::And(cs) => {
            let rv = clone_condition_vec(cs);
            proof {
                lemma_conds_view(rv@);
                lemma_conds_view(cs@);
                assert forall|i: int| 0 <= i < rv@.len() implies conds_view(rv@)[i]
                    == conds_view(cs@)[i] by {
                    assert(cond_view(rv@[i]) == cond_view(cs@[i]));
                }
                assert(conds_view(rv@) =~= conds_view(cs@));
            }
            Condition::And(rv)
        },
        Condition::Or(cs) => {
            let rv = clone_condition_vec(cs);
            proof {
                lemma_conds_view(rv@);
                lemma_conds_view(cs@);
                assert forall|i: int| 0 <= i < rv@.len() implies conds_view(rv@)[i]
                    == conds_view(cs@)[i] by {
                    assert(cond_view(rv@[i]) == cond_view(cs@[i]));
                }
                assert(conds_view(rv@) =~= conds_view(cs@));
            }
            Condition::Or(rv)
        },
        Condition::Not(child) => Condition::Not(Box::new(clone_condition(&*child))),
        Condition::Op(o) => Condition::Op(clone_operation(o)),
        Condition::HasItem(name) => Condition::HasItem(name.clone()),
    }
}

/// Copies a list of conditions, element by element.
fn clone_condition_vec(cs: &Vec<Condition>) -> (r: Vec<Condition>)
    ensures
        r@.len() == cs@.len(),
        forall|i: int| 0 <= i < cs@.len() ==> cond_view(#[trigger] r@[i]) == cond_view(cs@[i]),
    decreases *cs,
{
    let mut r: Vec<Condition> = Vec::new();
    let mut i: usize = 0;
    while i < cs.len()
        invariant
            i <= cs.len(),
            r@.len() == i,
            forall|j: int| 0 <= j < i ==> cond_view(#[trigger] r@[j]) == cond_view(cs@[j]),
        decreases cs.len() - i,
    {
        r.push(clone_condition(&cs[i]));
        i = i + 1;
    }
    r
}

} // verus!

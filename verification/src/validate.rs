//! Validity of loaded content: every variable or item reference resolves to
//! a declaration of the right tag, and every page destination is a resolved
//! in-range index. The loader establishes these predicates; the engine
//! relies on them and preserves them.

use vstd::prelude::*;

use crate::condition::{ComparisonOp, ConditionV, OperationV};
use crate::item::{ItemDefV, ItemV};
use crate::story::{LinkActionV, LinkDestV, LinkTriggerV, LinkV, PageRefV, PageV};
use crate::variable::VarType;

verus! {

/// A destination is valid when any page reference in it is a resolved index
/// into the page table.
pub open spec fn dest_ok(d: LinkDestV, npages: int) -> bool {
    match d {
        LinkDestV::Page(r) => r matches PageRefV::Resolved(i) && 0 <= i < npages,
        _ => true,
    }
}

/// An action is valid when the variables it writes exist with the tag it
/// needs, the items it touches are declared, and a proposed destination is
/// valid.
pub open spec fn action_ok(
    a: LinkActionV,
    tags: Map<Seq<char>, VarType>,
    items: Set<Seq<char>>,
    npages: int,
) -> bool {
    match a {
        LinkActionV::SetVar { name, value } => tags.dom().contains(name) && tags[name]
            == value.typ(),
        LinkActionV::ModNum { name, .. } => tags.dom().contains(name) && tags[name]
            == VarType::Num,
        LinkActionV::ToggleBool(name) => tags.dom().contains(name) && tags[name] == VarType::Bool,
        LinkActionV::SetDest(d) => dest_ok(d, npages),
        LinkActionV::Prompt(p) => match p.variable {
            Some(n) => tags.dom().contains(n),
            None => true,
        },
        LinkActionV::AcquireItem(n) => items.contains(n),
        LinkActionV::DropItem(n) => items.contains(n),
        LinkActionV::UseItem(n) => items.contains(n),
    }
}

/// Every action of a list is valid.
pub open spec fn actions_ok(
    s: Seq<LinkActionV>,
    tags: Map<Seq<char>, VarType>,
    items: Set<Seq<char>>,
    npages: int,
) -> bool {
    forall|i: int| 0 <= i < s.len() ==> action_ok(#[trigger] s[i], tags, items, npages)
}

/// A comparison is valid when its variable is declared, ordering comparators
/// compare an integer variable against an integer literal, and equality
/// comparators compare operands of one tag.
pub open spec fn op_ok(o: OperationV, tags: Map<Seq<char>, VarType>) -> bool {
    &&& tags.dom().contains(o.name)
    &&& match o.op {
        ComparisonOp::GT | ComparisonOp::GTE | ComparisonOp::LT | ComparisonOp::LTE => {
            tags[o.name] == VarType::Num && o.value.typ() == VarType::Num
        },
        ComparisonOp::EQ | ComparisonOp::NEQ => tags[o.name] == o.value.typ(),
    }
}

/// Every condition of a list is valid.
pub open spec fn conds_ok(
    cs: Seq<ConditionV>,
    tags: Map<Seq<char>, VarType>,
    items: Set<Seq<char>>,
) -> bool
    decreases cs,
{
    cs.len() == 0 || (cond_ok(cs[0], tags, items) && conds_ok(cs.drop_first(), tags, items))
}

/// A condition is valid when every comparison and item test in it is.
pub open spec fn cond_ok(
    c: ConditionV,
    tags: Map<Seq<char>, VarType>,
    items: Set<Seq<char>>,
) -> bool
    decreases c,
{
    match c {
        ConditionV::And(cs) => conds_ok(cs, tags, items),
        ConditionV::Or(cs) => conds_ok(cs, tags, items),
        ConditionV::Not(c2) => cond_ok(*c2, tags, items),
        ConditionV::Op(o) => op_ok(o, tags),
        ConditionV::HasItem(n) => items.contains(n),
    }
}

/// A trigger is valid when its condition and all its actions are.
pub open spec fn trigger_ok(
    t: LinkTriggerV,
    tags: Map<Seq<char>, VarType>,
    items: Set<Seq<char>>,
    npages: int,
) -> bool {
    cond_ok(t.condition, tags, items) && actions_ok(t.actions, tags, items, npages)
}

/// A link is valid when its destination, actions and triggers are.
pub open spec fn link_ok(
    l: LinkV,
    tags: Map<Seq<char>, VarType>,
    items: Set<Seq<char>>,
    npages: int,
) -> bool {
    &&& dest_ok(l.dest, npages)
    &&& actions_ok(l.actions, tags, items, npages)
    &&& forall|i: int|
        0 <= i < l.triggers.len() ==> trigger_ok(#[trigger] l.triggers[i], tags, items, npages)
}

/// A page is valid when all its links are.
pub open spec fn page_ok(
    p: PageV,
    tags: Map<Seq<char>, VarType>,
    items: Set<Seq<char>>,
    npages: int,
) -> bool {
    forall|i: int| 0 <= i < p.links.len() ==> link_ok(#[trigger] p.links[i], tags, items, npages)
}

/// A page table is valid when all its pages are.
pub open spec fn graph_ok(
    pages: Seq<PageV>,
    tags: Map<Seq<char>, VarType>,
    items: Set<Seq<char>>,
) -> bool {
    forall|i: int|
        0 <= i < pages.len() ==> page_ok(#[trigger] pages[i], tags, items, pages.len() as int)
}

/// An item template is valid when a declared maximum is in range and its
/// effect action is valid.
pub open spec fn def_ok(
    d: ItemDefV,
    tags: Map<Seq<char>, VarType>,
    items: Set<Seq<char>>,
    npages: int,
) -> bool {
    &&& match d.max_uses {
        Some(m) => crate::item::ITEM_MIN_USES <= m <= crate::item::ITEM_MAX_USES,
        None => true,
    }
    &&& action_ok(d.effect, tags, items, npages)
}

/// The registered templates are valid: each is registered under its own name
/// and is itself valid.
pub open spec fn defs_ok(
    defs: Map<Seq<char>, ItemDefV>,
    tags: Map<Seq<char>, VarType>,
    npages: int,
) -> bool {
    forall|k: Seq<char>| #[trigger]
        defs.dom().contains(k) ==> defs[k].name == k && def_ok(defs[k], tags, defs.dom(), npages)
}

/// Every held instance carries a valid template, so firing its effect keeps
/// the engine's invariants.
pub open spec fn holdings_ok(
    m: Map<Seq<char>, Seq<ItemV>>,
    tags: Map<Seq<char>, VarType>,
    items: Set<Seq<char>>,
    npages: int,
) -> bool {
    forall|k: Seq<char>| #[trigger] m.dom().contains(k) ==> forall|i: int|
        0 <= i < m[k].len() ==> def_ok((#[trigger] m[k][i]).def, tags, items, npages)
}

/// A list of conditions is valid exactly when each of its elements is.
pub proof fn lemma_conds_ok(
    cs: Seq<ConditionV>,
    tags: Map<Seq<char>, VarType>,
    items: Set<Seq<char>>,
)
    ensures
        conds_ok(cs, tags, items) <==> (forall|i: int|
            0 <= i < cs.len() ==> cond_ok(#[trigger] cs[i], tags, items)),
    decreases cs.len(),
{
    if cs.len() > 0 {
        lemma_conds_ok(cs.drop_first(), tags, items);
        if conds_ok(cs, tags, items) {
            assert forall|i: int| 0 <= i < cs.len() implies cond_ok(
                #[trigger] cs[i],
                tags,
                items,
            ) by {
                if i > 0 {
                    assert(cs.drop_first()[i - 1] == cs[i]);
                    assert(cond_ok(cs.drop_first()[i - 1], tags, items));
                }
            }
        }
        if forall|i: int| 0 <= i < cs.len() ==> cond_ok(#[trigger] cs[i], tags, items) {
            assert forall|i: int| 0 <= i < cs.drop_first().len() implies cond_ok(
                #[trigger] cs.drop_first()[i],
                tags,
                items,
            ) by {
                assert(cs.drop_first()[i] == cs[i + 1]);
            }
            assert(cond_ok(cs[0], tags, items));
            assert(conds_ok(cs.drop_first(), tags, items));
        }
    }
}

/// The children of a valid conjunction are valid.
pub proof fn lemma_cond_ok_and(
    cs: Seq<ConditionV>,
    tags: Map<Seq<char>, VarType>,
    items: Set<Seq<char>>,
)
    requires
        cond_ok(ConditionV::And(cs), tags, items),
    ensures
        forall|i: int| 0 <= i < cs.len() ==> cond_ok(#[trigger] cs[i], tags, items),
{
    lemma_conds_ok(cs, tags, items);
}

/// The children of a valid disjunction are valid.
pub proof fn lemma_cond_ok_or(
    cs: Seq<ConditionV>,
    tags: Map<Seq<char>, VarType>,
    items: Set<Seq<char>>,
)
    requires
        cond_ok(ConditionV::Or(cs), tags, items),
    ensures
        forall|i: int| 0 <= i < cs.len() ==> cond_ok(#[trigger] cs[i], tags, items),
{
    lemma_conds_ok(cs, tags, items);
}

} // verus!

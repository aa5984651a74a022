//! The loader/validator: turns raw per-page documents into a
//! cross-referenced, validated story graph, or fails with a descriptive
//! error and never yields a partially resolved graph.
//!
//! The mathematical form of loading is `load_spec`; the executable `parse`
//! is proved to return exactly its result, which also makes loading
//! deterministic: the same declared settings and documents always produce
//! the same graph.

use vstd::prelude::*;

use crate::condition::{Condition, ConditionV, Operation, OperationV};
use crate::errors::{Error, ErrorV};
use crate::game::defs_kv;
use crate::item::{ItemDef, ItemDefV};
use crate::kvmap::{keys_unique, map_of};
use crate::settings::Settings;
use crate::story::{
    acts_view, pages_view, trigs_view, Link, LinkAction, LinkActionV, LinkDest, LinkDestV, LinkTrigger,
    LinkTriggerV, LinkV, Page, PageID, PageRef, PageRefV, PageV, StoryGraph,
};
use crate::validate::{
    action_ok, actions_ok, cond_ok, conds_ok, def_ok, defs_ok, dest_ok, graph_ok, link_ok, op_ok,
    page_ok, trigger_ok,
};
use crate::variable::{ValueV, VarType};
use crate::utils::{last_index_of, lemma_last_index_of};
use crate::varstore::{tags_of, VarStore};

verus! {

broadcast use vstd::std_specs::vec::group_vec_axioms;

/// The index of the first page with the given ID, or `-1` if none has it.
pub open spec fn index_of(ps: Seq<PageV>, id: Seq<char>) -> int
    decreases ps.len(),
{
    if ps.len() == 0 {
        -1
    } else if ps[0].id == id {
        0
    } else {
        let r = index_of(ps.drop_first(), id);
        if r < 0 {
            -1
        } else {
            r + 1
        }
    }
}

/// What `index_of` returns: the first occurrence, or `-1` for none.
pub proof fn lemma_index_of(ps: Seq<PageV>, id: Seq<char>)
    ensures
        index_of(ps, id) == -1 ==> forall|x: int| 0 <= x < ps.len() ==> (#[trigger] ps[x]).id != id,
        index_of(ps, id) >= 0 ==> {
            &&& index_of(ps, id) < ps.len()
            &&& ps[index_of(ps, id)].id == id
            &&& forall|x: int| 0 <= x < index_of(ps, id) ==> (#[trigger] ps[x]).id != id
        },
    decreases ps.len(),
{
    if ps.len() > 0 && ps[0].id != id {
        lemma_index_of(ps.drop_first(), id);
        let r = index_of(ps.drop_first(), id);
        if r == -1 {
            assert forall|x: int| 0 <= x < ps.len() implies (#[trigger] ps[x]).id != id by {
                if x > 0 {
                    assert(ps.drop_first()[x - 1] == ps[x]);
                }
            }
        } else {
            assert(ps.drop_first()[r] == ps[r + 1]);
            assert forall|x: int| 0 <= x < r + 1 implies (#[trigger] ps[x]).id != id by {
                if x > 0 {
                    assert(ps.drop_first()[x - 1] == ps[x]);
                }
            }
        }
    }
}

/// Indexing a page in: a page whose ID is already present replaces the
/// page at that position; a new ID is appended.
pub open spec fn dedupe_step(acc: Seq<PageV>, p: PageV) -> Seq<PageV> {
    let j = index_of(acc, p.id);
    if j >= 0 {
        acc.update(j, p)
    } else {
        acc.push(p)
    }
}

/// Indexes pages one by one, left to right.
pub open spec fn dedupe_rec(acc: Seq<PageV>, rest: Seq<PageV>) -> Seq<PageV>
    decreases rest.len(),
{
    if rest.len() == 0 {
        acc
    } else {
        dedupe_rec(dedupe_step(acc, rest[0]), rest.drop_first())
    }
}

/// Indexes parsed pages by ID: for each ID the last parsed page wins, at
/// the position of the ID's first occurrence.
pub open spec fn dedupe(pages: Seq<PageV>) -> Seq<PageV> {
    dedupe_rec(Seq::empty(), pages)
}

/// Resolving a destination: a textual page reference becomes the index of
/// the page with that ID, or the load fails naming the undeclared ID.
pub open spec fn check_dest(d: LinkDestV, dd: Seq<PageV>) -> Result<LinkDestV, ErrorV> {
    match d {
        LinkDestV::Page(r) => match r {
            PageRefV::Name(n) => {
                let j = index_of(dd, n);
                if j >= 0 {
                    Ok(LinkDestV::Page(PageRefV::Resolved(j)))
                } else {
                    Err(ErrorV::UndeclaredPageID(n))
                }
            },
            PageRefV::Resolved(i) => {
                if 0 <= i < dd.len() {
                    Ok(d)
                } else {
                    Err(ErrorV::InternalMsg("resolved page reference out of range"@))
                }
            },
        },
        _ => Ok(d),
    }
}

/// Checking one action: referenced variables must be declared with the tag
/// the action needs, referenced items must be declared, and a proposed
/// destination is resolved.
pub open spec fn check_action(
    a: LinkActionV,
    dd: Seq<PageV>,
    vars: Map<Seq<char>, ValueV>,
    items: Set<Seq<char>>,
) -> Result<LinkActionV, ErrorV> {
    match a {
        LinkActionV::SetVar { name, value } => {
            if !vars.dom().contains(name) {
                Err(ErrorV::UndeclaredVariable(name))
            } else if vars[name].typ() != value.typ() {
                Err(ErrorV::BadValueType { value, expected: vars[name].typ() })
            } else {
                Ok(a)
            }
        },
        LinkActionV::ModNum { name, .. } => {
            if !vars.dom().contains(name) {
                Err(ErrorV::UndeclaredVariable(name))
            } else if vars[name].typ() != VarType::Num {
                Err(
                    ErrorV::BadVariableType {
                        var_name: name,
                        var_type: vars[name].typ(),
                        expected: VarType::Num,
                    },
                )
            } else {
                Ok(a)
            }
        },
        LinkActionV::ToggleBool(name) => {
            if !vars.dom().contains(name) {
                Err(ErrorV::UndeclaredVariable(name))
            } else if vars[name].typ() != VarType::Bool {
                Err(
                    ErrorV::BadVariableType {
                        var_name: name,
                        var_type: vars[name].typ(),
                        expected: VarType::Bool,
                    },
                )
            } else {
                Ok(a)
            }
        },
        LinkActionV::SetDest(d) => match check_dest(d, dd) {
            Ok(d2) => Ok(LinkActionV::SetDest(d2)),
            Err(e) => Err(e),
        },
        LinkActionV::Prompt(p) => match p.variable {
            Some(n) => if vars.dom().contains(n) {
                Ok(a)
            } else {
                Err(ErrorV::UndeclaredVariable(n))
            },
            None => Ok(a),
        },
        LinkActionV::AcquireItem(n) => if items.contains(n) {
            Ok(a)
        } else {
            Err(ErrorV::UndeclaredItem(n))
        },
        LinkActionV::DropItem(n) => if items.contains(n) {
            Ok(a)
        } else {
            Err(ErrorV::UndeclaredItem(n))
        },
        LinkActionV::UseItem(n) => if items.contains(n) {
            Ok(a)
        } else {
            Err(ErrorV::UndeclaredItem(n))
        },
    }
}

/// Checks a list of actions in order; the first failure wins.
pub open spec fn check_actions(
    s: Seq<LinkActionV>,
    dd: Seq<PageV>,
    vars: Map<Seq<char>, ValueV>,
    items: Set<Seq<char>>,
) -> Result<Seq<LinkActionV>, ErrorV>
    decreases s.len(),
{
    if s.len() == 0 {
        Ok(Seq::empty())
    } else {
        match check_action(s[0], dd, vars, items) {
            Err(e) => Err(e),
            Ok(a2) => match check_actions(s.drop_first(), dd, vars, items) {
                Err(e) => Err(e),
                Ok(rest) => Ok(seq![a2] + rest),
            },
        }
    }
}

/// Checking a comparison: the variable must be declared; ordering
/// comparators need an integer variable and an integer literal; equality
/// comparators need operands of one tag.
pub open spec fn check_op(o: OperationV, vars: Map<Seq<char>, ValueV>) -> Option<ErrorV> {
    if !vars.dom().contains(o.name) {
        Some(ErrorV::UndeclaredVariable(o.name))
    } else {
        match o.op {
            crate::condition::ComparisonOp::GT
            | crate::condition::ComparisonOp::GTE
            | crate::condition::ComparisonOp::LT
            | crate::condition::ComparisonOp::LTE => {
                if vars[o.name].typ() != VarType::Num {
                    Some(
                        ErrorV::BadVariableType {
                            var_name: o.name,
                            var_type: vars[o.name].typ(),
                            expected: VarType::Num,
                        },
                    )
                } else if o.value.typ() != VarType::Num {
                    Some(ErrorV::BadValueType { value: o.value, expected: VarType::Num })
                } else {
                    None
                }
            },
            crate::condition::ComparisonOp::EQ | crate::condition::ComparisonOp::NEQ => {
                if vars[o.name].typ() != o.value.typ() {
                    Some(ErrorV::BadValueType { value: o.value, expected: vars[o.name].typ() })
                } else {
                    None
                }
            },
        }
    }
}

/// Checks a condition tree; the first failure in traversal order wins.
pub open spec fn check_cond(
    c: ConditionV,
    vars: Map<Seq<char>, ValueV>,
    items: Set<Seq<char>>,
) -> Option<ErrorV>
    decreases c,
{
    match c {
        ConditionV::And(cs) => check_conds(cs, vars, items),
        ConditionV::Or(cs) => check_conds(cs, vars, items),
        ConditionV::Not(c2) => check_cond(*c2, vars, items),
        ConditionV::Op(o) => check_op(o, vars),
        ConditionV::HasItem(n) => if items.contains(n) {
            None
        } else {
            Some(ErrorV::UndeclaredItem(n))
        },
    }
}

/// Checks a list of conditions in order; the first failure wins.
pub open spec fn check_conds(
    cs: Seq<ConditionV>,
    vars: Map<Seq<char>, ValueV>,
    items: Set<Seq<char>>,
) -> Option<ErrorV>
    decreases cs,
{
    if cs.len() == 0 {
        None
    } else {
        match check_cond(cs[0], vars, items) {
            Some(e) => Some(e),
            None => check_conds(cs.drop_first(), vars, items),
        }
    }
}

/// Checks a trigger: its condition first, then its actions.
pub open spec fn check_trigger(
    t: LinkTriggerV,
    dd: Seq<PageV>,
    vars: Map<Seq<char>, ValueV>,
    items: Set<Seq<char>>,
) -> Result<LinkTriggerV, ErrorV> {
    match check_cond(t.condition, vars, items) {
        Some(e) => Err(e),
        None => match check_actions(t.actions, dd, vars, items) {
            Err(e) => Err(e),
            Ok(acts) => Ok(LinkTriggerV { condition: t.condition, actions: acts }),
        },
    }
}

/// Checks a list of triggers in order; the first failure wins.
pub open spec fn check_triggers(
    s: Seq<LinkTriggerV>,
    dd: Seq<PageV>,
    vars: Map<Seq<char>, ValueV>,
    items: Set<Seq<char>>,
) -> Result<Seq<LinkTriggerV>, ErrorV>
    decreases s.len(),
{
    if s.len() == 0 {
        Ok(Seq::empty())
    } else {
        match check_trigger(s[0], dd, vars, items) {
            Err(e) => Err(e),
            Ok(t2) => match check_triggers(s.drop_first(), dd, vars, items) {
                Err(e) => Err(e),
                Ok(rest) => Ok(seq![t2] + rest),
            },
        }
    }
}

/// Checks a link: its destination is resolved, then its triggers are
/// checked, then its actions.
pub open spec fn check_link(
    l: LinkV,
    dd: Seq<PageV>,
    vars: Map<Seq<char>, ValueV>,
    items: Set<Seq<char>>,
) -> Result<LinkV, ErrorV> {
    match check_dest(l.dest, dd) {
        Err(e) => Err(e),
        Ok(d2) => match check_triggers(l.triggers, dd, vars, items) {
            Err(e) => Err(e),
            Ok(ts) => match check_actions(l.actions, dd, vars, items) {
                Err(e) => Err(e),
                Ok(acts) => Ok(LinkV { text: l.text, dest: d2, triggers: ts, actions: acts }),
            },
        },
    }
}

/// Checks a list of links in order; the first failure wins.
pub open spec fn check_links(
    s: Seq<LinkV>,
    dd: Seq<PageV>,
    vars: Map<Seq<char>, ValueV>,
    items: Set<Seq<char>>,
) -> Result<Seq<LinkV>, ErrorV>
    decreases s.len(),
{
    if s.len() == 0 {
        Ok(Seq::empty())
    } else {
        match check_link(s[0], dd, vars, items) {
            Err(e) => Err(e),
            Ok(l2) => match check_links(s.drop_first(), dd, vars, items) {
                Err(e) => Err(e),
                Ok(rest) => Ok(seq![l2] + rest),
            },
        }
    }
}

/// Whether an ID is among the declared page IDs.
pub open spec fn declared_contains(declared: Seq<Seq<char>>, id: Seq<char>) -> bool {
    exists|j: int| 0 <= j < declared.len() && declared[j] == id
}

/// Checks a page: its ID must be declared, and all its links must check.
/// Back-references start empty; the loader records them in a later pass.
pub open spec fn check_page(
    p: PageV,
    dd: Seq<PageV>,
    declared: Seq<Seq<char>>,
    vars: Map<Seq<char>, ValueV>,
    items: Set<Seq<char>>,
) -> Result<PageV, ErrorV> {
    if !declared_contains(declared, p.id) {
        Err(ErrorV::UndeclaredPageID(p.id))
    } else {
        match check_links(p.links, dd, vars, items) {
            Err(e) => Err(e),
            Ok(ls) => Ok(PageV { links: ls, parents: Seq::empty(), ..p }),
        }
    }
}

/// Checks pages in order; the first failure wins.
pub open spec fn check_pages(
    todo: Seq<PageV>,
    dd: Seq<PageV>,
    declared: Seq<Seq<char>>,
    vars: Map<Seq<char>, ValueV>,
    items: Set<Seq<char>>,
) -> Result<Seq<PageV>, ErrorV>
    decreases todo.len(),
{
    if todo.len() == 0 {
        Ok(Seq::empty())
    } else {
        match check_page(todo[0], dd, declared, vars, items) {
            Err(e) => Err(e),
            Ok(p2) => match check_pages(todo.drop_first(), dd, declared, vars, items) {
                Err(e) => Err(e),
                Ok(rest) => Ok(seq![p2] + rest),
            },
        }
    }
}

/// Checks an item template for play: a declared maximum in range, and its
/// effect action checked and resolved like any link action.
pub open spec fn check_def(
    d: ItemDefV,
    dd: Seq<PageV>,
    vars: Map<Seq<char>, ValueV>,
    items: Set<Seq<char>>,
) -> Result<ItemDefV, ErrorV> {
    if (match d.max_uses {
        Some(m) => !(crate::item::ITEM_MIN_USES <= m <= crate::item::ITEM_MAX_USES),
        None => false,
    }) {
        Err(ErrorV::Expected("an item max_uses between 1 and 32767"@))
    } else {
        match check_action(d.effect, dd, vars, items) {
            Err(e) => Err(e),
            Ok(eff) => Ok(ItemDefV { effect: eff, ..d }),
        }
    }
}

/// Checks the declared templates in order; the first failure wins.
pub open spec fn check_defs(
    s: Seq<ItemDefV>,
    dd: Seq<PageV>,
    vars: Map<Seq<char>, ValueV>,
    items: Set<Seq<char>>,
) -> Result<Seq<ItemDefV>, ErrorV>
    decreases s.len(),
{
    if s.len() == 0 {
        Ok(Seq::empty())
    } else {
        match check_def(s[0], dd, vars, items) {
            Err(e) => Err(e),
            Ok(d2) => match check_defs(s.drop_first(), dd, vars, items) {
                Err(e) => Err(e),
                Ok(rest) => Ok(seq![d2] + rest),
            },
        }
    }
}

/// The entry file's base name without its extension: what follows the last
/// path separator, cut before a final dot unless the dot leads the name.
pub open spec fn entry_stem(s: Seq<char>) -> Seq<char> {
    let start = last_index_of(s, '/') + 1;
    let base = s.subrange(start, s.len() as int);
    let ld = last_index_of(base, '.');
    if ld > 0 {
        base.take(ld)
    } else {
        base
    }
}

/// The mathematical form of a successful load: the resolved page table, the
/// entry page's index, and the play-ready item templates.
pub struct LoadedV {
    pub pages: Seq<PageV>,
    pub entry: int,
    pub defs: Seq<ItemDefV>,
}

/// The key/value pairs denoted by a sequence of template views.
pub open spec fn defsv_kv(s: Seq<ItemDefV>) -> Seq<(Seq<char>, ItemDefV)> {
    s.map_values(|d: ItemDefV| (d.name, d))
}

/// What loading a document set yields: index the parsed pages by ID, check
/// that every ID is declared, resolve and validate every link and item
/// template, and locate the entry page; the first failure, in order, fails
/// the whole load.
pub open spec fn load_spec(
    declared: Seq<Seq<char>>,
    vars: Map<Seq<char>, ValueV>,
    defs: Seq<ItemDefV>,
    entry_path: Seq<char>,
    pages: Seq<PageV>,
) -> Result<LoadedV, ErrorV> {
    let dd = dedupe(pages);
    let items = map_of(defsv_kv(defs)).dom();
    match check_pages(dd, dd, declared, vars, items) {
        Err(e) => Err(e),
        Ok(rp) => match check_defs(defs, dd, vars, items) {
            Err(e) => Err(e),
            Ok(rd) => {
                let stem = entry_stem(entry_path);
                if stem.len() == 0 {
                    Err(ErrorV::InternalPathAttr("file_stem"@))
                } else {
                    let j = index_of(rp, stem);
                    if j >= 0 {
                        Ok(LoadedV { pages: rp, entry: j, defs: rd })
                    } else {
                        Err(ErrorV::InternalMsg("no page matches the entrypoint"@))
                    }
                }
            },
        },
    }
}

/// A page table with every back-reference list emptied; back-references
/// are informational bookkeeping beside the loader's main contract.
pub open spec fn erase_parents(ps: Seq<PageV>) -> Seq<PageV> {
    ps.map_values(|p: PageV| PageV { parents: Seq::empty(), ..p })
}

/// Whether a link refers to the page at index `j`: as its destination, or
/// in a destination one of its actions (its own or a trigger's) proposes.
pub open spec fn link_refers_to(l: LinkV, j: int) -> bool {
    ||| l.dest == LinkDestV::Page(PageRefV::Resolved(j))
    ||| exists|a: int|
        0 <= a < l.actions.len() && #[trigger] l.actions[a] == LinkActionV::SetDest(
            LinkDestV::Page(PageRefV::Resolved(j)),
        )
    ||| exists|t: int, a: int|
        0 <= t < l.triggers.len() && 0 <= a < l.triggers[t].actions.len()
            && #[trigger] l.triggers[t].actions[a] == LinkActionV::SetDest(
            LinkDestV::Page(PageRefV::Resolved(j)),
        )
}

/// Whether some link of a page refers to the page at index `j`.
pub open spec fn page_refers_to(p: PageV, j: int) -> bool {
    exists|k: int| 0 <= k < p.links.len() && link_refers_to(#[trigger] p.links[k], j)
}

/// Every recorded back-reference names an in-range page that really refers
/// to the page carrying it.
pub open spec fn parents_recorded(pages: Seq<PageV>) -> bool {
    forall|j: int, k: int|
        0 <= j < pages.len() && 0 <= k < pages[j].parents.len() ==> {
            &&& 0 <= #[trigger] pages[j].parents[k] < pages.len()
            &&& page_refers_to(pages[pages[j].parents[k]], j)
        }
}

/// An edge collected for back-reference recording: a referrer index known
/// to be in range, referring to the target index.
spec fn edge_ok(e: (usize, usize), base: Seq<PageV>) -> bool {
    (e.0 as int) < base.len() && page_refers_to(base[e.0 as int], e.1 as int)
}


/// The mathematical form of a list of links.
pub open spec fn links_view(s: Seq<Link>) -> Seq<LinkV> {
    s.map_values(|l: Link| l@)
}

/// The mathematical forms of a sequence of templates.
pub open spec fn defs_views(s: Seq<ItemDef>) -> Seq<ItemDefV> {
    s.map_values(|d: ItemDef| d@)
}

/// The tags of the store agree with the values' tags.
proof fn lemma_tags_of(vars: Map<Seq<char>, ValueV>)
    ensures
        tags_of(vars).dom() == vars.dom(),
        forall|k: Seq<char>| #[trigger]
            vars.dom().contains(k) ==> tags_of(vars)[k] == vars[k].typ(),
{
    assert(tags_of(vars).dom() =~= vars.dom());
}

/// A resolved destination is valid for the page table it was resolved
/// against.
proof fn lemma_check_dest_ok(d: LinkDestV, dd: Seq<PageV>)
    requires
        check_dest(d, dd) is Ok,
    ensures
        dest_ok(check_dest(d, dd)->Ok_0, dd.len() as int),
{
    match d {
        LinkDestV::Page(r) => match r {
            PageRefV::Name(n) => {
                lemma_index_of(dd, n);
            },
            PageRefV::Resolved(_) => {},
        },
        _ => {},
    }
}

/// A checked action is valid.
proof fn lemma_check_action_ok(
    a: LinkActionV,
    dd: Seq<PageV>,
    vars: Map<Seq<char>, ValueV>,
    items: Set<Seq<char>>,
)
    requires
        check_action(a, dd, vars, items) is Ok,
    ensures
        action_ok(check_action(a, dd, vars, items)->Ok_0, tags_of(vars), items, dd.len() as int),
{
    lemma_tags_of(vars);
    match a {
        LinkActionV::SetDest(dv) => {
            lemma_check_dest_ok(dv, dd);
        },
        _ => {},
    }
}

/// Checked actions are valid, element by element.
proof fn lemma_check_actions_ok(
    s: Seq<LinkActionV>,
    dd: Seq<PageV>,
    vars: Map<Seq<char>, ValueV>,
    items: Set<Seq<char>>,
)
    requires
        check_actions(s, dd, vars, items) is Ok,
    ensures
        check_actions(s, dd, vars, items)->Ok_0.len() == s.len(),
        actions_ok(check_actions(s, dd, vars, items)->Ok_0, tags_of(vars), items, dd.len() as int),
    decreases s.len(),
{
    if s.len() > 0 {
        lemma_check_action_ok(s[0], dd, vars, items);
        lemma_check_actions_ok(s.drop_first(), dd, vars, items);
        let a2 = check_action(s[0], dd, vars, items)->Ok_0;
        let rest = check_actions(s.drop_first(), dd, vars, items)->Ok_0;
        let whole = check_actions(s, dd, vars, items)->Ok_0;
        assert(whole == seq![a2] + rest);
        assert forall|i: int| 0 <= i < whole.len() implies action_ok(
            #[trigger] whole[i],
            tags_of(vars),
            items,
            dd.len() as int,
        ) by {
            if i > 0 {
                assert(whole[i] == rest[i - 1]);
            }
        }
    }
}

/// A checked comparison is valid.
proof fn lemma_check_op_ok(o: OperationV, vars: Map<Seq<char>, ValueV>)
    requires
        check_op(o, vars) is None,
    ensures
        op_ok(o, tags_of(vars)),
{
    lemma_tags_of(vars);
}

/// A checked condition is valid.
proof fn lemma_check_cond_ok(
    c: ConditionV,
    vars: Map<Seq<char>, ValueV>,
    items: Set<Seq<char>>,
)
    requires
        check_cond(c, vars, items) is None,
    ensures
        cond_ok(c, tags_of(vars), items),
    decreases c,
{
    match c {
        ConditionV::And(cs) => {
            lemma_check_conds_ok(cs, vars, items);
        },
        ConditionV::Or(cs) => {
            lemma_check_conds_ok(cs, vars, items);
        },
        ConditionV::Not(c2) => {
            lemma_check_cond_ok(*c2, vars, items);
        },
        ConditionV::Op(o) => {
            lemma_check_op_ok(o, vars);
        },
        ConditionV::HasItem(_) => {},
    }
}

/// Checked conditions are valid, element by element.
proof fn lemma_check_conds_ok(
    cs: Seq<ConditionV>,
    vars: Map<Seq<char>, ValueV>,
    items: Set<Seq<char>>,
)
    requires
        check_conds(cs, vars, items) is None,
    ensures
        conds_ok(cs, tags_of(vars), items),
    decreases cs,
{
    if cs.len() > 0 {
        lemma_check_cond_ok(cs[0], vars, items);
        lemma_check_conds_ok(cs.drop_first(), vars, items);
    }
}

/// A checked trigger is valid.
proof fn lemma_check_trigger_ok(
    t: LinkTriggerV,
    dd: Seq<PageV>,
    vars: Map<Seq<char>, ValueV>,
    items: Set<Seq<char>>,
)
    requires
        check_trigger(t, dd, vars, items) is Ok,
    ensures
        trigger_ok(check_trigger(t, dd, vars, items)->Ok_0, tags_of(vars), items, dd.len() as int),
{
    lemma_check_cond_ok(t.condition, vars, items);
    lemma_check_actions_ok(t.actions, dd, vars, items);
}

/// Checked triggers are valid, element by element.
proof fn lemma_check_triggers_ok(
    s: Seq<LinkTriggerV>,
    dd: Seq<PageV>,
    vars: Map<Seq<char>, ValueV>,
    items: Set<Seq<char>>,
)
    requires
        check_triggers(s, dd, vars, items) is Ok,
    ensures
        check_triggers(s, dd, vars, items)->Ok_0.len() == s.len(),
        forall|i: int|
            0 <= i < s.len() ==> trigger_ok(
                #[trigger] check_triggers(s, dd, vars, items)->Ok_0[i],
                tags_of(vars),
                items,
                dd.len() as int,
            ),
    decreases s.len(),
{
    if s.len() > 0 {
        lemma_check_trigger_ok(s[0], dd, vars, items);
        lemma_check_triggers_ok(s.drop_first(), dd, vars, items);
        let t2 = check_trigger(s[0], dd, vars, items)->Ok_0;
        let rest = check_triggers(s.drop_first(), dd, vars, items)->Ok_0;
        let whole = check_triggers(s, dd, vars, items)->Ok_0;
        assert(whole == seq![t2] + rest);
        assert forall|i: int| 0 <= i < whole.len() implies trigger_ok(
            #[trigger] whole[i],
            tags_of(vars),
            items,
            dd.len() as int,
        ) by {
            if i > 0 {
                assert(whole[i] == rest[i - 1]);
            }
        }
    }
}

/// A checked link is valid.
proof fn lemma_check_link_ok(
    l: LinkV,
    dd: Seq<PageV>,
    vars: Map<Seq<char>, ValueV>,
    items: Set<Seq<char>>,
)
    requires
        check_link(l, dd, vars, items) is Ok,
    ensures
        link_ok(check_link(l, dd, vars, items)->Ok_0, tags_of(vars), items, dd.len() as int),
{
    lemma_check_dest_ok(l.dest, dd);
    lemma_check_triggers_ok(l.triggers, dd, vars, items);
    lemma_check_actions_ok(l.actions, dd, vars, items);
}

/// Checked links are valid, element by element.
proof fn lemma_check_links_ok(
    s: Seq<LinkV>,
    dd: Seq<PageV>,
    vars: Map<Seq<char>, ValueV>,
    items: Set<Seq<char>>,
)
    requires
        check_links(s, dd, vars, items) is Ok,
    ensures
        check_links(s, dd, vars, items)->Ok_0.len() == s.len(),
        forall|i: int|
            0 <= i < s.len() ==> link_ok(
                #[trigger] check_links(s, dd, vars, items)->Ok_0[i],
                tags_of(vars),
                items,
                dd.len() as int,
            ),
    decreases s.len(),
{
    if s.len() > 0 {
        lemma_check_link_ok(s[0], dd, vars, items);
        lemma_check_links_ok(s.drop_first(), dd, vars, items);
        let l2 = check_link(s[0], dd, vars, items)->Ok_0;
        let rest = check_links(s.drop_first(), dd, vars, items)->Ok_0;
        let whole = check_links(s, dd, vars, items)->Ok_0;
        assert(whole == seq![l2] + rest);
        assert forall|i: int| 0 <= i < whole.len() implies link_ok(
            #[trigger] whole[i],
            tags_of(vars),
            items,
            dd.len() as int,
        ) by {
            if i > 0 {
                assert(whole[i] == rest[i - 1]);
            }
        }
    }
}

/// A checked page is valid, and keeps its identity and back-references.
proof fn lemma_check_page_ok(
    p: PageV,
    dd: Seq<PageV>,
    declared: Seq<Seq<char>>,
    vars: Map<Seq<char>, ValueV>,
    items: Set<Seq<char>>,
)
    requires
        check_page(p, dd, declared, vars, items) is Ok,
    ensures
        page_ok(
            check_page(p, dd, declared, vars, items)->Ok_0,
            tags_of(vars),
            items,
            dd.len() as int,
        ),
        check_page(p, dd, declared, vars, items)->Ok_0.id == p.id,
        check_page(p, dd, declared, vars, items)->Ok_0.parents == Seq::<int>::empty(),
        declared_contains(declared, p.id),
{
    lemma_check_links_ok(p.links, dd, vars, items);
}

/// Checked pages are valid, element by element, and keep their identities.
proof fn lemma_check_pages_ok(
    todo: Seq<PageV>,
    dd: Seq<PageV>,
    declared: Seq<Seq<char>>,
    vars: Map<Seq<char>, ValueV>,
    items: Set<Seq<char>>,
)
    requires
        check_pages(todo, dd, declared, vars, items) is Ok,
    ensures
        check_pages(todo, dd, declared, vars, items)->Ok_0.len() == todo.len(),
        forall|i: int|
            0 <= i < todo.len() ==> {
                &&& page_ok(
                    #[trigger] check_pages(todo, dd, declared, vars, items)->Ok_0[i],
                    tags_of(vars),
                    items,
                    dd.len() as int,
                )
                &&& check_pages(todo, dd, declared, vars, items)->Ok_0[i].id == todo[i].id
                &&& check_pages(todo, dd, declared, vars, items)->Ok_0[i].parents
                    == Seq::<int>::empty()
            },
    decreases todo.len(),
{
    if todo.len() > 0 {
        lemma_check_page_ok(todo[0], dd, declared, vars, items);
        lemma_check_pages_ok(todo.drop_first(), dd, declared, vars, items);
        let p2 = check_page(todo[0], dd, declared, vars, items)->Ok_0;
        let rest = check_pages(todo.drop_first(), dd, declared, vars, items)->Ok_0;
        let whole = check_pages(todo, dd, declared, vars, items)->Ok_0;
        assert(whole == seq![p2] + rest);
        assert forall|i: int| 0 <= i < whole.len() implies {
            &&& page_ok(#[trigger] whole[i], tags_of(vars), items, dd.len() as int)
            &&& whole[i].id == todo[i].id
            &&& whole[i].parents == Seq::<int>::empty()
        } by {
            if i > 0 {
                assert(whole[i] == rest[i - 1]);
                assert(todo.drop_first()[i - 1] == todo[i]);
            }
        }
    }
}

/// A checked template is valid and keeps its name.
proof fn lemma_check_def_ok(
    d: ItemDefV,
    dd: Seq<PageV>,
    vars: Map<Seq<char>, ValueV>,
    items: Set<Seq<char>>,
)
    requires
        check_def(d, dd, vars, items) is Ok,
    ensures
        def_ok(check_def(d, dd, vars, items)->Ok_0, tags_of(vars), items, dd.len() as int),
        check_def(d, dd, vars, items)->Ok_0.name == d.name,
        check_def(d, dd, vars, items)->Ok_0.max_uses == d.max_uses,
{
    lemma_check_action_ok(d.effect, dd, vars, items);
}

/// Checked templates are valid, element by element, and keep their names.
proof fn lemma_check_defs_ok(
    s: Seq<ItemDefV>,
    dd: Seq<PageV>,
    vars: Map<Seq<char>, ValueV>,
    items: Set<Seq<char>>,
)
    requires
        check_defs(s, dd, vars, items) is Ok,
    ensures
        check_defs(s, dd, vars, items)->Ok_0.len() == s.len(),
        forall|i: int|
            0 <= i < s.len() ==> {
                &&& def_ok(
                    #[trigger] check_defs(s, dd, vars, items)->Ok_0[i],
                    tags_of(vars),
                    items,
                    dd.len() as int,
                )
                &&& check_defs(s, dd, vars, items)->Ok_0[i].name == s[i].name
            },
    decreases s.len(),
{
    if s.len() > 0 {
        lemma_check_def_ok(s[0], dd, vars, items);
        lemma_check_defs_ok(s.drop_first(), dd, vars, items);
        let d2 = check_def(s[0], dd, vars, items)->Ok_0;
        let rest = check_defs(s.drop_first(), dd, vars, items)->Ok_0;
        let whole = check_defs(s, dd, vars, items)->Ok_0;
        assert(whole == seq![d2] + rest);
        assert forall|i: int| 0 <= i < whole.len() implies {
            &&& def_ok(#[trigger] whole[i], tags_of(vars), items, dd.len() as int)
            &&& whole[i].name == s[i].name
        } by {
            if i > 0 {
                assert(whole[i] == rest[i - 1]);
                assert(s.drop_first()[i - 1] == s[i]);
            }
        }
    }
}

/// The names of the declared templates.
pub open spec fn item_names(s: Seq<ItemDef>) -> Set<Seq<char>> {
    map_of(defs_kv(s)).dom()
}

/// The two renderings of a template list as key/value pairs agree.
proof fn lemma_defs_kv_views(s: Seq<ItemDef>)
    ensures
        defs_kv(s) == defsv_kv(defs_views(s)),
{
    assert(defs_kv(s) =~= defsv_kv(defs_views(s)));
}

/// The index of the first page with the given ID, if any page has it.
fn find_page_index(pages: &Vec<Page>, id: &String) -> (r: Option<usize>)
    ensures
        match r {
            Some(k) => k < pages@.len() && k as int == index_of(pages_view(pages@), id@),
            None => index_of(pages_view(pages@), id@) == -1,
        },
{
    let ghost pv = pages_view(pages@);
    let mut i: usize = 0;
    while i < pages.len()
        invariant
            i <= pages@.len(),
            pv == pages_view(pages@),
            pv.len() == pages@.len(),
            forall|x: int| 0 <= x < i ==> (#[trigger] pv[x]).id != id@,
        decreases pages@.len() - i,
    {
        if pages[i].id == *id {
            proof {
                assert(pv[i as int].id == id@);
                lemma_index_of(pv, id@);
                let r = index_of(pv, id@);
                if r == -1 {
                    assert(pv[i as int].id != id@);
                }
                if r < i as int {
                    assert(pv[r].id == id@);
                }
                if r > i as int {
                    assert(pv[i as int].id != id@);
                }
            }
            return Some(i);
        }
        i = i + 1;
    }
    proof {
        lemma_index_of(pv, id@);
        if index_of(pv, id@) >= 0 {
            assert(pv[index_of(pv, id@)].id == id@);
        }
    }
    None
}

/// Whether an ID is among the declared page IDs.
fn declared_has(declared: &Vec<PageID>, id: &String) -> (r: bool)
    ensures
        r == declared_contains(declared@.map_values(|p: PageID| p@), id@),
{
    let ghost dv = declared@.map_values(|p: PageID| p@);
    let mut i: usize = 0;
    while i < declared.len()
        invariant
            i <= declared@.len(),
            dv == declared@.map_values(|p: PageID| p@),
            dv.len() == declared@.len(),
            forall|x: int| 0 <= x < i ==> #[trigger] dv[x] != id@,
        decreases declared@.len() - i,
    {
        if declared[i] == *id {
            proof {
                assert(dv[i as int] == id@);
            }
            return true;
        }
        i = i + 1;
    }
    proof {
        if declared_contains(dv, id@) {
            let j = choose|j: int| 0 <= j < dv.len() && dv[j] == id@;
            assert(dv[j] != id@);
        }
    }
    false
}

/// Whether an item name is among the declared templates.
fn item_declared(items: &Vec<ItemDef>, name: &String) -> (r: bool)
    ensures
        r == item_names(items@).contains(name@),
{
    let mut i: usize = 0;
    while i < items.len()
        invariant
            i <= items@.len(),
            forall|x: int| 0 <= x < i ==> (#[trigger] items@[x]).name@ != name@,
        decreases items@.len() - i,
    {
        if items[i].name == *name {
            proof {
                let kv = defs_kv(items@);
                assert(kv[i as int].0 == name@);
                crate::kvmap::lemma_map_of_index(kv, i as int);
            }
            return true;
        }
        i = i + 1;
    }
    proof {
        crate::kvmap::lemma_map_of_absent(defs_kv(items@), name@);
    }
    false
}

/// Resolves a destination against the page table: a textual reference
/// becomes a direct index, or the load fails naming the undeclared ID.
fn resolve_dest(d: &LinkDest, dd: &Vec<Page>) -> (r: Result<LinkDest, Error>)
    ensures
        match r {
            Ok(d2) => check_dest(d@, pages_view(dd@)) == Ok::<LinkDestV, ErrorV>(d2@),
            Err(e) => check_dest(d@, pages_view(dd@)) == Err::<LinkDestV, ErrorV>(e@),
        },
{
    match d {
        LinkDest::Page(PageRef::Name(n)) => match find_page_index(dd, n) {
            Some(j) => Ok(LinkDest::Page(PageRef::Resolved(j))),
            None => Err(Error::undeclared_page_id(n)),
        },
        LinkDest::Page(PageRef::Resolved(i)) => {
            if *i < dd.len() {
                Ok(LinkDest::Page(PageRef::Resolved(*i)))
            } else {
                Err(Error::internal("resolved page reference out of range"))
            }
        },
        LinkDest::CurrentPage => Ok(LinkDest::CurrentPage),
        LinkDest::PrevPage => Ok(LinkDest::PrevPage),
        LinkDest::EndGame(m) => Ok(LinkDest::EndGame(m.clone())),
    }
}

/// Checks a comparison against the declared variables.
fn validate_operation(o: &Operation, vars: &VarStore) -> (r: Result<(), Error>)
    requires
        vars.wf(),
    ensures
        match r {
            Ok(_) => check_op(o@, vars@) is None,
            Err(e) => check_op(o@, vars@) == Some(e@),
        },
{
    let vt = match vars.get(&o.name) {
        Some(var) => var.type_(),
        None => {
            return Err(Error::undeclared_variable(&o.name));
        },
    };
    match o.op {
        crate::condition::ComparisonOp::GT
        | crate::condition::ComparisonOp::GTE
        | crate::condition::ComparisonOp::LT
        | crate::condition::ComparisonOp::LTE => {
            if vt != crate::variable::VarType::Num {
                Err(Error::bad_variable_type(&o.name, vt, crate::variable::VarType::Num))
            } else if o.value.type_() != crate::variable::VarType::Num {
                Err(Error::bad_value_type(&o.value, crate::variable::VarType::Num))
            } else {
                Ok(())
            }
        },
        crate::condition::ComparisonOp::EQ | crate::condition::ComparisonOp::NEQ => {
            if o.value.type_() != vt {
                Err(Error::bad_value_type(&o.value, vt))
            } else {
                Ok(())
            }
        },
    }
}

/// Checks a condition against the declared variables and items.
fn validate_condition(c: &Condition, vars: &VarStore, items: &Vec<ItemDef>) -> (r: Result<
    (),
    Error,
>)
    requires
        vars.wf(),
    ensures
        match r {
            Ok(_) => check_cond(c@, vars@, item_names(items@)) is None,
            Err(e) => check_cond(c@, vars@, item_names(items@)) == Some(e@),
        },
    decreases *c,
{
    match c {
        Condition::And(cs) => validate_condition_vec(cs, vars, items),
        Condition::Or(cs) => validate_condition_vec(cs, vars, items),
        Condition::Not(child) => validate_condition(&*child, vars, items),
        Condition::Op(o) => validate_operation(o, vars),
        Condition::HasItem(n) => {
            if item_declared(items, n) {
                Ok(())
            } else {
                Err(Error::undeclared_item(n))
            }
        },
    }
}

/// Checks a list of conditions in order; the first failure wins.
fn validate_condition_vec(cs: &Vec<Condition>, vars: &VarStore, items: &Vec<ItemDef>) -> (r:
    Result<(), Error>)
    requires
        vars.wf(),
    ensures
        match r {
            Ok(_) => check_conds(crate::condition::conds_view(cs@), vars@, item_names(items@))
                is None,
            Err(e) => check_conds(crate::condition::conds_view(cs@), vars@, item_names(items@))
                == Some(e@),
        },
    decreases *cs,
{
    let ghost cvs = crate::condition::conds_view(cs@);
    proof {
        crate::condition::lemma_conds_view(cs@);
        assert(cvs.skip(0) =~= cvs);
    }
    let mut i: usize = 0;
    while i < cs.len()
        invariant
            vars.wf(),
            cvs == crate::condition::conds_view(cs@),
            cvs.len() == cs@.len(),
            forall|j: int| 0 <= j < cs@.len() ==> cvs[j] == crate::condition::cond_view(
                #[trigger] cs@[j],
            ),
            i <= cs@.len(),
            check_conds(cvs, vars@, item_names(items@)) == check_conds(
                cvs.skip(i as int),
                vars@,
                item_names(items@),
            ),
        decreases cs@.len() - i,
    {
        proof {
            assert(cvs.skip(i as int)[0] == cvs[i as int]);
        }
        match validate_condition(&cs[i], vars, items) {
            Ok(_) => {},
            Err(e) => {
                return Err(e);
            },
        }
        i = i + 1;
        proof {
            assert(cvs.skip(i - 1).drop_first() =~= cvs.skip(i as int));
        }
    }
    proof {
        assert(cvs.skip(i as int) =~= Seq::<ConditionV>::empty());
    }
    Ok(())
}

/// Checks one action and resolves any destination it proposes.
fn validate_action(
    a: &LinkAction,
    dd: &Vec<Page>,
    vars: &VarStore,
    items: &Vec<ItemDef>,
) -> (r: Result<LinkAction, Error>)
    requires
        vars.wf(),
    ensures
        match r {
            Ok(a2) => check_action(a@, pages_view(dd@), vars@, item_names(items@)) == Ok::<
                LinkActionV,
                ErrorV,
            >(a2@),
            Err(e) => check_action(a@, pages_view(dd@), vars@, item_names(items@)) == Err::<
                LinkActionV,
                ErrorV,
            >(e@),
        },
{
    match a {
        LinkAction::SetVar { name, value } => {
            let vt = match vars.get(name) {
                Some(var) => var.type_(),
                None => {
                    return Err(Error::undeclared_variable(name));
                },
            };
            if value.type_() != vt {
                Err(Error::bad_value_type(value, vt))
            } else {
                Ok(crate::story::clone_action(a))
            }
        },
        LinkAction::ModNum { name, .. } => {
            let vt = match vars.get(name) {
                Some(var) => var.type_(),
                None => {
                    return Err(Error::undeclared_variable(name));
                },
            };
            if vt != crate::variable::VarType::Num {
                Err(Error::bad_variable_type(name, vt, crate::variable::VarType::Num))
            } else {
                Ok(crate::story::clone_action(a))
            }
        },
        LinkAction::ToggleBool(name) => {
            let vt = match vars.get(name) {
                Some(var) => var.type_(),
                None => {
                    return Err(Error::undeclared_variable(name));
                },
            };
            if vt != crate::variable::VarType::Bool {
                Err(Error::bad_variable_type(name, vt, crate::variable::VarType::Bool))
            } else {
                Ok(crate::story::clone_action(a))
            }
        },
        LinkAction::SetDest(d) => match resolve_dest(d, dd) {
            Ok(d2) => Ok(LinkAction::SetDest(d2)),
            Err(e) => Err(e),
        },
        LinkAction::Prompt(p) => {
            match &p.variable {
                Some(n) => {
                    if vars.get(n).is_some() {
                        Ok(crate::story::clone_action(a))
                    } else {
                        Err(Error::undeclared_variable(n))
                    }
                },
                None => Ok(crate::story::clone_action(a)),
            }
        },
        LinkAction::AcquireItem(n) => {
            if item_declared(items, n) {
                Ok(crate::story::clone_action(a))
            } else {
                Err(Error::undeclared_item(n))
            }
        },
        LinkAction::DropItem(n) => {
            if item_declared(items, n) {
                Ok(crate::story::clone_action(a))
            } else {
                Err(Error::undeclared_item(n))
            }
        },
        LinkAction::UseItem(n) => {
            if item_declared(items, n) {
                Ok(crate::story::clone_action(a))
            } else {
                Err(Error::undeclared_item(n))
            }
        },
    }
}

/// Checks a list of actions in order; the first failure wins.
fn validate_actions(
    v: &Vec<LinkAction>,
    dd: &Vec<Page>,
    vars: &VarStore,
    items: &Vec<ItemDef>,
) -> (r: Result<Vec<LinkAction>, Error>)
    requires
        vars.wf(),
    ensures
        match r {
            Ok(out) => check_actions(acts_view(v@), pages_view(dd@), vars@, item_names(items@))
                == Ok::<Seq<LinkActionV>, ErrorV>(acts_view(out@)),
            Err(e) => check_actions(acts_view(v@), pages_view(dd@), vars@, item_names(items@))
                == Err::<Seq<LinkActionV>, ErrorV>(e@),
        },
{
    let ghost av = acts_view(v@);
    let ghost ddv = pages_view(dd@);
    let ghost names = item_names(items@);
    let mut out: Vec<LinkAction> = Vec::new();
    let mut i: usize = 0;
    proof {
        assert(av.skip(0) =~= av);
        assert(acts_view(out@) =~= Seq::<LinkActionV>::empty());
    }
    while i < v.len()
        invariant
            vars.wf(),
            av == acts_view(v@),
            ddv == pages_view(dd@),
            names == item_names(items@),
            av.len() == v@.len(),
            i <= v@.len(),
            check_actions(av, ddv, vars@, names) == (match check_actions(
                av.skip(i as int),
                ddv,
                vars@,
                names,
            ) {
                Ok(rest) => Ok::<Seq<LinkActionV>, ErrorV>(acts_view(out@) + rest),
                Err(e) => Err::<Seq<LinkActionV>, ErrorV>(e),
            }),
        decreases v@.len() - i,
    {
        let ghost out0 = acts_view(out@);
        proof {
            assert(av.skip(i as int)[0] == av[i as int]);
        }
        match validate_action(&v[i], dd, vars, items) {
            Ok(a2) => {
                proof {
                    assert(a2@ == check_action(av[i as int], ddv, vars@, names)->Ok_0);
                }
                out.push(a2);
            },
            Err(e) => {
                return Err(e);
            },
        }
        i = i + 1;
        proof {
            assert(av.skip(i - 1).drop_first() =~= av.skip(i as int));
            let a2v = check_action(av[i - 1], ddv, vars@, names)->Ok_0;
            assert(acts_view(out@) =~= out0.push(a2v));
            match check_actions(av.skip(i as int), ddv, vars@, names) {
                Ok(rest) => {
                    assert(out0.push(a2v) + rest =~= out0 + (seq![a2v] + rest));
                },
                Err(_) => {},
            }
        }
    }
    proof {
        assert(av.skip(i as int) =~= Seq::<LinkActionV>::empty());
    }
    Ok(out)
}

/// Copies an optional string; views are preserved.
fn clone_opt_string(o: &Option<String>) -> (r: Option<String>)
    ensures
        match (o, &r) {
            (Some(a), Some(b)) => a@ == b@,
            (None, None) => true,
            _ => false,
        },
{
    match o {
        Some(s) => Some(s.clone()),
        None => None,
    }
}

/// Checks a trigger: its condition first, then its actions.
fn validate_trigger(
    t: &LinkTrigger,
    dd: &Vec<Page>,
    vars: &VarStore,
    items: &Vec<ItemDef>,
) -> (r: Result<LinkTrigger, Error>)
    requires
        vars.wf(),
    ensures
        match r {
            Ok(t2) => check_trigger(t@, pages_view(dd@), vars@, item_names(items@)) == Ok::<
                LinkTriggerV,
                ErrorV,
            >(t2@),
            Err(e) => check_trigger(t@, pages_view(dd@), vars@, item_names(items@)) == Err::<
                LinkTriggerV,
                ErrorV,
            >(e@),
        },
{
    match validate_condition(&t.condition, vars, items) {
        Err(e) => Err(e),
        Ok(_) => match validate_actions(&t.actions, dd, vars, items) {
            Err(e) => Err(e),
            Ok(acts) => Ok(
                LinkTrigger {
                    condition: crate::condition::clone_condition(&t.condition),
                    actions: acts,
                },
            ),
        },
    }
}

/// Checks a list of triggers in order; the first failure wins.
fn validate_triggers(
    v: &Vec<LinkTrigger>,
    dd: &Vec<Page>,
    vars: &VarStore,
    items: &Vec<ItemDef>,
) -> (r: Result<Vec<LinkTrigger>, Error>)
    requires
        vars.wf(),
    ensures
        match r {
            Ok(out) => check_triggers(trigs_view(v@), pages_view(dd@), vars@, item_names(items@))
                == Ok::<Seq<LinkTriggerV>, ErrorV>(trigs_view(out@)),
            Err(e) => check_triggers(trigs_view(v@), pages_view(dd@), vars@, item_names(items@))
                == Err::<Seq<LinkTriggerV>, ErrorV>(e@),
        },
{
    let ghost tv = trigs_view(v@);
    let ghost ddv = pages_view(dd@);
    let ghost names = item_names(items@);
    let mut out: Vec<LinkTrigger> = Vec::new();
    let mut i: usize = 0;
    proof {
        assert(tv.skip(0) =~= tv);
        assert(trigs_view(out@) =~= Seq::<LinkTriggerV>::empty());
    }
    while i < v.len()
        invariant
            vars.wf(),
            tv == trigs_view(v@),
            ddv == pages_view(dd@),
            names == item_names(items@),
            tv.len() == v@.len(),
            i <= v@.len(),
            check_triggers(tv, ddv, vars@, names) == (match check_triggers(
                tv.skip(i as int),
                ddv,
                vars@,
                names,
            ) {
                Ok(rest) => Ok::<Seq<LinkTriggerV>, ErrorV>(trigs_view(out@) + rest),
                Err(e) => Err::<Seq<LinkTriggerV>, ErrorV>(e),
            }),
        decreases v@.len() - i,
    {
        let ghost out0 = trigs_view(out@);
        proof {
            assert(tv.skip(i as int)[0] == tv[i as int]);
        }
        match validate_trigger(&v[i], dd, vars, items) {
            Ok(t2) => {
                proof {
                    assert(t2@ == check_trigger(tv[i as int], ddv, vars@, names)->Ok_0);
                }
                out.push(t2);
            },
            Err(e) => {
                return Err(e);
            },
        }
        i = i + 1;
        proof {
            assert(tv.skip(i - 1).drop_first() =~= tv.skip(i as int));
            let t2v = check_trigger(tv[i - 1], ddv, vars@, names)->Ok_0;
            assert(trigs_view(out@) =~= out0.push(t2v));
            match check_triggers(tv.skip(i as int), ddv, vars@, names) {
                Ok(rest) => {
                    assert(out0.push(t2v) + rest =~= out0 + (seq![t2v] + rest));
                },
                Err(_) => {},
            }
        }
    }
    proof {
        assert(tv.skip(i as int) =~= Seq::<LinkTriggerV>::empty());
    }
    Ok(out)
}

/// Checks a link: resolves its destination, then checks its triggers and
/// actions.
fn validate_link(l: &Link, dd: &Vec<Page>, vars: &VarStore, items: &Vec<ItemDef>) -> (r: Result<
    Link,
    Error,
>)
    requires
        vars.wf(),
    ensures
        match r {
            Ok(l2) => check_link(l@, pages_view(dd@), vars@, item_names(items@)) == Ok::<
                LinkV,
                ErrorV,
            >(l2@),
            Err(e) => check_link(l@, pages_view(dd@), vars@, item_names(items@)) == Err::<
                LinkV,
                ErrorV,
            >(e@),
        },
{
    match resolve_dest(&l.dest, dd) {
        Err(e) => Err(e),
        Ok(d2) => match validate_triggers(&l.triggers, dd, vars, items) {
            Err(e) => Err(e),
            Ok(ts) => match validate_actions(&l.actions, dd, vars, items) {
                Err(e) => Err(e),
                Ok(acts) => Ok(Link { text: l.text.clone(), dest: d2, triggers: ts, actions: acts }),
            },
        },
    }
}

/// Checks a list of links in order; the first failure wins.
fn validate_links(
    v: &Vec<Link>,
    dd: &Vec<Page>,
    vars: &VarStore,
    items: &Vec<ItemDef>,
) -> (r: Result<Vec<Link>, Error>)
    requires
        vars.wf(),
    ensures
        match r {
            Ok(out) => check_links(links_view(v@), pages_view(dd@), vars@, item_names(items@))
                == Ok::<Seq<LinkV>, ErrorV>(links_view(out@)),
            Err(e) => check_links(links_view(v@), pages_view(dd@), vars@, item_names(items@))
                == Err::<Seq<LinkV>, ErrorV>(e@),
        },
{
    let ghost lv = links_view(v@);
    let ghost ddv = pages_view(dd@);
    let ghost names = item_names(items@);
    let mut out: Vec<Link> = Vec::new();
    let mut i: usize = 0;
    proof {
        assert(lv.skip(0) =~= lv);
        assert(links_view(out@) =~= Seq::<LinkV>::empty());
    }
    while i < v.len()
        invariant
            vars.wf(),
            lv == links_view(v@),
            ddv == pages_view(dd@),
            names == item_names(items@),
            lv.len() == v@.len(),
            i <= v@.len(),
            check_links(lv, ddv, vars@, names) == (match check_links(
                lv.skip(i as int),
                ddv,
                vars@,
                names,
            ) {
                Ok(rest) => Ok::<Seq<LinkV>, ErrorV>(links_view(out@) + rest),
                Err(e) => Err::<Seq<LinkV>, ErrorV>(e),
            }),
        decreases v@.len() - i,
    {
        let ghost out0 = links_view(out@);
        proof {
            assert(lv.skip(i as int)[0] == lv[i as int]);
        }
        match validate_link(&v[i], dd, vars, items) {
            Ok(l2) => {
                proof {
                    assert(l2@ == check_link(lv[i as int], ddv, vars@, names)->Ok_0);
                }
                out.push(l2);
            },
            Err(e) => {
                return Err(e);
            },
        }
        i = i + 1;
        proof {
            assert(lv.skip(i - 1).drop_first() =~= lv.skip(i as int));
            let l2v = check_link(lv[i - 1], ddv, vars@, names)->Ok_0;
            assert(links_view(out@) =~= out0.push(l2v));
            match check_links(lv.skip(i as int), ddv, vars@, names) {
                Ok(rest) => {
                    assert(out0.push(l2v) + rest =~= out0 + (seq![l2v] + rest));
                },
                Err(_) => {},
            }
        }
    }
    proof {
        assert(lv.skip(i as int) =~= Seq::<LinkV>::empty());
    }
    Ok(out)
}

/// Checks a page: its ID must be declared, and all its links must check.
fn validate_page(
    p: &Page,
    dd: &Vec<Page>,
    declared: &Vec<PageID>,
    vars: &VarStore,
    items: &Vec<ItemDef>,
) -> (r: Result<Page, Error>)
    requires
        vars.wf(),
    ensures
        match r {
            Ok(p2) => check_page(
                p@,
                pages_view(dd@),
                declared@.map_values(|q: PageID| q@),
                vars@,
                item_names(items@),
            ) == Ok::<PageV, ErrorV>(p2@),
            Err(e) => check_page(
                p@,
                pages_view(dd@),
                declared@.map_values(|q: PageID| q@),
                vars@,
                item_names(items@),
            ) == Err::<PageV, ErrorV>(e@),
        },
{
    if !declared_has(declared, &p.id) {
        return Err(Error::undeclared_page_id(&p.id));
    }
    match validate_links(&p.links, dd, vars, items) {
        Err(e) => Err(e),
        Ok(ls) => {
            let p2 = Page {
                id: p.id.clone(),
                title: clone_opt_string(&p.title),
                content: p.content.clone(),
                prompt: clone_opt_string(&p.prompt),
                links: ls,
                parents: Vec::new(),
            };
            proof {
                assert(p2@.parents =~= Seq::<int>::empty());
            }
            Ok(p2)
        },
    }
}

/// Checks the declared templates for play: maximum-use counts in range and
/// effect actions checked, with any destination they propose resolved.
fn validate_defs(items: &Vec<ItemDef>, dd: &Vec<Page>, vars: &VarStore) -> (r: Result<
    Vec<ItemDef>,
    Error,
>)
    requires
        vars.wf(),
    ensures
        match r {
            Ok(out) => {
                &&& check_defs(defs_views(items@), pages_view(dd@), vars@, item_names(items@))
                    == Ok::<Seq<ItemDefV>, ErrorV>(defs_views(out@))
                &&& out@.len() == items@.len()
                &&& forall|j: int|
                    0 <= j < out@.len() ==> (#[trigger] out@[j]).name@ == items@[j].name@
            },
            Err(e) => check_defs(defs_views(items@), pages_view(dd@), vars@, item_names(items@))
                == Err::<Seq<ItemDefV>, ErrorV>(e@),
        },
{
    let ghost dv = defs_views(items@);
    let ghost ddv = pages_view(dd@);
    let ghost names = item_names(items@);
    let mut out: Vec<ItemDef> = Vec::new();
    let mut i: usize = 0;
    proof {
        assert(dv.skip(0) =~= dv);
        assert(defs_views(out@) =~= Seq::<ItemDefV>::empty());
    }
    while i < items.len()
        invariant
            vars.wf(),
            dv == defs_views(items@),
            ddv == pages_view(dd@),
            names == item_names(items@),
            dv.len() == items@.len(),
            i <= items@.len(),
            out@.len() == i,
            forall|j: int| 0 <= j < i ==> (#[trigger] out@[j]).name@ == items@[j].name@,
            check_defs(dv, ddv, vars@, names) == (match check_defs(
                dv.skip(i as int),
                ddv,
                vars@,
                names,
            ) {
                Ok(rest) => Ok::<Seq<ItemDefV>, ErrorV>(defs_views(out@) + rest),
                Err(e) => Err::<Seq<ItemDefV>, ErrorV>(e),
            }),
        decreases items@.len() - i,
    {
        let ghost out0 = defs_views(out@);
        proof {
            assert(dv.skip(i as int)[0] == dv[i as int]);
        }
        let d = &items[i];
        let ok_range = match d.max_uses {
            Some(m) => crate::item::ITEM_MIN_USES <= m && m <= crate::item::ITEM_MAX_USES,
            None => true,
        };
        if !ok_range {
            return Err(Error::expected("an item max_uses between 1 and 32767"));
        }
        match validate_action(&d.effect, dd, vars, items) {
            Err(e) => {
                return Err(e);
            },
            Ok(eff) => {
                let d2 = ItemDef {
                    name: d.name.clone(),
                    description: clone_opt_string(&d.description),
                    max_uses: d.max_uses,
                    effect: eff,
                };
                proof {
                    assert(d2@ == check_def(dv[i as int], ddv, vars@, names)->Ok_0);
                }
                out.push(d2);
            },
        }
        i = i + 1;
        proof {
            assert(dv.skip(i - 1).drop_first() =~= dv.skip(i as int));
            let d2v = check_def(dv[i - 1], ddv, vars@, names)->Ok_0;
            assert(defs_views(out@) =~= out0.push(d2v));
            match check_defs(dv.skip(i as int), ddv, vars@, names) {
                Ok(rest) => {
                    assert(out0.push(d2v) + rest =~= out0 + (seq![d2v] + rest));
                },
                Err(_) => {},
            }
        }
    }
    proof {
        assert(dv.skip(i as int) =~= Seq::<ItemDefV>::empty());
    }
    Ok(out)
}


/// The entry file's base name without its extension.
fn entry_stem_of(path: &str) -> (r: String)
    ensures
        r@ == entry_stem(path@),
{
    let n = path.unicode_len();
    let mut slash: Option<usize> = None;
    let mut i: usize = 0;
    while i < n
        invariant
            n == path@.len(),
            i <= n,
            match slash {
                Some(k) => {
                    &&& k < i
                    &&& path@[k as int] == '/'
                    &&& forall|x: int| k < x < i ==> path@[x] != '/'
                },
                None => forall|x: int| 0 <= x < i ==> path@[x] != '/',
            },
        decreases n - i,
    {
        if path.get_char(i) == '/' {
            slash = Some(i);
        }
        i = i + 1;
    }
    proof {
        lemma_last_index_of(path@, '/');
        let r = last_index_of(path@, '/');
        match slash {
            Some(k) => {
                assert(path@[k as int] == '/');
                if r == -1 {
                    assert((path@[k as int]) != '/');
                    assert(false);
                } else {
                    assert(path@[r] == '/');
                    if r < k as int {
                        assert((path@[k as int]) != '/');
                        assert(false);
                    }
                    if r > k as int {
                        assert((path@[r]) != '/') by {
                            assert((k as int) < r && r < (i as int));
                        }
                        assert(false);
                    }
                }
                assert(r == k as int);
            },
            None => {
                if r >= 0 {
                    assert(path@[r] == '/');
                    assert((path@[r]) != '/') by {
                        assert(0 <= r < i as int);
                    }
                    assert(false);
                }
                assert(r == -1);
            },
        }
    }
    let start: usize = match slash {
        Some(k) => k + 1,
        None => 0,
    };
    let ghost base = path@.subrange(start as int, path@.len() as int);
    let mut dot: Option<usize> = None;
    let mut j: usize = start;
    while j < n
        invariant
            n == path@.len(),
            start <= j <= n,
            base == path@.subrange(start as int, path@.len() as int),
            match dot {
                Some(k) => {
                    &&& start <= k < j
                    &&& path@[k as int] == '.'
                    &&& forall|x: int| k < x < j ==> path@[x] != '.'
                },
                None => forall|x: int| start <= x < j ==> path@[x] != '.',
            },
        decreases n - j,
    {
        if path.get_char(j) == '.' {
            dot = Some(j);
        }
        j = j + 1;
    }
    proof {
        lemma_last_index_of(base, '.');
        let r = last_index_of(base, '.');
        assert(forall|x: int| 0 <= x < base.len() ==> base[x] == path@[start + x]);
        match dot {
            Some(k) => {
                if r == -1 {
                    assert(base[k - start] != '.');
                }
                if r < k as int - start {
                    assert(base[k - start] != '.');
                }
                if r > k as int - start {
                    assert(path@[start + r] != '.');
                }
                assert(r == k as int - start);
            },
            None => {
                if r >= 0 {
                    assert(path@[start + r] != '.');
                }
                assert(r == -1);
            },
        }
    }
    let end: usize = match dot {
        Some(k) => if k > start {
            k
        } else {
            n
        },
        None => n,
    };
    let stem = path.substring_char(start, end);
    proof {
        let ld = last_index_of(base, '.');
        if ld > 0 {
            assert(stem@ =~= base.take(ld));
        } else {
            assert(stem@ =~= base);
        }
    }
    String::from_str(stem)
}

/// Reads a storygame from its declared settings and its parsed page
/// documents: indexes pages by ID, checks every ID against the declared
/// set, resolves every textual page reference into a direct graph edge,
/// validates every action, condition and item template, records back-
/// references, and locates the entry page.
///
/// Returns the resolved graph together with the play-ready item templates,
/// exactly as `load_spec` describes — loading the same documents twice
/// yields identical graphs — or the first failure, and never a partially
/// resolved graph.
pub fn parse(settings: &Settings, pages: Vec<Page>) -> (r: Result<(StoryGraph, Vec<ItemDef>), Error>)
    requires
        settings.wf(),
    ensures
        ({
            let spec_r = load_spec(
                settings.pages_dec(),
                settings.vars_store()@,
                defs_views(settings.defs_seq()),
                settings.entry_path(),
                pages_view(pages@),
            );
            match r {
                Ok((g, defs2)) => {
                    &&& spec_r matches Ok(lv)
                    &&& erase_parents(pages_view(g.pages@)) == erase_parents(lv.pages)
                    &&& parents_recorded(pages_view(g.pages@))
                    &&& g.entry == lv.entry
                    &&& g.entry < g.pages@.len()
                    &&& defs_views(defs2@) == lv.defs
                    &&& keys_unique(defs_kv(defs2@))
                    &&& graph_ok(
                        pages_view(g.pages@),
                        tags_of(settings.vars_store()@),
                        map_of(defs_kv(defs2@)).dom(),
                    )
                    &&& defs_ok(
                        map_of(defs_kv(defs2@)),
                        tags_of(settings.vars_store()@),
                        g.pages@.len() as int,
                    )
                },
                Err(e) => spec_r matches Err(ev) && e@ == ev,
            }
        }),
{
    let ghost declared = settings.pages_dec();
    let ghost vars = settings.vars_store()@;
    let ghost defsv = defs_views(settings.defs_seq());
    let ghost p0 = pages_view(pages@);
    let ghost names = item_names(settings.defs_seq());
    proof {
        lemma_defs_kv_views(settings.defs_seq());
        assert(names == map_of(defsv_kv(defsv)).dom());
    }

    // Index the parsed pages by ID; for each ID the last page wins.
    let mut dd: Vec<Page> = Vec::new();
    let mut rest = pages;
    proof {
        assert(pages_view(dd@) =~= Seq::<PageV>::empty());
    }
    while rest.len() > 0
        invariant
            dedupe_rec(pages_view(dd@), pages_view(rest@)) == dedupe(p0),
        decreases rest@.len(),
    {
        let ghost ddv0 = pages_view(dd@);
        let ghost restv0 = pages_view(rest@);
        let p = rest.remove(0);
        proof {
            assert(pages_view(rest@) =~= restv0.drop_first());
            assert(p@ == restv0[0]);
        }
        match find_page_index(&dd, &p.id) {
            Some(j) => {
                dd.set(j, p);
                proof {
                    assert(pages_view(dd@) =~= ddv0.update(index_of(ddv0, restv0[0].id), restv0[0]));
                    assert(pages_view(dd@) == dedupe_step(ddv0, restv0[0]));
                }
            },
            None => {
                dd.push(p);
                proof {
                    assert(pages_view(dd@) =~= ddv0.push(restv0[0]));
                    assert(pages_view(dd@) == dedupe_step(ddv0, restv0[0]));
                }
            },
        }
    }
    proof {
        assert(pages_view(rest@) =~= Seq::<PageV>::empty());
        assert(pages_view(dd@) == dedupe(p0));
    }
    let ghost ddv = pages_view(dd@);

    // Check and resolve every page against the declared settings.
    let declared_ids = settings.pages();
    let variables = settings.variables();
    let item_templates = settings.items();
    let mut rp: Vec<Page> = Vec::new();
    let mut i: usize = 0;
    proof {
        assert(ddv.skip(0) =~= ddv);
        assert(pages_view(rp@) =~= Seq::<PageV>::empty());
    }
    while i < dd.len()
        invariant
            settings.wf(),
            declared == settings.pages_dec(),
            vars == settings.vars_store()@,
            names == item_names(settings.defs_seq()),
            declared_ids@.map_values(|q: PageID| q@) == declared,
            variables == &settings.vars_store(),
            item_templates@ == settings.defs_seq(),
            ddv == pages_view(dd@),
            ddv == dedupe(p0),
            p0 == pages_view(pages@),
            defsv == defs_views(settings.defs_seq()),
            names == map_of(defsv_kv(defsv)).dom(),
            i <= dd@.len(),
            ddv.len() == dd@.len(),
            check_pages(ddv, ddv, declared, vars, names) == (match check_pages(
                ddv.skip(i as int),
                ddv,
                declared,
                vars,
                names,
            ) {
                Ok(rest2) => Ok::<Seq<PageV>, ErrorV>(pages_view(rp@) + rest2),
                Err(e) => Err::<Seq<PageV>, ErrorV>(e),
            }),
        decreases dd@.len() - i,
    {
        let ghost out0 = pages_view(rp@);
        proof {
            assert(ddv.skip(i as int)[0] == ddv[i as int]);
        }
        match validate_page(&dd[i], &dd, declared_ids, variables, item_templates) {
            Ok(p2) => {
                proof {
                    assert(p2@ == check_page(ddv[i as int], ddv, declared, vars, names)->Ok_0);
                }
                rp.push(p2);
            },
            Err(e) => {
                return Err(e);
            },
        }
        i = i + 1;
        proof {
            assert(ddv.skip(i - 1).drop_first() =~= ddv.skip(i as int));
            let p2v = check_page(ddv[i - 1], ddv, declared, vars, names)->Ok_0;
            assert(pages_view(rp@) =~= out0.push(p2v));
            match check_pages(ddv.skip(i as int), ddv, declared, vars, names) {
                Ok(rest2) => {
                    assert(out0.push(p2v) + rest2 =~= out0 + (seq![p2v] + rest2));
                },
                Err(_) => {},
            }
        }
    }
    proof {
        assert(ddv.skip(i as int) =~= Seq::<PageV>::empty());
        assert(pages_view(rp@) + Seq::<PageV>::empty() =~= pages_view(rp@));
    }
    let ghost rpv0 = pages_view(rp@);
    proof {
        assert(check_pages(ddv, ddv, declared, vars, names) == Ok::<Seq<PageV>, ErrorV>(rpv0));
    }

    // Check the item templates for play.
    let rd = match validate_defs(item_templates, &dd, variables) {
        Ok(out) => out,
        Err(e) => {
            return Err(e);
        },
    };

    // Record back-references: which pages link to which.
    let mut edges: Vec<(usize, usize)> = Vec::new();
    let mut a: usize = 0;
    #[verifier::loop_isolation(false)]
    while a < rp.len()
        invariant
            forall|x: int| 0 <= x < edges@.len() ==> edge_ok(#[trigger] edges@[x], rpv0),
        decreases rp@.len() - a,
    {
        let pg = &rp[a];
        proof {
            assert(rpv0[a as int] == pg@);
        }
        let mut k: usize = 0;
        #[verifier::loop_isolation(false)]
        while k < pg.links.len()
            invariant
                forall|x: int| 0 <= x < edges@.len() ==> edge_ok(#[trigger] edges@[x], rpv0),
            decreases pg.links@.len() - k,
        {
            let link = &pg.links[k];
            proof {
                assert(pg@.links[k as int] == link@);
            }
            match &link.dest {
                LinkDest::Page(PageRef::Resolved(j)) => {
                    proof {
                        assert(link_refers_to(link@, *j as int));
                        assert(page_refers_to(rpv0[a as int], *j as int));
                    }
                    edges.push((a, *j));
                },
                _ => {},
            }
            let mut b: usize = 0;
            #[verifier::loop_isolation(false)]
            while b < link.actions.len()
                invariant
                    forall|x: int|
                        0 <= x < edges@.len() ==> edge_ok(#[trigger] edges@[x], rpv0),
                decreases link.actions@.len() - b,
            {
                match &link.actions[b] {
                    LinkAction::SetDest(LinkDest::Page(PageRef::Resolved(j))) => {
                        proof {
                            assert(link@.actions[b as int] == LinkActionV::SetDest(
                                LinkDestV::Page(PageRefV::Resolved(*j as int)),
                            ));
                            assert(link_refers_to(link@, *j as int));
                            assert(page_refers_to(rpv0[a as int], *j as int));
                        }
                        edges.push((a, *j));
                    },
                    _ => {},
                }
                b = b + 1;
            }
            let mut t: usize = 0;
            #[verifier::loop_isolation(false)]
            while t < link.triggers.len()
                invariant
                    forall|x: int|
                        0 <= x < edges@.len() ==> edge_ok(#[trigger] edges@[x], rpv0),
                decreases link.triggers@.len() - t,
            {
                let mut b2: usize = 0;
                #[verifier::loop_isolation(false)]
                while b2 < link.triggers[t].actions.len()
                    invariant
                        forall|x: int|
                            0 <= x < edges@.len() ==> edge_ok(#[trigger] edges@[x], rpv0),
                    decreases link.triggers@[t as int].actions@.len() - b2,
                {
                    match &link.triggers[t].actions[b2] {
                        LinkAction::SetDest(LinkDest::Page(PageRef::Resolved(j))) => {
                            proof {
                                assert(link@.triggers[t as int].actions[b2 as int]
                                    == LinkActionV::SetDest(
                                    LinkDestV::Page(PageRefV::Resolved(*j as int)),
                                ));
                                assert(link_refers_to(link@, *j as int));
                                assert(page_refers_to(rpv0[a as int], *j as int));
                            }
                            edges.push((a, *j));
                        },
                        _ => {},
                    }
                    b2 = b2 + 1;
                }
                t = t + 1;
            }
            k = k + 1;
        }
        a = a + 1;
    }
    proof {
        lemma_check_pages_ok(ddv, ddv, declared, vars, names);
        assert forall|j: int, k2: int|
            0 <= j < pages_view(rp@).len() && 0 <= k2 < pages_view(rp@)[j].parents.len() implies {
            &&& 0 <= #[trigger] pages_view(rp@)[j].parents[k2] < rpv0.len()
            &&& page_refers_to(rpv0[pages_view(rp@)[j].parents[k2]], j)
        } by {
            assert(rpv0[j].parents == Seq::<int>::empty());
        }
    }
    let mut e: usize = 0;
    while e < edges.len()
        invariant
            erase_parents(pages_view(rp@)) == erase_parents(rpv0),
            rp@.len() == rpv0.len(),
            forall|x: int| 0 <= x < edges@.len() ==> edge_ok(#[trigger] edges@[x], rpv0),
            forall|j: int, k2: int|
                0 <= j < pages_view(rp@).len() && 0 <= k2 < pages_view(rp@)[j].parents.len()
                    ==> {
                    &&& 0 <= #[trigger] pages_view(rp@)[j].parents[k2] < rpv0.len()
                    &&& page_refers_to(rpv0[pages_view(rp@)[j].parents[k2]], j)
                },
        decreases edges@.len() - e,
    {
        let ghost before = pages_view(rp@);
        let (src, tgt) = edges[e];
        if tgt < rp.len() {
            let mut pg = rp.remove(tgt);
            pg.parents.push(src);
            let ghost pgv = pg@;
            rp.insert(tgt, pg);
            proof {
                assert(pages_view(rp@) =~= before.update(tgt as int, pgv));
                assert(erase_parents(pages_view(rp@)) =~= erase_parents(before));
                assert(pgv.parents =~= before[tgt as int].parents.push(src as int));
                assert(edge_ok(edges@[e as int], rpv0));
                assert forall|j: int, k2: int|
                    0 <= j < pages_view(rp@).len() && 0 <= k2 < pages_view(rp@)[j].parents.len()
                        implies {
                    &&& 0 <= #[trigger] pages_view(rp@)[j].parents[k2] < rpv0.len()
                    &&& page_refers_to(rpv0[pages_view(rp@)[j].parents[k2]], j)
                } by {
                    if j == tgt as int && k2 == pages_view(rp@)[j].parents.len() - 1 {
                        assert(pages_view(rp@)[j].parents[k2] == src as int);
                    } else {
                        assert(pages_view(rp@)[j].parents[k2] == before[j].parents[k2]);
                    }
                }
            }
        }
        e = e + 1;
    }
    let ghost rpv = pages_view(rp@);
    proof {
        assert forall|x: int| 0 <= x < rpv.len() implies (#[trigger] rpv[x]).links
            == rpv0[x].links by {
            assert(erase_parents(rpv)[x] == erase_parents(rpv0)[x]);
        }
        assert forall|j: int, k2: int|
            0 <= j < rpv.len() && 0 <= k2 < rpv[j].parents.len() implies {
            &&& 0 <= #[trigger] rpv[j].parents[k2] < rpv.len()
            &&& page_refers_to(rpv[rpv[j].parents[k2]], j)
        } by {
            let p = rpv[j].parents[k2];
            assert(page_refers_to(rpv0[p], j));
            let w = choose|w: int|
                0 <= w < rpv0[p].links.len() && link_refers_to(#[trigger] rpv0[p].links[w], j);
            assert(rpv[p].links[w] == rpv0[p].links[w]);
            assert(link_refers_to(rpv[p].links[w], j));
        }
        assert(parents_recorded(rpv));
    }

    // Locate the entry page by the entry file's base name.
    let stem = entry_stem_of(settings.entrypoint());
    if stem.as_str().is_empty() {
        return Err(
            Error::Internal(
                crate::errors::InternalError::PathAttr(String::from_str("file_stem")),
            ),
        );
    }
    proof {
        assert forall|x: int| 0 <= x < rpv.len() implies (#[trigger] rpv[x]).id == rpv0[x].id by {
            assert(erase_parents(rpv)[x] == erase_parents(rpv0)[x]);
        }
        lemma_index_of_same_ids(rpv, rpv0, stem@);
    }
    let entry = match find_page_index(&rp, &stem) {
        Some(j) => j,
        None => {
            return Err(Error::internal("no page matches the entrypoint"));
        },
    };

    // The resolved graph satisfies the engine's validity predicates.
    proof {
        lemma_check_pages_ok(ddv, ddv, declared, vars, names);
        lemma_check_defs_ok(defsv, ddv, vars, names);
        assert forall|x: int| 0 <= x < rpv.len() implies page_ok(
            #[trigger] rpv[x],
            tags_of(vars),
            names,
            rpv.len() as int,
        ) by {
            assert(page_ok(rpv0[x], tags_of(vars), names, ddv.len() as int));
            assert(erase_parents(rpv)[x] == erase_parents(rpv0)[x]);
            assert(rpv[x].links == rpv0[x].links);
        }
        // the checked templates keep the declared names, so the two maps
        // share a domain
        assert(defs_views(rd@) == check_defs(defsv, ddv, vars, names)->Ok_0);
        assert forall|x: int| 0 <= x < defs_kv(rd@).len() implies (#[trigger] defs_kv(rd@)[x]).0
            == (#[trigger] defs_kv(settings.defs_seq())[x]).0 by {
            assert(rd@[x].name@ == settings.defs_seq()[x].name@);
        }
        crate::kvmap::lemma_map_of_dom_keys(defs_kv(rd@), defs_kv(settings.defs_seq()));
        assert(map_of(defs_kv(rd@)).dom() == names);
        assert forall|x: int, y: int| 0 <= x < y < defs_kv(rd@).len() implies (
        #[trigger] defs_kv(rd@)[x]).0 != (#[trigger] defs_kv(rd@)[y]).0 by {
            assert(defs_kv(settings.defs_seq())[x].0 != defs_kv(settings.defs_seq())[y].0);
        }
        // every registered template is valid
        assert forall|k: Seq<char>| #[trigger] map_of(defs_kv(rd@)).dom().contains(k) implies map_of(
            defs_kv(rd@),
        )[k].name == k && def_ok(
            map_of(defs_kv(rd@))[k],
            tags_of(vars),
            map_of(defs_kv(rd@)).dom(),
            rpv.len() as int,
        ) by {
            crate::kvmap::lemma_map_of_contains(defs_kv(rd@), k);
            let x = choose|x: int|
                0 <= x < defs_kv(rd@).len() && (#[trigger] defs_kv(rd@)[x]).0 == k;
            crate::kvmap::lemma_map_of_index(defs_kv(rd@), x);
            assert(map_of(defs_kv(rd@))[k] == rd@[x]@);
            assert(def_ok(defs_views(rd@)[x], tags_of(vars), names, ddv.len() as int));
        }
    }
    Ok((StoryGraph { pages: rp, entry }, rd))
}

/// Two page tables with identical IDs position every ID identically.
proof fn lemma_index_of_same_ids(s1: Seq<PageV>, s2: Seq<PageV>, id: Seq<char>)
    requires
        s1.len() == s2.len(),
        forall|x: int| 0 <= x < s1.len() ==> (#[trigger] s1[x]).id == s2[x].id,
    ensures
        index_of(s1, id) == index_of(s2, id),
    decreases s1.len(),
{
    if s1.len() > 0 {
        assert forall|x: int| 0 <= x < s1.drop_first().len() implies (
        #[trigger] s1.drop_first()[x]).id == s2.drop_first()[x].id by {
            assert(s1[x + 1].id == s2[x + 1].id);
        }
        lemma_index_of_same_ids(s1.drop_first(), s2.drop_first(), id);
    }
}

/// Pages that check all carry declared IDs.
proof fn lemma_check_pages_declared(
    todo: Seq<PageV>,
    dd: Seq<PageV>,
    declared: Seq<Seq<char>>,
    vars: Map<Seq<char>, ValueV>,
    items: Set<Seq<char>>,
    i: int,
)
    requires
        check_pages(todo, dd, declared, vars, items) is Ok,
        0 <= i < todo.len(),
    ensures
        declared_contains(declared, todo[i].id),
    decreases todo.len(),
{
    if i == 0 {
    } else {
        lemma_check_pages_declared(todo.drop_first(), dd, declared, vars, items, i - 1);
        assert(todo.drop_first()[i - 1] == todo[i]);
    }
}

/// A document set whose indexed pages include an undeclared page ID never
/// loads: the load fails and no graph is returned.
pub proof fn lemma_undeclared_page_fails(
    declared: Seq<Seq<char>>,
    vars: Map<Seq<char>, ValueV>,
    defs: Seq<ItemDefV>,
    entry_path: Seq<char>,
    pages: Seq<PageV>,
    i: int,
)
    requires
        0 <= i < dedupe(pages).len(),
        !declared_contains(declared, dedupe(pages)[i].id),
    ensures
        load_spec(declared, vars, defs, entry_path, pages) is Err,
{
    let dd = dedupe(pages);
    let items = map_of(defsv_kv(defs)).dom();
    if check_pages(dd, dd, declared, vars, items) is Ok {
        lemma_check_pages_declared(dd, dd, declared, vars, items, i);
    }
}

} // verus!

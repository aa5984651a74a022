//! The play engine's semantics, as mathematical transition functions over an
//! abstract engine state. The executable engine is proved to follow these
//! functions step by step.
//!
//! Nested item effects run with a bounded recursion depth (`EFFECT_DEPTH`):
//! an effect chain deeper than the bound stops proposing further work, which
//! guards against cyclic item-effect recursion.

use vstd::prelude::*;

use crate::condition::{ComparisonOp, ConditionV, OperationV};
use crate::inventory::{acquire_spec, drop_front_spec, holdings_wf, use_front_spec};
use crate::item::{ItemDefV, ItemV};
use crate::story::{LinkActionV, LinkDestV, LinkTriggerV, LinkV, PageRefV, PageV, PromptV};
use crate::validate::{
    action_ok, actions_ok, def_ok, defs_ok, dest_ok, graph_ok, holdings_ok, link_ok, page_ok,
    trigger_ok,
};
use crate::variable::{ValueV, VarType};
use crate::varstore::{mod_num_spec, set_var_spec, tags_of, toggle_bool_spec};

verus! {

/// How deep chains of item effects may recurse.
pub const EFFECT_DEPTH: u64 = 64;

/// One entry of the navigation history: a previously current page and the
/// index of the link followed to leave it.
pub struct HistV {
    pub page: int,
    pub link_idx: Option<int>,
}

/// The engine's abstract state: current position, arrived-via link index,
/// navigation history, prompt queue, variable store and item holdings.
#[verifier::ext_equal]
pub struct GameView {
    pub current: int,
    pub link_idx: Option<int>,
    pub history: Seq<HistV>,
    pub prompts: Seq<PromptV>,
    pub vars: Map<Seq<char>, ValueV>,
    pub items: Map<Seq<char>, Seq<ItemV>>,
}

/// Equality of two values of one tag; values of different tags never
/// compare equal.
pub open spec fn val_eq(a: ValueV, b: ValueV) -> bool {
    match (a, b) {
        (ValueV::Num(x), ValueV::Num(y)) => x == y,
        (ValueV::Bool(x), ValueV::Bool(y)) => x == y,
        (ValueV::Str(x), ValueV::Str(y)) => x == y,
        _ => false,
    }
}

/// What a comparison evaluates to against the variable store.
pub open spec fn op_holds(o: OperationV, vars: Map<Seq<char>, ValueV>) -> bool {
    let var = vars[o.name];
    match o.op {
        ComparisonOp::EQ => val_eq(var, o.value),
        ComparisonOp::NEQ => !val_eq(var, o.value),
        ComparisonOp::GT => match (var, o.value) {
            (ValueV::Num(x), ValueV::Num(y)) => x > y,
            _ => false,
        },
        ComparisonOp::GTE => match (var, o.value) {
            (ValueV::Num(x), ValueV::Num(y)) => x >= y,
            _ => false,
        },
        ComparisonOp::LT => match (var, o.value) {
            (ValueV::Num(x), ValueV::Num(y)) => x < y,
            _ => false,
        },
        ComparisonOp::LTE => match (var, o.value) {
            (ValueV::Num(x), ValueV::Num(y)) => x <= y,
            _ => false,
        },
    }
}

/// What a condition evaluates to: a pure function of the condition, the
/// variable store and the item holdings. A conjunction of no children is
/// true; a disjunction of no children is false.
pub open spec fn cond_holds(
    c: ConditionV,
    vars: Map<Seq<char>, ValueV>,
    items: Map<Seq<char>, Seq<ItemV>>,
) -> bool
    decreases c,
{
    match c {
        ConditionV::And(cs) => all_hold(cs, vars, items),
        ConditionV::Or(cs) => any_holds(cs, vars, items),
        ConditionV::Not(c2) => !cond_holds(*c2, vars, items),
        ConditionV::Op(o) => op_holds(o, vars),
        ConditionV::HasItem(n) => items.dom().contains(n),
    }
}

/// All conditions of a list hold; a list of none does.
pub open spec fn all_hold(
    cs: Seq<ConditionV>,
    vars: Map<Seq<char>, ValueV>,
    items: Map<Seq<char>, Seq<ItemV>>,
) -> bool
    decreases cs,
{
    cs.len() == 0 || (cond_holds(cs[0], vars, items) && all_hold(cs.drop_first(), vars, items))
}

/// Some condition of a list holds; of a list of none, none does.
pub open spec fn any_holds(
    cs: Seq<ConditionV>,
    vars: Map<Seq<char>, ValueV>,
    items: Map<Seq<char>, Seq<ItemV>>,
) -> bool
    decreases cs,
{
    cs.len() > 0 && (cond_holds(cs[0], vars, items) || any_holds(cs.drop_first(), vars, items))
}

/// Applies one action to the state; returns the new state and the
/// destination the action proposed, if any. A use of an item fires its
/// effect through this same function with one unit of recursion depth less.
pub open spec fn apply_act(
    s: GameView,
    defs: Map<Seq<char>, ItemDefV>,
    a: LinkActionV,
    fuel: nat,
) -> (GameView, Option<LinkDestV>)
    decreases fuel,
{
    match a {
        LinkActionV::SetVar { name, value } => (
            GameView { vars: set_var_spec(s.vars, name, value), ..s },
            None,
        ),
        LinkActionV::ModNum { name, value } => (
            GameView { vars: mod_num_spec(s.vars, name, value), ..s },
            None,
        ),
        LinkActionV::ToggleBool(name) => (
            GameView { vars: toggle_bool_spec(s.vars, name), ..s },
            None,
        ),
        LinkActionV::SetDest(d) => (s, Some(d)),
        LinkActionV::Prompt(p) => (GameView { prompts: s.prompts.push(p), ..s }, None),
        LinkActionV::AcquireItem(name) => {
            if defs.dom().contains(name) {
                (GameView { items: acquire_spec(s.items, defs[name]), ..s }, None)
            } else {
                (s, None)
            }
        },
        LinkActionV::DropItem(name) => (
            GameView { items: drop_front_spec(s.items, name), ..s },
            None,
        ),
        LinkActionV::UseItem(name) => {
            let (m2, eff) = use_front_spec(s.items, name);
            let s2 = GameView { items: m2, ..s };
            match eff {
                Some(e) => if fuel > 0 {
                    apply_act(s2, defs, e, (fuel - 1) as nat)
                } else {
                    (s2, None)
                },
                None => (s2, None),
            }
        },
    }
}

/// Applies a list of actions in order; the last destination proposed
/// anywhere in the list (or by a nested item effect) wins.
pub open spec fn run_acts(
    s: GameView,
    defs: Map<Seq<char>, ItemDefV>,
    acts: Seq<LinkActionV>,
    fuel: nat,
) -> (GameView, Option<LinkDestV>)
    decreases acts.len(),
{
    if acts.len() == 0 {
        (s, None)
    } else {
        let (s1, d1) = apply_act(s, defs, acts[0], fuel);
        let (s2, d2) = run_acts(s1, defs, acts.drop_first(), fuel);
        (
            s2,
            if d2 is Some {
                d2
            } else {
                d1
            },
        )
    }
}

/// Runs each trigger in order: if its condition holds against the state as
/// it stands at that moment, its actions run; a later trigger's proposal
/// overwrites an earlier one.
pub open spec fn run_triggers(
    s: GameView,
    defs: Map<Seq<char>, ItemDefV>,
    trigs: Seq<LinkTriggerV>,
    fuel: nat,
) -> (GameView, Option<LinkDestV>)
    decreases trigs.len(),
{
    if trigs.len() == 0 {
        (s, None)
    } else {
        let (s1, d1) = if cond_holds(trigs[0].condition, s.vars, s.items) {
            run_acts(s, defs, trigs[0].actions, fuel)
        } else {
            (s, None)
        };
        let (s2, d2) = run_triggers(s1, defs, trigs.drop_first(), fuel);
        (
            s2,
            if d2 is Some {
                d2
            } else {
                d1
            },
        )
    }
}

/// Runs a link's actions, then its triggers, and returns the resulting
/// state together with the effective destination: the last proposal if any,
/// else the link's static destination.
pub open spec fn resolve_link(
    s: GameView,
    defs: Map<Seq<char>, ItemDefV>,
    link: LinkV,
    fuel: nat,
) -> (GameView, LinkDestV) {
    let (s1, d1) = run_acts(s, defs, link.actions, fuel);
    let (s2, d2) = run_triggers(s1, defs, link.triggers, fuel);
    (
        s2,
        if d2 is Some {
            d2->0
        } else if d1 is Some {
            d1->0
        } else {
            link.dest
        },
    )
}

/// Applies the effective destination.
///
/// Going to a page of a different identity pushes the current position onto
/// the history; a self-loop changes nothing. Going back pops the history,
/// or does nothing when it is empty. Ending the game only clears the
/// arrived-via index and reports the message.
pub open spec fn apply_dest(s: GameView, d: LinkDestV, link_idx: int, pages: Seq<PageV>) -> (
    GameView,
    Option<Seq<char>>,
) {
    match d {
        LinkDestV::Page(r) => match r {
            PageRefV::Resolved(i) => {
                if 0 <= i < pages.len() && 0 <= s.current < pages.len() && pages[i].id
                    != pages[s.current].id {
                    (
                        GameView {
                            current: i,
                            link_idx: Some(link_idx),
                            history: s.history.push(
                                HistV { page: s.current, link_idx: Some(link_idx) },
                            ),
                            ..s
                        },
                        None,
                    )
                } else {
                    (s, None)
                }
            },
            PageRefV::Name(_) => (s, None),
        },
        LinkDestV::CurrentPage => (s, None),
        LinkDestV::PrevPage => {
            if s.history.len() == 0 {
                (s, None)
            } else {
                (
                    GameView {
                        current: s.history.last().page,
                        link_idx: s.history.last().link_idx,
                        history: s.history.drop_last(),
                        ..s
                    },
                    None,
                )
            }
        },
        LinkDestV::EndGame(m) => (GameView { link_idx: None, ..s }, Some(m)),
    }
}

/// One full state transition: selecting the link with the given index on
/// the current page. Returns the new state, and the terminal message if the
/// game ended.
pub open spec fn follow_link_spec(
    s: GameView,
    defs: Map<Seq<char>, ItemDefV>,
    pages: Seq<PageV>,
    link_idx: int,
    fuel: nat,
) -> (GameView, Option<Seq<char>>) {
    let link = pages[s.current].links[link_idx];
    let (s2, eff) = resolve_link(s, defs, link, fuel);
    apply_dest(s2, eff, link_idx, pages)
}

/// The engine state's well-formedness: position and history indices are in
/// range, the store's tags are the declared ones, and the holdings are
/// well-formed with validated templates.
pub open spec fn state_wf(
    s: GameView,
    defs: Map<Seq<char>, ItemDefV>,
    tags: Map<Seq<char>, VarType>,
    npages: int,
) -> bool {
    &&& 0 <= s.current < npages
    &&& forall|i: int| 0 <= i < s.history.len() ==> 0 <= (#[trigger] s.history[i]).page < npages
    &&& tags_of(s.vars) == tags
    &&& holdings_wf(s.items)
    &&& holdings_ok(s.items, tags, defs.dom(), npages)
}

/// Every instance of a stack is well-formed and carries a valid template.
pub open spec fn stack_ok(
    st: Seq<ItemV>,
    tags: Map<Seq<char>, VarType>,
    items: Set<Seq<char>>,
    npages: int,
) -> bool {
    forall|i: int|
        0 <= i < st.len() ==> (#[trigger] st[i]).wf() && def_ok(st[i].def, tags, items, npages)
}

/// Holdings are well-formed exactly when every stack is non-empty and fine.
proof fn lemma_holdings_from_stacks(
    m: Map<Seq<char>, Seq<ItemV>>,
    tags: Map<Seq<char>, VarType>,
    items: Set<Seq<char>>,
    npages: int,
)
    requires
        forall|k: Seq<char>| #[trigger]
            m.dom().contains(k) ==> m[k].len() > 0 && stack_ok(m[k], tags, items, npages),
    ensures
        holdings_wf(m),
        holdings_ok(m, tags, items, npages),
{
}

/// Applying one valid action preserves well-formedness, moves neither the
/// position nor the history, and proposes only valid destinations.
pub proof fn lemma_apply_act(
    s: GameView,
    defs: Map<Seq<char>, ItemDefV>,
    tags: Map<Seq<char>, VarType>,
    npages: int,
    a: LinkActionV,
    fuel: nat,
)
    requires
        state_wf(s, defs, tags, npages),
        defs_ok(defs, tags, npages),
        action_ok(a, tags, defs.dom(), npages),
    ensures
        ({
            let (s2, d) = apply_act(s, defs, a, fuel);
            &&& state_wf(s2, defs, tags, npages)
            &&& s2.current == s.current
            &&& s2.link_idx == s.link_idx
            &&& s2.history == s.history
            &&& match d {
                Some(dd) => dest_ok(dd, npages),
                None => true,
            }
        }),
    decreases fuel,
{
    let names = defs.dom();
    match a {
        LinkActionV::SetVar { name, value } => {
            assert(tags_of(set_var_spec(s.vars, name, value)) =~= tags_of(s.vars));
        },
        LinkActionV::ModNum { name, value } => {
            assert(tags_of(mod_num_spec(s.vars, name, value)) =~= tags_of(s.vars));
        },
        LinkActionV::ToggleBool(name) => {
            assert(tags_of(toggle_bool_spec(s.vars, name)) =~= tags_of(s.vars));
        },
        LinkActionV::SetDest(_) => {},
        LinkActionV::Prompt(_) => {},
        LinkActionV::AcquireItem(name) => {
            if defs.dom().contains(name) {
                let def = defs[name];
                let m = s.items;
                let m2 = acquire_spec(m, def);
                let k = def.name;
                assert(k == name);
                assert forall|kk: Seq<char>| #[trigger] m2.dom().contains(kk) implies m2[kk].len()
                    > 0 && stack_ok(m2[kk], tags, names, npages) by {
                    if kk == k {
                        if m.dom().contains(k) && m[k].len() > 0 {
                            let stack = m[k];
                            let prev = stack.last();
                            assert(prev.wf());
                            assert(def_ok(prev.def, tags, names, npages));
                            assert forall|i: int| 0 <= i < m2[kk].len() implies (
                            #[trigger] m2[kk][i]).wf() && def_ok(m2[kk][i].def, tags, names, npages) by {
                                if i < stack.len() - 1 {
                                    assert(m2[kk][i] == stack[i]);
                                }
                            }
                        }
                    } else {
                        assert(m2[kk] == m[kk]);
                        assert(stack_ok(m[kk], tags, names, npages));
                    }
                }
                lemma_holdings_from_stacks(m2, tags, names, npages);
            }
        },
        LinkActionV::DropItem(name) => {
            let m = s.items;
            let m2 = drop_front_spec(m, name);
            assert forall|kk: Seq<char>| #[trigger] m2.dom().contains(kk) implies m2[kk].len() > 0
                && stack_ok(m2[kk], tags, names, npages) by {
                if kk == name {
                    assert(m.dom().contains(name) && m[name].len() > 1);
                    assert forall|i: int| 0 <= i < m2[kk].len() implies (#[trigger] m2[kk][i]).wf()
                        && def_ok(m2[kk][i].def, tags, names, npages) by {
                        assert(m2[kk][i] == m[name][i + 1]);
                    }
                } else {
                    assert(m2[kk] == m[kk]);
                    assert(stack_ok(m[kk], tags, names, npages));
                }
            }
            lemma_holdings_from_stacks(m2, tags, names, npages);
        },
        LinkActionV::UseItem(name) => {
            let m = s.items;
            let (m2, eff) = use_front_spec(m, name);
            let s2 = GameView { items: m2, ..s };
            assert forall|kk: Seq<char>| #[trigger] m2.dom().contains(kk) implies m2[kk].len() > 0
                && stack_ok(m2[kk], tags, names, npages) by {
                if m.dom().contains(name) && m[name].len() > 0 && kk == name {
                    let it = m[name][0];
                    if it.used < it.def.eff_max() {
                        let it2 = ItemV { def: it.def, used: it.used + 1 };
                        let depleted = match it.def.max_uses {
                            Some(mx) => it2.used == mx,
                            None => false,
                        };
                        assert forall|i: int| 0 <= i < m2[kk].len() implies (
                        #[trigger] m2[kk][i]).wf() && def_ok(m2[kk][i].def, tags, names, npages) by {
                            if depleted {
                                assert(m2[kk][i] == m[name][i + 1]);
                            } else if i > 0 {
                                assert(m2[kk][i] == m[name][i]);
                            }
                        }
                    } else {
                        assert(stack_ok(m[kk], tags, names, npages));
                    }
                } else {
                    assert(m2[kk] == m[kk]);
                    assert(stack_ok(m[kk], tags, names, npages));
                }
            }
            lemma_holdings_from_stacks(m2, tags, names, npages);
            assert(state_wf(s2, defs, tags, npages));
            match eff {
                Some(e) => {
                    if fuel > 0 {
                        assert(action_ok(e, tags, names, npages)) by {
                            let it = m[name][0];
                            assert(def_ok(it.def, tags, names, npages));
                        }
                        lemma_apply_act(s2, defs, tags, npages, e, (fuel - 1) as nat);
                    }
                },
                None => {},
            }
        },
    }
}

/// Running a list of valid actions preserves well-formedness, moves neither
/// the position nor the history, and proposes only valid destinations.
pub proof fn lemma_run_acts(
    s: GameView,
    defs: Map<Seq<char>, ItemDefV>,
    tags: Map<Seq<char>, VarType>,
    npages: int,
    acts: Seq<LinkActionV>,
    fuel: nat,
)
    requires
        state_wf(s, defs, tags, npages),
        defs_ok(defs, tags, npages),
        actions_ok(acts, tags, defs.dom(), npages),
    ensures
        ({
            let (s2, d) = run_acts(s, defs, acts, fuel);
            &&& state_wf(s2, defs, tags, npages)
            &&& s2.current == s.current
            &&& s2.link_idx == s.link_idx
            &&& s2.history == s.history
            &&& match d {
                Some(dd) => dest_ok(dd, npages),
                None => true,
            }
        }),
    decreases acts.len(),
{
    if acts.len() > 0 {
        lemma_apply_act(s, defs, tags, npages, acts[0], fuel);
        let (s1, d1) = apply_act(s, defs, acts[0], fuel);
        assert(actions_ok(acts.drop_first(), tags, defs.dom(), npages)) by {
            assert forall|i: int| 0 <= i < acts.drop_first().len() implies action_ok(
                #[trigger] acts.drop_first()[i],
                tags,
                defs.dom(),
                npages,
            ) by {
                assert(acts.drop_first()[i] == acts[i + 1]);
            }
        }
        lemma_run_acts(s1, defs, tags, npages, acts.drop_first(), fuel);
    }
}

/// Running valid triggers preserves well-formedness, moves neither the
/// position nor the history, and proposes only valid destinations.
pub proof fn lemma_run_triggers(
    s: GameView,
    defs: Map<Seq<char>, ItemDefV>,
    tags: Map<Seq<char>, VarType>,
    npages: int,
    trigs: Seq<LinkTriggerV>,
    fuel: nat,
)
    requires
        state_wf(s, defs, tags, npages),
        defs_ok(defs, tags, npages),
        forall|i: int|
            0 <= i < trigs.len() ==> trigger_ok(#[trigger] trigs[i], tags, defs.dom(), npages),
    ensures
        ({
            let (s2, d) = run_triggers(s, defs, trigs, fuel);
            &&& state_wf(s2, defs, tags, npages)
            &&& s2.current == s.current
            &&& s2.link_idx == s.link_idx
            &&& s2.history == s.history
            &&& match d {
                Some(dd) => dest_ok(dd, npages),
                None => true,
            }
        }),
    decreases trigs.len(),
{
    if trigs.len() > 0 {
        let (s1, d1) = if cond_holds(trigs[0].condition, s.vars, s.items) {
            lemma_run_acts(s, defs, tags, npages, trigs[0].actions, fuel);
            run_acts(s, defs, trigs[0].actions, fuel)
        } else {
            (s, None)
        };
        assert forall|i: int| 0 <= i < trigs.drop_first().len() implies trigger_ok(
            #[trigger] trigs.drop_first()[i],
            tags,
            defs.dom(),
            npages,
        ) by {
            assert(trigs.drop_first()[i] == trigs[i + 1]);
        }
        lemma_run_triggers(s1, defs, tags, npages, trigs.drop_first(), fuel);
    }
}

/// A full link resolution against a valid graph preserves well-formedness.
pub proof fn lemma_follow_link(
    s: GameView,
    defs: Map<Seq<char>, ItemDefV>,
    tags: Map<Seq<char>, VarType>,
    pages: Seq<PageV>,
    link_idx: int,
    fuel: nat,
)
    requires
        state_wf(s, defs, tags, pages.len() as int),
        defs_ok(defs, tags, pages.len() as int),
        graph_ok(pages, tags, defs.dom()),
        0 <= link_idx < pages[s.current].links.len(),
    ensures
        ({
            let (s2, msg) = follow_link_spec(s, defs, pages, link_idx, fuel);
            state_wf(s2, defs, tags, pages.len() as int)
        }),
{
    let npages = pages.len() as int;
    let link = pages[s.current].links[link_idx];
    assert(link_ok(link, tags, defs.dom(), npages)) by {
        assert(page_ok(pages[s.current], tags, defs.dom(), npages));
    }
    lemma_run_acts(s, defs, tags, npages, link.actions, fuel);
    let (s1, d1) = run_acts(s, defs, link.actions, fuel);
    lemma_run_triggers(s1, defs, tags, npages, link.triggers, fuel);
    let (s2, d2) = run_triggers(s1, defs, link.triggers, fuel);
    let eff = if d2 is Some {
        d2->0
    } else if d1 is Some {
        d1->0
    } else {
        link.dest
    };
    assert(dest_ok(eff, npages));
}

/// A conjunction holds exactly when all its children hold; one of no
/// children holds.
pub proof fn lemma_all_hold(
    cs: Seq<ConditionV>,
    vars: Map<Seq<char>, ValueV>,
    items: Map<Seq<char>, Seq<ItemV>>,
)
    ensures
        all_hold(cs, vars, items) <==> (forall|i: int|
            0 <= i < cs.len() ==> cond_holds(#[trigger] cs[i], vars, items)),
    decreases cs.len(),
{
    if cs.len() > 0 {
        lemma_all_hold(cs.drop_first(), vars, items);
        if all_hold(cs, vars, items) {
            assert forall|i: int| 0 <= i < cs.len() implies cond_holds(
                #[trigger] cs[i],
                vars,
                items,
            ) by {
                if i > 0 {
                    assert(cs.drop_first()[i - 1] == cs[i]);
                    assert(cond_holds(cs.drop_first()[i - 1], vars, items));
                }
            }
        }
        if forall|i: int| 0 <= i < cs.len() ==> cond_holds(#[trigger] cs[i], vars, items) {
            assert forall|i: int| 0 <= i < cs.drop_first().len() implies cond_holds(
                #[trigger] cs.drop_first()[i],
                vars,
                items,
            ) by {
                assert(cs.drop_first()[i] == cs[i + 1]);
            }
            assert(cond_holds(cs[0], vars, items));
            assert(all_hold(cs.drop_first(), vars, items));
        }
    }
}

/// A disjunction holds exactly when some child holds; one of no children
/// does not hold.
pub proof fn lemma_any_holds(
    cs: Seq<ConditionV>,
    vars: Map<Seq<char>, ValueV>,
    items: Map<Seq<char>, Seq<ItemV>>,
)
    ensures
        any_holds(cs, vars, items) <==> (exists|i: int|
            0 <= i < cs.len() && cond_holds(#[trigger] cs[i], vars, items)),
    decreases cs.len(),
{
    if cs.len() > 0 {
        lemma_any_holds(cs.drop_first(), vars, items);
        if any_holds(cs, vars, items) {
            if cond_holds(cs[0], vars, items) {
                assert(0 <= 0 < cs.len() && cond_holds(cs[0], vars, items));
            } else {
                let i = choose|i: int|
                    0 <= i < cs.drop_first().len() && cond_holds(
                        #[trigger] cs.drop_first()[i],
                        vars,
                        items,
                    );
                assert(cs.drop_first()[i] == cs[i + 1]);
                assert(0 <= i + 1 < cs.len() && cond_holds(cs[i + 1], vars, items));
            }
        }
        if exists|i: int| 0 <= i < cs.len() && cond_holds(#[trigger] cs[i], vars, items) {
            let i = choose|i: int| 0 <= i < cs.len() && cond_holds(#[trigger] cs[i], vars, items);
            if i == 0 {
            } else {
                assert(cs.drop_first()[i - 1] == cs[i]);
                assert(cond_holds(cs.drop_first()[i - 1], vars, items));
                assert(any_holds(cs.drop_first(), vars, items));
            }
        }
    }
}

/// A conjunction holds exactly when all its children hold; one of no
/// children holds.
pub proof fn lemma_cond_holds_and(
    cs: Seq<ConditionV>,
    vars: Map<Seq<char>, ValueV>,
    items: Map<Seq<char>, Seq<ItemV>>,
)
    ensures
        cond_holds(ConditionV::And(cs), vars, items) <==> (forall|i: int|
            0 <= i < cs.len() ==> cond_holds(#[trigger] cs[i], vars, items)),
{
    assert(cond_holds(ConditionV::And(cs), vars, items) == all_hold(cs, vars, items));
    lemma_all_hold(cs, vars, items);
}

/// A disjunction holds exactly when some child holds; one of no children
/// does not hold.
pub proof fn lemma_cond_holds_or(
    cs: Seq<ConditionV>,
    vars: Map<Seq<char>, ValueV>,
    items: Map<Seq<char>, Seq<ItemV>>,
)
    ensures
        cond_holds(ConditionV::Or(cs), vars, items) <==> (exists|i: int|
            0 <= i < cs.len() && cond_holds(#[trigger] cs[i], vars, items)),
{
    assert(cond_holds(ConditionV::Or(cs), vars, items) == any_holds(cs, vars, items));
    lemma_any_holds(cs, vars, items);
}

} // verus!

//! General laws of the engine, stated over the transition functions of
//! [`crate::semantics`] and proved once for every state.

use vstd::prelude::*;

use crate::condition::ConditionV;
use crate::item::{ItemDefV, ItemV};
use crate::semantics::{
    apply_act, apply_dest, cond_holds, resolve_link, run_acts, run_triggers, GameView,
};
use crate::story::{LinkActionV, LinkDestV, LinkTriggerV, LinkV, PageRefV, PageV};
use crate::utils::clamp_int;
use crate::variable::ValueV;

verus! {

/// A conjunction with no children evaluates true; a disjunction with no
/// children evaluates false — whatever the variable store and the item
/// holdings.
pub proof fn lemma_empty_conjunction_disjunction(
    vars: Map<Seq<char>, ValueV>,
    items: Map<Seq<char>, Seq<ItemV>>,
)
    ensures
        cond_holds(ConditionV::And(Seq::empty()), vars, items),
        !cond_holds(ConditionV::Or(Seq::empty()), vars, items),
{
    crate::semantics::lemma_cond_holds_and(Seq::empty(), vars, items);
    crate::semantics::lemma_cond_holds_or(Seq::empty(), vars, items);
}

/// Following a link whose destination is the current page never grows the
/// history stack and never changes the arrived-via index: a self-loop
/// leaves the whole position state unchanged.
pub proof fn lemma_self_loop_keeps_history(
    s: GameView,
    d: LinkDestV,
    link_idx: int,
    pages: Seq<PageV>,
)
    requires
        d matches LinkDestV::Page(r) && r matches PageRefV::Resolved(i) && 0 <= i < pages.len()
            && 0 <= s.current < pages.len() && pages[i].id == pages[s.current].id,
    ensures
        apply_dest(s, d, link_idx, pages).0 == s,
        apply_dest(s, d, link_idx, pages).0.history == s.history,
        apply_dest(s, d, link_idx, pages).0.link_idx == s.link_idx,
        apply_dest(s, d, link_idx, pages).1 is None,
{
}

/// "Go to previous" on an empty history stack leaves the current page and
/// the arrived-via index unchanged: the whole state is untouched.
pub proof fn lemma_previous_on_empty_history(s: GameView, link_idx: int, pages: Seq<PageV>)
    requires
        s.history.len() == 0,
    ensures
        apply_dest(s, LinkDestV::PrevPage, link_idx, pages).0 == s,
        apply_dest(s, LinkDestV::PrevPage, link_idx, pages).1 is None,
{
}

/// Ending the game never mutates the current page or the history; it only
/// clears the arrived-via index and reports the message.
pub proof fn lemma_end_game(s: GameView, msg: Seq<char>, link_idx: int, pages: Seq<PageV>)
    ensures
        ({
            let (s2, r) = apply_dest(s, LinkDestV::EndGame(msg), link_idx, pages);
            &&& s2.current == s.current
            &&& s2.history == s.history
            &&& s2.prompts == s.prompts
            &&& s2.vars == s.vars
            &&& s2.items == s.items
            &&& s2.link_idx is None
            &&& r == Some(msg)
        }),
{
}

/// Adding a delta to an integer variable clamps the result into the
/// representable range and never wraps, whatever the delta's magnitude.
pub proof fn lemma_mod_num_clamped(
    s: GameView,
    defs: Map<Seq<char>, ItemDefV>,
    name: Seq<char>,
    x0: int,
    delta: int,
    fuel: nat,
)
    requires
        s.vars.dom().contains(name),
        s.vars[name] == ValueV::Num(x0),
    ensures
        ({
            let s2 = apply_act(s, defs, LinkActionV::ModNum { name, value: delta }, fuel).0;
            &&& s2.vars[name] == ValueV::Num(
                clamp_int(x0 + delta, i32::MIN as int, i32::MAX as int),
            )
            &&& s2.vars[name] matches ValueV::Num(v) && i32::MIN <= v <= i32::MAX
        }),
{
}

/// Using an item whose front instance is at its effective maximum is a
/// no-op: no effect fires, no instance is removed, the state is unchanged.
pub proof fn lemma_use_at_max_is_noop(
    s: GameView,
    defs: Map<Seq<char>, ItemDefV>,
    name: Seq<char>,
    fuel: nat,
)
    requires
        s.items.dom().contains(name),
        s.items[name].len() > 0,
        s.items[name][0].used >= s.items[name][0].def.eff_max(),
    ensures
        apply_act(s, defs, LinkActionV::UseItem(name), fuel).0 == s,
        apply_act(s, defs, LinkActionV::UseItem(name), fuel).1 is None,
{
    let (m2, eff) = crate::inventory::use_front_spec(s.items, name);
    assert(m2 == s.items);
    assert((GameView { items: m2, ..s }) =~= s);
}

/// Using an item whose use brings its front instance to a declared maximum
/// removes the instance from the front of its stack (and the stack entry
/// with it if now empty) before the effect executes: the whole step equals
/// applying the instance's effect to the state with the instance already
/// removed — so any destination the effect proposes is the one returned.
pub proof fn lemma_use_depleting_removes_before_effect(
    s: GameView,
    defs: Map<Seq<char>, ItemDefV>,
    name: Seq<char>,
    mx: int,
    fuel: nat,
)
    requires
        fuel > 0,
        s.items.dom().contains(name),
        s.items[name].len() > 0,
        s.items[name][0].def.max_uses == Some(mx),
        s.items[name][0].used + 1 == mx,
        s.items[name][0].used < s.items[name][0].def.eff_max(),
    ensures
        ({
            let popped = if s.items[name].len() == 1 {
                s.items.remove(name)
            } else {
                s.items.insert(name, s.items[name].drop_first())
            };
            let s1 = GameView { items: popped, ..s };
            apply_act(s, defs, LinkActionV::UseItem(name), fuel) == apply_act(
                s1,
                defs,
                s.items[name][0].def.effect,
                (fuel - 1) as nat,
            )
        }),
{
}

/// Last proposal wins: for a link with any static destination, an action
/// proposing destination `a`, and a later-evaluating trigger whose
/// condition always holds proposing destination `b`, the effective
/// destination of the traversal is `b`.
pub proof fn lemma_last_proposal_wins(
    s: GameView,
    defs: Map<Seq<char>, ItemDefV>,
    link: LinkV,
    a: LinkDestV,
    b: LinkDestV,
    fuel: nat,
)
    requires
        link.actions == seq![LinkActionV::SetDest(a)],
        link.triggers.len() == 1,
        link.triggers[0].condition == ConditionV::And(Seq::<ConditionV>::empty()),
        link.triggers[0].actions == seq![LinkActionV::SetDest(b)],
    ensures
        resolve_link(s, defs, link, fuel).1 == b,
        resolve_link(s, defs, link, fuel).0 == s,
{
    let acts = link.actions;
    assert(acts.drop_first() =~= Seq::<LinkActionV>::empty());
    assert(run_acts(s, defs, Seq::<LinkActionV>::empty(), fuel) == (s, None::<LinkDestV>));
    assert(apply_act(s, defs, acts[0], fuel) == (s, Some(a)));
    assert(run_acts(s, defs, acts, fuel) == (s, Some(a)));
    let trigs = link.triggers;
    crate::semantics::lemma_cond_holds_and(Seq::empty(), s.vars, s.items);
    assert(cond_holds(trigs[0].condition, s.vars, s.items));
    let tacts = trigs[0].actions;
    assert(tacts.drop_first() =~= Seq::<LinkActionV>::empty());
    assert(apply_act(s, defs, tacts[0], fuel) == (s, Some(b)));
    assert(run_acts(s, defs, tacts, fuel) == (s, Some(b)));
    assert(trigs.drop_first() =~= Seq::<LinkTriggerV>::empty());
    assert(run_triggers(s, defs, Seq::<LinkTriggerV>::empty(), fuel) == (
        s,
        None::<LinkDestV>,
    ));
    assert(run_triggers(s, defs, trigs, fuel) == (s, Some(b)));
}

} // verus!

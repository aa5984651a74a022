//! The play engine: holds the loaded story graph, the current position,
//! navigation history and prompt queue, the variable store and the item
//! holdings, and resolves player choices into state transitions.
//!
//! Every mutating operation is proved to follow the transition functions of
//! [`crate::semantics`].

use vstd::prelude::*;

use crate::condition::{cond_view, ComparisonOp, Condition, OperationV};
use crate::errors::{Error, ErrorV};
use crate::inventory::Inventory;
use crate::item::{ItemDef, ItemDefV};
use crate::kvmap::{keys_unique, lemma_map_of_absent, lemma_map_of_index, map_of};
use crate::semantics::{
    apply_act, apply_dest, cond_holds, follow_link_spec, op_holds, resolve_link, run_acts,
    run_triggers, state_wf, GameView, HistV, EFFECT_DEPTH,
};
use crate::story::{
    acts_view, clone_actions, clone_link_dest, clone_prompt, clone_triggers, pages_view,
    trigs_view, LinkAction, LinkDest, LinkTrigger, Page, PageRef, Prompt, StoryGraph,
};
use crate::validate::{action_ok, actions_ok, cond_ok, defs_ok, dest_ok, graph_ok, op_ok};
use crate::variable::{VarType, Variable};
use crate::varstore::{tags_of, VarStore};

verus! {

broadcast use vstd::std_specs::vec::group_vec_axioms;

/// One entry of the navigation history: a previously current page (by page
/// table index) and the index of the link followed to leave it.
#[derive(Debug, Clone, Copy)]
pub struct HistoryItem {
    pub page: usize,
    pub link_idx: Option<usize>,
}

/// The mathematical form of an optional index.
pub open spec fn opt_idx_view(o: Option<usize>) -> Option<int> {
    match o {
        Some(i) => Some(i as int),
        None => None,
    }
}

impl View for HistoryItem {
    type V = HistV;

    open spec fn view(&self) -> HistV {
        HistV { page: self.page as int, link_idx: opt_idx_view(self.link_idx) }
    }
}

impl HistoryItem {
    /// Builds a history entry for a page left through a link.
    pub fn new(page: usize, link_idx: Option<usize>) -> (h: HistoryItem)
        ensures
            h.page == page,
            h.link_idx == link_idx,
    {
        HistoryItem { page, link_idx }
    }
}

/// The play engine's full state.
#[derive(Debug)]
pub struct Game {
    /// The loaded story graph; read-only during play.
    pub graph: StoryGraph,
    /// The index of the entry page.
    pub starting_page: usize,
    /// The index of the page the player is on.
    pub current_page: usize,
    /// The index of the link followed to arrive here, if any.
    pub current_link_idx: Option<usize>,
    /// The navigation history, oldest first.
    pub history: Vec<HistoryItem>,
    /// Queued prompts, in first-in first-out order.
    pub prompt_queue: Vec<Prompt>,
    /// The variable store.
    pub variables: VarStore,
    /// The registered item templates; read-only during play.
    pub item_defs: Vec<ItemDef>,
    /// The player's item holdings.
    pub items: Inventory,
}

/// The key/value pairs denoted by a sequence of templates.
pub open spec fn defs_kv(s: Seq<ItemDef>) -> Seq<(Seq<char>, ItemDefV)> {
    s.map_values(|d: ItemDef| (d.name@, d@))
}

impl View for Game {
    type V = GameView;

    open spec fn view(&self) -> GameView {
        GameView {
            current: self.current_page as int,
            link_idx: opt_idx_view(self.current_link_idx),
            history: self.history@.map_values(|h: HistoryItem| h@),
            prompts: self.prompt_queue@.map_values(|p: Prompt| p@),
            vars: self.variables@,
            items: self.items@,
        }
    }
}

impl Game {
    /// The registered templates as a map from name to template.
    pub open spec fn defs_map(&self) -> Map<Seq<char>, ItemDefV> {
        map_of(defs_kv(self.item_defs@))
    }

    /// The declared tag of each variable.
    pub open spec fn tags(&self) -> Map<Seq<char>, VarType> {
        tags_of(self.variables@)
    }

    /// The number of pages of the loaded graph.
    pub open spec fn npages(&self) -> int {
        self.graph.pages@.len() as int
    }

    /// The engine's well-formedness: the stores' representation invariants,
    /// a valid graph and valid templates, and an in-range position.
    pub open spec fn wf(&self) -> bool {
        &&& self.variables.wf()
        &&& self.items.wf()
        &&& keys_unique(defs_kv(self.item_defs@))
        &&& self.starting_page < self.npages()
        &&& state_wf(self@, self.defs_map(), self.tags(), self.npages())
        &&& defs_ok(self.defs_map(), self.tags(), self.npages())
        &&& graph_ok(pages_view(self.graph.pages@), self.tags(), self.defs_map().dom())
    }

    /// Constructs an engine positioned at the graph's entry page, with the
    /// given initial variables and item templates and nothing else: no
    /// history, no prompts, no held items.
    pub fn new(graph: StoryGraph, variables: VarStore, item_defs: Vec<ItemDef>) -> (g: Game)
        requires
            variables.wf(),
            keys_unique(defs_kv(item_defs@)),
            graph.entry < graph.pages@.len(),
            defs_ok(
                map_of(defs_kv(item_defs@)),
                tags_of(variables@),
                graph.pages@.len() as int,
            ),
            graph_ok(
                pages_view(graph.pages@),
                tags_of(variables@),
                map_of(defs_kv(item_defs@)).dom(),
            ),
        ensures
            g.wf(),
            g@.current == graph.entry,
            g@.link_idx is None,
            g@.history == Seq::<HistV>::empty(),
            g@.prompts == Seq::<crate::story::PromptV>::empty(),
            g@.vars == variables@,
            g@.items == Map::<Seq<char>, Seq<crate::item::ItemV>>::empty(),
            g.graph == graph,
            g.item_defs == item_defs,
            g.starting_page == graph.entry,
    {
        let entry = graph.entry;
        let g = Game {
            graph,
            starting_page: entry,
            current_page: entry,
            current_link_idx: None,
            history: Vec::new(),
            prompt_queue: Vec::new(),
            variables,
            item_defs,
            items: Inventory::new(),
        };
        proof {
            assert(g@.history =~= Seq::<HistV>::empty());
            assert(g@.prompts =~= Seq::<crate::story::PromptV>::empty());
        }
        g
    }

    /// The index of the template registered under a name.
    fn find_def(&self, name: &String) -> (r: Option<usize>)
        requires
            keys_unique(defs_kv(self.item_defs@)),
        ensures
            match r {
                Some(j) => {
                    &&& j < self.item_defs@.len()
                    &&& self.item_defs@[j as int].name@ == name@
                    &&& self.defs_map().dom().contains(name@)
                    &&& self.defs_map()[name@] == self.item_defs@[j as int]@
                },
                None => !self.defs_map().dom().contains(name@),
            },
    {
        let mut j: usize = 0;
        while j < self.item_defs.len()
            invariant
                keys_unique(defs_kv(self.item_defs@)),
                j <= self.item_defs@.len(),
                forall|x: int| 0 <= x < j ==> (#[trigger] self.item_defs@[x]).name@ != name@,
            decreases self.item_defs@.len() - j,
        {
            if self.item_defs[j].name == *name {
                proof {
                    let kv = defs_kv(self.item_defs@);
                    let d = self.item_defs@[j as int];
                    assert(kv[j as int] == (d.name@, d@));
                    lemma_map_of_index(kv, j as int);
                }
                return Some(j);
            }
            j = j + 1;
        }
        proof {
            lemma_map_of_absent(defs_kv(self.item_defs@), name@);
        }
        None
    }

    /// Pops the oldest queued prompt, if any.
    pub fn pop_prompt(&mut self) -> (r: Option<Prompt>)
        ensures
            final(self).graph == old(self).graph,
            final(self).item_defs == old(self).item_defs,
            final(self).starting_page == old(self).starting_page,
            old(self).wf() ==> final(self).wf(),
            match r {
                Some(p) => {
                    &&& old(self)@.prompts.len() > 0
                    &&& p@ == old(self)@.prompts[0]
                    &&& final(self)@ == (GameView { prompts: old(self)@.prompts.drop_first(), ..old(self)@ })
                },
                None => old(self)@.prompts.len() == 0 && final(self)@ == old(self)@,
            },
    {
        if self.prompt_queue.len() > 0 {
            let p = self.prompt_queue.remove(0);
            proof {
                assert(self.prompt_queue@.map_values(|q: Prompt| q@) =~= old(
                    self,
                )@.prompts.drop_first());
                assert(final(self)@ =~= (GameView {
                    prompts: old(self)@.prompts.drop_first(),
                    ..old(self)@
                }));
            }
            Some(p)
        } else {
            proof {
                assert(final(self)@ =~= old(self)@);
            }
            None
        }
    }

    /// Answers a prompt bound to a variable: the value is written only if
    /// the variable is declared and the value's tag matches; otherwise the
    /// operation is rejected and the state is unchanged.
    pub fn answer_prompt(&mut self, name: &String, value: Variable) -> (r: Result<(), Error>)
        requires
            old(self).wf(),
        ensures
            final(self).wf(),
            final(self).graph == old(self).graph,
            final(self).item_defs == old(self).item_defs,
            final(self).starting_page == old(self).starting_page,
            match r {
                Ok(_) => {
                    &&& old(self)@.vars.dom().contains(name@)
                    &&& old(self)@.vars[name@].typ() == value@.typ()
                    &&& final(self)@ == (GameView {
                        vars: old(self)@.vars.insert(name@, value@),
                        ..old(self)@
                    })
                },
                Err(e) => {
                    &&& final(self)@ == old(self)@
                    &&& if !old(self)@.vars.dom().contains(name@) {
                        e@ == ErrorV::UndeclaredVariable(name@)
                    } else {
                        &&& old(self)@.vars[name@].typ() != value@.typ()
                        &&& e@ == (ErrorV::BadValueType {
                            value: value@,
                            expected: old(self)@.vars[name@].typ(),
                        })
                    }
                },
            },
    {
        let expected: Option<VarType> = match self.variables.get(name) {
            Some(var) => Some(var.type_()),
            None => None,
        };
        match expected {
            None => Err(Error::undeclared_variable(name)),
            Some(expected) => {
                if value.type_() == expected {
                    self.variables.set_existing(name, value);
                    proof {
                        assert(tags_of(final(self)@.vars) =~= tags_of(old(self)@.vars));
                        assert(final(self)@ =~= (GameView {
                            vars: old(self)@.vars.insert(name@, value@),
                            ..old(self)@
                        }));
                    }
                    Ok(())
                } else {
                    Err(Error::bad_value_type(&value, expected))
                }
            },
        }
    }

    /// Evaluates a comparison against the variable store.
    pub fn eval_operation(&self, name: &String, op: ComparisonOp, value: &Variable) -> (r: bool)
        requires
            self.variables.wf(),
            op_ok(OperationV { name: name@, op, value: value@ }, self.tags()),
        ensures
            r == op_holds(OperationV { name: name@, op, value: value@ }, self@.vars),
    {
        let var = match self.variables.get(name) {
            Some(v) => v,
            None => {
                // a valid comparison names a declared variable
                proof {
                    assert(false);
                }
                value
            },
        };
        match op {
            ComparisonOp::EQ => match (var, value) {
                (Variable::Num(x), Variable::Num(y)) => *x == *y,
                (Variable::Bool(x), Variable::Bool(y)) => *x == *y,
                (Variable::Str(x), Variable::Str(y)) => *x == *y,
                _ => false,
            },
            ComparisonOp::NEQ => match (var, value) {
                (Variable::Num(x), Variable::Num(y)) => *x != *y,
                (Variable::Bool(x), Variable::Bool(y)) => *x != *y,
                (Variable::Str(x), Variable::Str(y)) => !(*x == *y),
                _ => true,
            },
            ComparisonOp::GT => match (var, value) {
                (Variable::Num(x), Variable::Num(y)) => *x > *y,
                _ => false,
            },
            ComparisonOp::GTE => match (var, value) {
                (Variable::Num(x), Variable::Num(y)) => *x >= *y,
                _ => false,
            },
            ComparisonOp::LT => match (var, value) {
                (Variable::Num(x), Variable::Num(y)) => *x < *y,
                _ => false,
            },
            ComparisonOp::LTE => match (var, value) {
                (Variable::Num(x), Variable::Num(y)) => *x <= *y,
                _ => false,
            },
        }
    }

    /// Evaluates a condition: a pure function of the condition, the
    /// variable store and the item holdings, free of side effects.
    pub fn eval_condition(&self, cond: &Condition) -> (r: bool)
        requires
            self.variables.wf(),
            self.items.wf(),
            cond_ok(cond@, self.tags(), self.defs_map().dom()),
        ensures
            r == cond_holds(cond@, self@.vars, self@.items),
        decreases *cond,
    {
        match cond {
            Condition::And(cs) => {
                let ghost cvs = crate::condition::conds_view(cs@);
                proof {
                    crate::condition::lemma_conds_view(cs@);
                    assert(cond@ == crate::condition::ConditionV::And(cvs));
                }
                let mut i: usize = 0;
                while i < cs.len()
                    invariant
                        self.variables.wf(),
                        self.items.wf(),
                        *cond == Condition::And(*cs),
                        cvs == crate::condition::conds_view(cs@),
                        cond@ == crate::condition::ConditionV::And(cvs),
                        cond_ok(cond@, self.tags(), self.defs_map().dom()),
                        i <= cs@.len(),
                        cvs.len() == cs@.len(),
                        forall|j: int| 0 <= j < cs@.len() ==> cvs[j] == cond_view(#[trigger] cs@[j]),
                        forall|j: int| 0 <= j < i ==> cond_holds(#[trigger] cvs[j], self@.vars, self@.items),
                    decreases cs@.len() - i,
                {
                    proof {
                        crate::validate::lemma_cond_ok_and(cvs, self.tags(), self.defs_map().dom());
                    }
                    if !self.eval_condition(&cs[i]) {
                        proof {
                            crate::semantics::lemma_cond_holds_and(cvs, self@.vars, self@.items);
                        }
                        return false;
                    }
                    i = i + 1;
                }
                proof {
                    crate::semantics::lemma_cond_holds_and(cvs, self@.vars, self@.items);
                }
                true
            },
            Condition::Or(cs) => {
                let ghost cvs = crate::condition::conds_view(cs@);
                proof {
                    crate::condition::lemma_conds_view(cs@);
                    assert(cond@ == crate::condition::ConditionV::Or(cvs));
                }
                let mut i: usize = 0;
                while i < cs.len()
                    invariant
                        self.variables.wf(),
                        self.items.wf(),
                        *cond == Condition::Or(*cs),
                        cvs == crate::condition::conds_view(cs@),
                        cond@ == crate::condition::ConditionV::Or(cvs),
                        cond_ok(cond@, self.tags(), self.defs_map().dom()),
                        i <= cs@.len(),
                        cvs.len() == cs@.len(),
                        forall|j: int| 0 <= j < cs@.len() ==> cvs[j] == cond_view(#[trigger] cs@[j]),
                        forall|j: int| 0 <= j < i ==> !cond_holds(#[trigger] cvs[j], self@.vars, self@.items),
                    decreases cs@.len() - i,
                {
                    proof {
                        crate::validate::lemma_cond_ok_or(cvs, self.tags(), self.defs_map().dom());
                    }
                    if self.eval_condition(&cs[i]) {
                        proof {
                            crate::semantics::lemma_cond_holds_or(cvs, self@.vars, self@.items);
                        }
                        return true;
                    }
                    i = i + 1;
                }
                proof {
                    crate::semantics::lemma_cond_holds_or(cvs, self@.vars, self@.items);
                }
                false
            },
            Condition::Not(child) => !self.eval_condition(&*child),
            Condition::Op(o) => self.eval_operation(&o.name, o.op, &o.value),
            Condition::HasItem(name) => self.items.has(name),
        }
    }
}

/// The mathematical form of an optional destination.
pub open spec fn opt_dest_view(o: Option<LinkDest>) -> Option<crate::story::LinkDestV> {
    match o {
        Some(d) => Some(d@),
        None => None,
    }
}

impl Game {
    /// Applies one action; returns the destination it proposed, if any.
    fn apply_action(&mut self, action: &LinkAction, depth: u64) -> (r: Option<LinkDest>)
        requires
            old(self).wf(),
            action_ok(
                action@,
                old(self).tags(),
                old(self).defs_map().dom(),
                old(self).npages(),
            ),
        ensures
            final(self).wf(),
            final(self).graph == old(self).graph,
            final(self).item_defs == old(self).item_defs,
            final(self).starting_page == old(self).starting_page,
            final(self).tags() == old(self).tags(),
            final(self)@ == apply_act(
                old(self)@,
                old(self).defs_map(),
                action@,
                depth as nat,
            ).0,
            opt_dest_view(r) == apply_act(
                old(self)@,
                old(self).defs_map(),
                action@,
                depth as nat,
            ).1,
        decreases depth,
    {
        let ghost s0 = self@;
        let ghost defs = self.defs_map();
        let ghost tags = self.tags();
        let ghost npages = self.npages();
        proof {
            crate::semantics::lemma_apply_act(s0, defs, tags, npages, action@, depth as nat);
        }
        match action {
            LinkAction::SetVar { name, value } => {
                self.variables.set_existing(name, crate::variable::clone_variable(value));
                proof {
                    assert(self@ =~= apply_act(s0, defs, action@, depth as nat).0);
                }
                None
            },
            LinkAction::ModNum { name, value } => {
                self.variables.mod_num(name, *value);
                proof {
                    assert(self@ =~= apply_act(s0, defs, action@, depth as nat).0);
                }
                None
            },
            LinkAction::ToggleBool(name) => {
                self.variables.toggle_bool(name);
                proof {
                    assert(self@ =~= apply_act(s0, defs, action@, depth as nat).0);
                }
                None
            },
            LinkAction::SetDest(d) => {
                let c = clone_link_dest(d);
                proof {
                    assert(self@ =~= apply_act(s0, defs, action@, depth as nat).0);
                }
                Some(c)
            },
            LinkAction::Prompt(p) => {
                self.prompt_queue.push(clone_prompt(p));
                proof {
                    assert(self@.prompts =~= s0.prompts.push(p@));
                    assert(self@ =~= apply_act(s0, defs, action@, depth as nat).0);
                }
                None
            },
            LinkAction::AcquireItem(name) => {
                match self.find_def(name) {
                    Some(j) => {
                        proof {
                            assert(self.item_defs@[j as int]@ == defs[name@]);
                            assert(crate::validate::def_ok(defs[name@], tags, defs.dom(), npages));
                        }
                        self.items.acquire(&self.item_defs[j]);
                        proof {
                            assert(self@ =~= apply_act(s0, defs, action@, depth as nat).0);
                        }
                    },
                    None => {
                        // a valid action acquires only declared items
                        proof {
                            assert(false);
                        }
                    },
                }
                None
            },
            LinkAction::DropItem(name) => {
                self.items.drop_front(name);
                proof {
                    assert(self@ =~= apply_act(s0, defs, action@, depth as nat).0);
                }
                None
            },
            LinkAction::UseItem(name) => {
                let ghost inter = apply_act(s0, defs, action@, 0).0;
                proof {
                    crate::semantics::lemma_apply_act(s0, defs, tags, npages, action@, 0);
                }
                let eff = self.items.use_front(name);
                proof {
                    assert(self@ =~= inter);
                }
                match eff {
                    Some(effect) => {
                        proof {
                            let (m2, e) = crate::inventory::use_front_spec(s0.items, name@);
                            assert(e == Some(effect@));
                            assert(s0.items.dom().contains(name@) && s0.items[name@].len() > 0);
                            assert(crate::validate::def_ok(
                                s0.items[name@][0].def,
                                tags,
                                defs.dom(),
                                npages,
                            ));
                            assert(action_ok(effect@, tags, defs.dom(), npages));
                        }
                        if depth > 0 {
                            let r = self.apply_action(&effect, depth - 1);
                            proof {
                                assert(apply_act(s0, defs, action@, depth as nat) == apply_act(
                                    inter,
                                    defs,
                                    effect@,
                                    (depth - 1) as nat,
                                ));
                            }
                            r
                        } else {
                            None
                        }
                    },
                    None => None,
                }
            },
        }
    }

    /// Runs a list of actions in order; the last destination proposed
    /// anywhere in the list wins.
    fn run_link_actions(&mut self, actions: &Vec<LinkAction>, depth: u64) -> (r: Option<LinkDest>)
        requires
            old(self).wf(),
            actions_ok(
                acts_view(actions@),
                old(self).tags(),
                old(self).defs_map().dom(),
                old(self).npages(),
            ),
        ensures
            final(self).wf(),
            final(self).graph == old(self).graph,
            final(self).item_defs == old(self).item_defs,
            final(self).starting_page == old(self).starting_page,
            final(self).tags() == old(self).tags(),
            final(self)@ == run_acts(
                old(self)@,
                old(self).defs_map(),
                acts_view(actions@),
                depth as nat,
            ).0,
            opt_dest_view(r) == run_acts(
                old(self)@,
                old(self).defs_map(),
                acts_view(actions@),
                depth as nat,
            ).1,
    {
        let ghost defs = old(self).defs_map();
        let ghost av = acts_view(actions@);
        let mut final_dest: Option<LinkDest> = None;
        let mut i: usize = 0;
        proof {
            assert(av.skip(0) =~= av);
        }
        while i < actions.len()
            invariant
                self.wf(),
                self.graph == old(self).graph,
                self.item_defs == old(self).item_defs,
                self.starting_page == old(self).starting_page,
                self.tags() == old(self).tags(),
                defs == old(self).defs_map(),
                av == acts_view(actions@),
                actions_ok(av, old(self).tags(), defs.dom(), old(self).npages()),
                i <= actions@.len(),
                av.len() == actions@.len(),
                ({
                    let (sf, df) = run_acts(old(self)@, defs, av, depth as nat);
                    let (sr, dr) = run_acts(self@, defs, av.skip(i as int), depth as nat);
                    sf == sr && df == (if dr is Some {
                        dr
                    } else {
                        opt_dest_view(final_dest)
                    })
                }),
            decreases actions@.len() - i,
        {
            let ghost sprev = self@;
            let ghost fdprev = final_dest;
            proof {
                assert(av.skip(i as int)[0] == actions@[i as int]@);
                assert(action_ok(actions@[i as int]@, self.tags(), defs.dom(), self.npages()));
            }
            let d = self.apply_action(&actions[i], depth);
            match d {
                Some(dd) => {
                    final_dest = Some(dd);
                },
                None => {},
            }
            i = i + 1;
            proof {
                assert(av.skip(i - 1).drop_first() =~= av.skip(i as int));
                assert(run_acts(sprev, defs, av.skip(i - 1), depth as nat) == {
                    let (s1, d1) = apply_act(sprev, defs, av.skip(i - 1)[0], depth as nat);
                    let (s2, d2) = run_acts(s1, defs, av.skip(i as int), depth as nat);
                    (
                        s2,
                        if d2 is Some {
                            d2
                        } else {
                            d1
                        },
                    )
                });
            }
        }
        proof {
            assert(av.skip(i as int) =~= Seq::<crate::story::LinkActionV>::empty());
        }
        final_dest
    }

    /// Runs each trigger in order against the engine state as it stands at
    /// that moment; a later trigger's proposal overwrites an earlier one.
    fn eval_link_triggers(&mut self, triggers: &Vec<LinkTrigger>, depth: u64) -> (r: Option<
        LinkDest,
    >)
        requires
            old(self).wf(),
            forall|i: int|
                0 <= i < trigs_view(triggers@).len() ==> crate::validate::trigger_ok(
                    #[trigger] trigs_view(triggers@)[i],
                    old(self).tags(),
                    old(self).defs_map().dom(),
                    old(self).npages(),
                ),
        ensures
            final(self).wf(),
            final(self).graph == old(self).graph,
            final(self).item_defs == old(self).item_defs,
            final(self).starting_page == old(self).starting_page,
            final(self).tags() == old(self).tags(),
            final(self)@ == run_triggers(
                old(self)@,
                old(self).defs_map(),
                trigs_view(triggers@),
                depth as nat,
            ).0,
            opt_dest_view(r) == run_triggers(
                old(self)@,
                old(self).defs_map(),
                trigs_view(triggers@),
                depth as nat,
            ).1,
    {
        let ghost defs = old(self).defs_map();
        let ghost tv = trigs_view(triggers@);
        let mut final_dest: Option<LinkDest> = None;
        let mut i: usize = 0;
        proof {
            assert(tv.skip(0) =~= tv);
        }
        while i < triggers.len()
            invariant
                self.wf(),
                self.graph == old(self).graph,
                self.item_defs == old(self).item_defs,
                self.starting_page == old(self).starting_page,
                self.tags() == old(self).tags(),
                defs == old(self).defs_map(),
                tv == trigs_view(triggers@),
                forall|j: int|
                    0 <= j < tv.len() ==> crate::validate::trigger_ok(
                        #[trigger] tv[j],
                        old(self).tags(),
                        defs.dom(),
                        old(self).npages(),
                    ),
                i <= triggers@.len(),
                tv.len() == triggers@.len(),
                ({
                    let (sf, df) = run_triggers(old(self)@, defs, tv, depth as nat);
                    let (sr, dr) = run_triggers(self@, defs, tv.skip(i as int), depth as nat);
                    sf == sr && df == (if dr is Some {
                        dr
                    } else {
                        opt_dest_view(final_dest)
                    })
                }),
            decreases triggers@.len() - i,
        {
            let ghost sprev = self@;
            proof {
                assert(tv.skip(i as int)[0] == triggers@[i as int]@);
                assert(crate::validate::trigger_ok(
                    triggers@[i as int]@,
                    self.tags(),
                    defs.dom(),
                    self.npages(),
                ));
            }
            let fired = self.eval_condition(&triggers[i].condition);
            if fired {
                proof {
                    assert(actions_ok(
                        acts_view(triggers@[i as int].actions@),
                        self.tags(),
                        defs.dom(),
                        self.npages(),
                    ));
                }
                let d = self.run_link_actions(&triggers[i].actions, depth);
                match d {
                    Some(dd) => {
                        final_dest = Some(dd);
                    },
                    None => {},
                }
            }
            i = i + 1;
            proof {
                assert(tv.skip(i - 1).drop_first() =~= tv.skip(i as int));
                assert(run_triggers(sprev, defs, tv.skip(i - 1), depth as nat) == {
                    let (s1, d1) = if cond_holds(tv.skip(i - 1)[0].condition, sprev.vars, sprev.items) {
                        run_acts(sprev, defs, tv.skip(i - 1)[0].actions, depth as nat)
                    } else {
                        (sprev, None)
                    };
                    let (s2, d2) = run_triggers(s1, defs, tv.skip(i as int), depth as nat);
                    (
                        s2,
                        if d2 is Some {
                            d2
                        } else {
                            d1
                        },
                    )
                });
            }
        }
        proof {
            assert(tv.skip(i as int) =~= Seq::<crate::story::LinkTriggerV>::empty());
        }
        final_dest
    }

    /// Applies the effective destination of a traversal.
    fn eval_link_dest(&mut self, link_dest: LinkDest, link_idx: usize) -> (r: Option<String>)
        requires
            old(self).wf(),
            dest_ok(link_dest@, old(self).npages()),
        ensures
            final(self).wf(),
            final(self).graph == old(self).graph,
            final(self).item_defs == old(self).item_defs,
            final(self).starting_page == old(self).starting_page,
            final(self).tags() == old(self).tags(),
            final(self)@ == apply_dest(
                old(self)@,
                link_dest@,
                link_idx as int,
                pages_view(old(self).graph.pages@),
            ).0,
            ({
                let msg = apply_dest(
                    old(self)@,
                    link_dest@,
                    link_idx as int,
                    pages_view(old(self).graph.pages@),
                ).1;
                match r {
                    Some(m) => msg == Some(m@),
                    None => msg is None,
                }
            }),
    {
        let ghost s0 = self@;
        let ghost pv = pages_view(self.graph.pages@);
        match link_dest {
            LinkDest::Page(PageRef::Resolved(i)) => {
                proof {
                    assert(pv[i as int].id == self.graph.pages@[i as int].id@);
                    assert(pv[s0.current].id == self.graph.pages@[s0.current].id@);
                }
                let same = self.graph.pages[i].id == self.graph.pages[self.current_page].id;
                if !same {
                    let entry = HistoryItem::new(self.current_page, Some(link_idx));
                    self.history.push(entry);
                    self.current_page = i;
                    self.current_link_idx = Some(link_idx);
                    proof {
                        assert(self@.history =~= s0.history.push(
                            HistV { page: s0.current, link_idx: Some(link_idx as int) },
                        ));
                        assert(self@ =~= apply_dest(s0, link_dest@, link_idx as int, pv).0);
                    }
                }
                None
            },
            LinkDest::Page(PageRef::Name(_)) => None,
            LinkDest::CurrentPage => None,
            LinkDest::PrevPage => {
                if self.history.len() > 0 {
                    match self.history.pop() {
                        Some(entry) => {
                            proof {
                                assert(s0.history.last() == entry@);
                                assert(0 <= entry@.page < self.npages());
                            }
                            self.current_page = entry.page;
                            self.current_link_idx = entry.link_idx;
                            proof {
                                assert(self@.history =~= s0.history.drop_last());
                                assert(self@ =~= apply_dest(s0, link_dest@, link_idx as int, pv).0);
                            }
                        },
                        None => {
                            // the emptiness check just above rules this out
                            proof {
                                assert(false);
                            }
                        },
                    }
                }
                None
            },
            LinkDest::EndGame(msg) => {
                self.current_link_idx = None;
                proof {
                    assert(self@ =~= apply_dest(s0, link_dest@, link_idx as int, pv).0);
                }
                Some(msg)
            },
        }
    }

    /// Advances the game by selecting the link with the given index on the
    /// current page: runs the link's actions, then its triggers, and applies
    /// the effective destination. Returns the terminal message if the game
    /// ended, else `None` and play continues on the new current page.
    pub fn follow_link(&mut self, link_idx: usize) -> (r: Option<String>)
        requires
            old(self).wf(),
            link_idx < pages_view(old(self).graph.pages@)[old(self)@.current].links.len(),
        ensures
            final(self).wf(),
            final(self).graph == old(self).graph,
            final(self).item_defs == old(self).item_defs,
            final(self).starting_page == old(self).starting_page,
            final(self)@ == follow_link_spec(
                old(self)@,
                old(self).defs_map(),
                pages_view(old(self).graph.pages@),
                link_idx as int,
                EFFECT_DEPTH as nat,
            ).0,
            ({
                let msg = follow_link_spec(
                    old(self)@,
                    old(self).defs_map(),
                    pages_view(old(self).graph.pages@),
                    link_idx as int,
                    EFFECT_DEPTH as nat,
                ).1;
                match r {
                    Some(m) => msg == Some(m@),
                    None => msg is None,
                }
            }),
    {
        let ghost s0 = self@;
        let ghost defs = self.defs_map();
        let ghost tags = self.tags();
        let ghost pv = pages_view(self.graph.pages@);
        let ghost lv = pv[s0.current].links[link_idx as int];
        let page = &self.graph.pages[self.current_page];
        let link = &page.links[link_idx];
        proof {
            assert(pv[s0.current] == page@);
            assert(page@.links[link_idx as int] == link@);
            assert(crate::validate::page_ok(pv[s0.current], tags, defs.dom(), self.npages()));
            assert(crate::validate::link_ok(lv, tags, defs.dom(), self.npages()));
        }
        let dest = clone_link_dest(&link.dest);
        let actions = clone_actions(&link.actions);
        let triggers = clone_triggers(&link.triggers);
        proof {
            assert(acts_view(actions@) == lv.actions);
            assert(trigs_view(triggers@) == lv.triggers);
            assert(dest@ == lv.dest);
            crate::semantics::lemma_run_acts(
                s0,
                defs,
                tags,
                self.npages(),
                lv.actions,
                EFFECT_DEPTH as nat,
            );
        }
        let d1 = self.run_link_actions(&actions, EFFECT_DEPTH);
        proof {
            crate::semantics::lemma_run_triggers(
                self@,
                defs,
                tags,
                self.npages(),
                lv.triggers,
                EFFECT_DEPTH as nat,
            );
        }
        let d2 = self.eval_link_triggers(&triggers, EFFECT_DEPTH);
        let eff = match d2 {
            Some(d) => d,
            None => match d1 {
                Some(d) => d,
                None => dest,
            },
        };
        proof {
            assert(eff@ == crate::semantics::resolve_link(s0, defs, lv, EFFECT_DEPTH as nat).1);
            assert(self@ == crate::semantics::resolve_link(s0, defs, lv, EFFECT_DEPTH as nat).0);
            assert(dest_ok(eff@, self.npages()));
        }
        self.eval_link_dest(eff, link_idx)
    }
}

} // verus!

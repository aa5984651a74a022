//! The player's item holdings: for each item name an ordered stack of owned
//! instances, oldest first. Acquiring appends at the back, dropping removes
//! the front, and using affects the front instance.

use vstd::prelude::*;

use crate::item::{Item, ItemDef, ItemDefV, ItemV};
use crate::kvmap::{
    keys_unique, lemma_map_of_absent, lemma_map_of_index, lemma_map_of_push, lemma_map_of_remove,
    lemma_map_of_update, map_of,
};
use crate::story::{LinkAction, LinkActionV};
use crate::utils::clamp_int;

verus! {

/// The stack of instances held under one item name.
#[derive(Debug)]
pub struct ItemStack {
    pub name: String,
    pub insts: Vec<Item>,
}

/// All stacks of held items, one per item name.
#[derive(Debug)]
pub struct Inventory {
    stacks: Vec<ItemStack>,
}

/// The mathematical form of a stack of instances.
pub open spec fn items_view(s: Seq<Item>) -> Seq<ItemV> {
    s.map_values(|it: Item| it@)
}

/// The key/value pairs denoted by a sequence of stacks.
pub open spec fn stacks_kv(s: Seq<ItemStack>) -> Seq<(Seq<char>, Seq<ItemV>)> {
    s.map_values(|st: ItemStack| (st.name@, items_view(st.insts@)))
}

impl View for Inventory {
    type V = Map<Seq<char>, Seq<ItemV>>;

    closed spec fn view(&self) -> Map<Seq<char>, Seq<ItemV>> {
        map_of(stacks_kv(self.stacks@))
    }
}

/// Every held stack is non-empty and every instance's counter is in range.
pub open spec fn holdings_wf(m: Map<Seq<char>, Seq<ItemV>>) -> bool {
    forall|k: Seq<char>|
        #[trigger] m.dom().contains(k) ==> m[k].len() > 0 && forall|i: int|
            0 <= i < m[k].len() ==> (#[trigger] m[k][i]).wf()
}

/// Acquiring one instance of a template: a fresh instance is appended at the
/// back of the name's stack; if the previous back instance carries wear, as
/// much of it as the new instance's maximum allows is transferred onto the
/// new instance and subtracted from the previous one.
pub open spec fn acquire_spec(
    m: Map<Seq<char>, Seq<ItemV>>,
    def: ItemDefV,
) -> Map<Seq<char>, Seq<ItemV>> {
    let k = def.name;
    let fresh = ItemV { def, used: 0 };
    if m.dom().contains(k) && m[k].len() > 0 {
        let stack = m[k];
        let prev = stack.last();
        let moved = clamp_int(prev.used, 0, def.eff_max());
        let prev2 = ItemV { def: prev.def, used: prev.used - moved };
        let newit = ItemV { def, used: moved };
        m.insert(k, stack.update(stack.len() - 1, prev2).push(newit))
    } else {
        m.insert(k, seq![fresh])
    }
}

/// Dropping the oldest instance of a name: the front instance is removed,
/// and the stack entry disappears when it empties; a no-op if the item is
/// not held.
pub open spec fn drop_front_spec(
    m: Map<Seq<char>, Seq<ItemV>>,
    k: Seq<char>,
) -> Map<Seq<char>, Seq<ItemV>> {
    if m.dom().contains(k) {
        if m[k].len() <= 1 {
            m.remove(k)
        } else {
            m.insert(k, m[k].drop_first())
        }
    } else {
        m
    }
}

/// Using the oldest instance of a name: a no-op if the item is not held or
/// the front instance is at its effective maximum. Otherwise the counter
/// increments; if that reaches a declared maximum the instance is removed
/// from the front (and the stack entry with it if now empty), and in either
/// case the instance's effect is handed back to be fired.
pub open spec fn use_front_spec(m: Map<Seq<char>, Seq<ItemV>>, k: Seq<char>) -> (
    Map<Seq<char>, Seq<ItemV>>,
    Option<LinkActionV>,
) {
    if m.dom().contains(k) && m[k].len() > 0 {
        let it = m[k][0];
        if it.used >= it.def.eff_max() {
            (m, None)
        } else {
            let it2 = ItemV { def: it.def, used: it.used + 1 };
            let depleted = match it.def.max_uses {
                Some(mx) => it2.used == mx,
                None => false,
            };
            let m2 = if depleted {
                if m[k].len() == 1 {
                    m.remove(k)
                } else {
                    m.insert(k, m[k].drop_first())
                }
            } else {
                m.insert(k, m[k].update(0, it2))
            };
            (m2, Some(it.def.effect))
        }
    } else {
        (m, None)
    }
}

impl Inventory {
    /// No two stacks share a name.
    pub closed spec fn names_unique(&self) -> bool {
        keys_unique(stacks_kv(self.stacks@))
    }

    /// The representation invariant: unique names, non-empty stacks,
    /// counters in range.
    pub open spec fn wf(&self) -> bool {
        self.names_unique() && holdings_wf(self@)
    }

    /// Builds an empty inventory.
    pub fn new() -> (r: Inventory)
        ensures
            r@ == Map::<Seq<char>, Seq<ItemV>>::empty(),
            r.wf(),
    {
        let r = Inventory { stacks: Vec::new() };
        proof {
            assert(stacks_kv(r.stacks@) =~= Seq::<(Seq<char>, Seq<ItemV>)>::empty());
        }
        r
    }

    /// The index of the stack for a name, if the item is held.
    fn find(&self, name: &String) -> (r: Option<usize>)
        requires
            self.names_unique(),
        ensures
            match r {
                Some(j) => {
                    &&& j < self.stacks@.len()
                    &&& self.stacks@[j as int].name@ == name@
                    &&& self@.dom().contains(name@)
                    &&& self@[name@] == items_view(self.stacks@[j as int].insts@)
                },
                None => !self@.dom().contains(name@),
            },
    {
        let mut j: usize = 0;
        while j < self.stacks.len()
            invariant
                self.names_unique(),
                j <= self.stacks@.len(),
                forall|x: int| 0 <= x < j ==> (#[trigger] self.stacks@[x]).name@ != name@,
            decreases self.stacks@.len() - j,
        {
            if self.stacks[j].name == *name {
                proof {
                    let kv = stacks_kv(self.stacks@);
                    let st = self.stacks@[j as int];
                    assert(kv[j as int] == (st.name@, items_view(st.insts@)));
                    lemma_map_of_index(kv, j as int);
                }
                return Some(j);
            }
            j = j + 1;
        }
        proof {
            lemma_map_of_absent(stacks_kv(self.stacks@), name@);
        }
        None
    }

    /// Whether the player holds at least one instance of the named item.
    pub fn has(&self, name: &String) -> (r: bool)
        requires
            self.names_unique(),
        ensures
            r == self@.dom().contains(name@),
    {
        match self.find(name) {
            Some(_) => true,
            None => false,
        }
    }

    /// How many instances of the named item are held.
    pub fn count(&self, name: &String) -> (n: usize)
        requires
            self.names_unique(),
        ensures
            self@.dom().contains(name@) ==> n == self@[name@].len(),
            !self@.dom().contains(name@) ==> n == 0,
    {
        match self.find(name) {
            Some(j) => self.stacks[j].insts.len(),
            None => 0,
        }
    }

    /// The instance at a position of the named stack, front first.
    pub fn get_instance(&self, name: &String, i: usize) -> (r: Option<&Item>)
        requires
            self.names_unique(),
        ensures
            match r {
                Some(it) => {
                    &&& self@.dom().contains(name@)
                    &&& i < self@[name@].len()
                    &&& it@ == self@[name@][i as int]
                },
                None => !self@.dom().contains(name@) || i >= self@[name@].len(),
            },
    {
        match self.find(name) {
            Some(j) => {
                let st = &self.stacks[j];
                if i < st.insts.len() {
                    Some(&st.insts[i])
                } else {
                    None
                }
            },
            None => None,
        }
    }

    /// Acquires one fresh instance of a template, transferring wear from the
    /// previous back instance as the template's maximum allows.
    pub fn acquire(&mut self, def: &ItemDef)
        requires
            old(self).wf(),
            def@.eff_max() >= 0,
        ensures
            final(self).wf(),
            final(self)@ == acquire_spec(old(self)@, def@),
    {
        let ghost kv = stacks_kv(self.stacks@);
        let ghost m0 = self@;
        let mut newit = Item::new(def);
        match self.find(&def.name) {
            Some(j) => {
                proof {
                    lemma_map_of_index(kv, j as int);
                }
                let mut st = self.stacks.remove(j);
                let ghost old_items = items_view(st.insts@);
                if st.insts.len() > 0 {
                    let mut prev = match st.insts.pop() {
                        Some(p) => p,
                        None => {
                            // the emptiness check just above rules this out
                            proof {
                                assert(false);
                            }
                            Item::new(def)
                        },
                    };
                    proof {
                        assert(old_items[old_items.len() - 1] == prev@);
                        assert(prev@.wf());
                    }
                    let prev_used = prev.used();
                    let moved = newit.mod_uses(prev_used);
                    let _ = prev.mod_uses(0 - moved);
                    proof {
                        assert(prev@.used == old_items.last().used - moved);
                    }
                    st.insts.push(prev);
                    st.insts.push(newit);
                    proof {
                        let target = m0[def.name@].update(
                            m0[def.name@].len() - 1,
                            acquire_spec(m0, def@)[def.name@][m0[def.name@].len() - 1],
                        );
                        assert(items_view(st.insts@) =~= acquire_spec(m0, def@)[def.name@]);
                    }
                } else {
                    st.insts.push(newit);
                    proof {
                        assert(items_view(st.insts@) =~= acquire_spec(m0, def@)[def.name@]);
                    }
                }
                let ghost stv = items_view(st.insts@);
                self.stacks.insert(j, st);
                proof {
                    assert(self.stacks@ =~= old(self).stacks@.update(j as int, st));
                    assert(stacks_kv(self.stacks@) =~= kv.update(j as int, (kv[j as int].0, stv)));
                    lemma_map_of_update(kv, j as int, stv);
                    assert(final(self)@ =~= acquire_spec(m0, def@));
                }
            },
            None => {
                let mut insts: Vec<Item> = Vec::new();
                insts.push(newit);
                let st = ItemStack { name: def.name.clone(), insts };
                let ghost stv = items_view(st.insts@);
                self.stacks.push(st);
                proof {
                    assert(stv =~= seq![ItemV { def: def@, used: 0 }]);
                    assert(stacks_kv(self.stacks@) =~= kv.push((def.name@, stv)));
                    lemma_map_of_push(kv, def.name@, stv);
                    assert forall|x: int| 0 <= x < kv.len() implies (#[trigger] kv[x]).0
                        != def.name@ by {
                        lemma_map_of_index(kv, x);
                    }
                    let kv2 = stacks_kv(self.stacks@);
                    assert forall|x: int, y: int| 0 <= x < y < kv2.len() implies (
                    #[trigger] kv2[x]).0 != (#[trigger] kv2[y]).0 by {
                        if y == kv2.len() - 1 {
                            assert(kv[x].0 != def.name@);
                        } else {
                            assert(kv[x].0 != kv[y].0);
                        }
                    }
                    assert(final(self)@ =~= acquire_spec(m0, def@));
                }
            },
        }
    }

    /// Removes the front (oldest) instance of the named stack; removes the
    /// stack entirely if it becomes empty; a no-op if the item is not held.
    pub fn drop_front(&mut self, name: &String)
        requires
            old(self).wf(),
        ensures
            final(self).wf(),
            final(self)@ == drop_front_spec(old(self)@, name@),
    {
        let ghost kv = stacks_kv(self.stacks@);
        let ghost m0 = self@;
        match self.find(name) {
            Some(j) => {
                proof {
                    lemma_map_of_index(kv, j as int);
                }
                let mut st = self.stacks.remove(j);
                if st.insts.len() <= 1 {
                    proof {
                        assert(self.stacks@ =~= old(self).stacks@.remove(j as int));
                        assert(stacks_kv(self.stacks@) =~= kv.remove(j as int));
                        lemma_map_of_remove(kv, j as int);
                        assert(final(self)@ =~= drop_front_spec(m0, name@));
                    }
                } else {
                    let _ = st.insts.remove(0);
                    proof {
                        assert(items_view(st.insts@) =~= m0[name@].drop_first());
                    }
                    let ghost stv = items_view(st.insts@);
                    self.stacks.insert(j, st);
                    proof {
                        assert(self.stacks@ =~= old(self).stacks@.update(j as int, st));
                        assert(stacks_kv(self.stacks@) =~= kv.update(
                            j as int,
                            (kv[j as int].0, stv),
                        ));
                        lemma_map_of_update(kv, j as int, stv);
                        assert(final(self)@ =~= drop_front_spec(m0, name@));
                    }
                }
            },
            None => {},
        }
    }

    /// Attempts one use of the front instance of the named stack, removing a
    /// depleted instance, and returns the effect to fire if the use
    /// succeeded.
    pub fn use_front(&mut self, name: &String) -> (r: Option<LinkAction>)
        requires
            old(self).wf(),
        ensures
            final(self).wf(),
            final(self)@ == use_front_spec(old(self)@, name@).0,
            match r {
                Some(a) => use_front_spec(old(self)@, name@).1 == Some(a@),
                None => use_front_spec(old(self)@, name@).1 is None,
            },
    {
        let ghost kv = stacks_kv(self.stacks@);
        let ghost m0 = self@;
        match self.find(name) {
            Some(j) => {
                proof {
                    lemma_map_of_index(kv, j as int);
                }
                let mut st = self.stacks.remove(j);
                let mut front = st.insts.remove(0);
                proof {
                    assert(m0[name@][0] == front@);
                    assert(front@.wf());
                }
                let used = front.use_once();
                match used {
                    None => {
                        st.insts.insert(0, front);
                        let ghost stv = items_view(st.insts@);
                        self.stacks.insert(j, st);
                        proof {
                            assert(stv =~= m0[name@]);
                            assert(self.stacks@ =~= old(self).stacks@.update(j as int, st));
                            assert(stacks_kv(self.stacks@) =~= kv.update(
                                j as int,
                                (kv[j as int].0, stv),
                            ));
                            lemma_map_of_update(kv, j as int, stv);
                            assert(final(self)@ =~= m0);
                        }
                        None
                    },
                    Some(effect) => {
                        let depleted = match front.max_uses() {
                            Some(m) => front.used() == m,
                            None => false,
                        };
                        if depleted {
                            if st.insts.len() == 0 {
                                proof {
                                    assert(m0[name@].len() == 1);
                                    assert(self.stacks@ =~= old(self).stacks@.remove(j as int));
                                    assert(stacks_kv(self.stacks@) =~= kv.remove(j as int));
                                    lemma_map_of_remove(kv, j as int);
                                    assert(final(self)@ =~= use_front_spec(m0, name@).0);
                                }
                            } else {
                                proof {
                                    assert(items_view(st.insts@) =~= m0[name@].drop_first());
                                }
                                let ghost stv = items_view(st.insts@);
                                self.stacks.insert(j, st);
                                proof {
                                    assert(self.stacks@ =~= old(self).stacks@.update(j as int, st));
                                    assert(stacks_kv(self.stacks@) =~= kv.update(
                                        j as int,
                                        (kv[j as int].0, stv),
                                    ));
                                    lemma_map_of_update(kv, j as int, stv);
                                    assert(final(self)@ =~= use_front_spec(m0, name@).0);
                                }
                            }
                        } else {
                            st.insts.insert(0, front);
                            proof {
                                assert(items_view(st.insts@) =~= m0[name@].update(0, front@));
                            }
                            let ghost stv = items_view(st.insts@);
                            self.stacks.insert(j, st);
                            proof {
                                assert(self.stacks@ =~= old(self).stacks@.update(j as int, st));
                                assert(stacks_kv(self.stacks@) =~= kv.update(
                                    j as int,
                                    (kv[j as int].0, stv),
                                ));
                                lemma_map_of_update(kv, j as int, stv);
                                assert(final(self)@ =~= use_front_spec(m0, name@).0);
                            }
                        }
                        Some(effect)
                    },
                }
            },
            None => None,
        }
    }
}

} // verus!

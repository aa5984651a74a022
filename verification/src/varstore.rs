//! The variable store: a typed name/value mapping shared by the loader
//! (type declarations) and the engine (type-checked mutation).

use vstd::prelude::*;

use crate::kvmap::{
    keys_unique, lemma_map_of_absent, lemma_map_of_index, lemma_map_of_push, lemma_map_of_update,
    map_of,
};
use crate::utils::clamp_int;
use crate::variable::{clone_variable, ValueV, VarType, Variable};

verus! {

/// One declared variable: its name and its current value.
#[derive(Debug)]
pub struct VarEntry {
    pub name: String,
    pub value: Variable,
}

/// A typed key/value mapping from variable names to current values.
#[derive(Debug)]
pub struct VarStore {
    entries: Vec<VarEntry>,
}

/// The key/value pairs denoted by a sequence of entries.
pub open spec fn entries_kv(s: Seq<VarEntry>) -> Seq<(Seq<char>, ValueV)> {
    s.map_values(|e: VarEntry| (e.name@, e.value@))
}

impl View for VarStore {
    type V = Map<Seq<char>, ValueV>;

    closed spec fn view(&self) -> Map<Seq<char>, ValueV> {
        map_of(entries_kv(self.entries@))
    }
}

/// Writing a literal value: only an existing variable is written.
pub open spec fn set_var_spec(
    vars: Map<Seq<char>, ValueV>,
    name: Seq<char>,
    value: ValueV,
) -> Map<Seq<char>, ValueV> {
    if vars.dom().contains(name) {
        vars.insert(name, value)
    } else {
        vars
    }
}

/// Adding a delta to an integer variable, clamped into the representable
/// range; anything else is left unchanged.
pub open spec fn mod_num_spec(
    vars: Map<Seq<char>, ValueV>,
    name: Seq<char>,
    delta: int,
) -> Map<Seq<char>, ValueV> {
    if vars.dom().contains(name) {
        match vars[name] {
            ValueV::Num(x) => vars.insert(
                name,
                ValueV::Num(clamp_int(x + delta, i32::MIN as int, i32::MAX as int)),
            ),
            _ => vars,
        }
    } else {
        vars
    }
}

/// Flipping a boolean variable; anything else is left unchanged.
pub open spec fn toggle_bool_spec(
    vars: Map<Seq<char>, ValueV>,
    name: Seq<char>,
) -> Map<Seq<char>, ValueV> {
    if vars.dom().contains(name) {
        match vars[name] {
            ValueV::Bool(b) => vars.insert(name, ValueV::Bool(!b)),
            _ => vars,
        }
    } else {
        vars
    }
}

impl VarStore {
    /// No two entries share a name.
    pub closed spec fn wf(&self) -> bool {
        keys_unique(entries_kv(self.entries@))
    }

    /// Builds an empty store.
    pub fn new() -> (r: VarStore)
        ensures
            r@ == Map::<Seq<char>, ValueV>::empty(),
            r.wf(),
    {
        let r = VarStore { entries: Vec::new() };
        proof {
            assert(entries_kv(r.entries@) =~= Seq::<(Seq<char>, ValueV)>::empty());
        }
        r
    }

    /// How many variables are declared.
    pub fn len(&self) -> (n: usize)
        requires
            self.wf(),
        ensures
            n == self@.dom().len(),
    {
        proof {
            self.lemma_dom_len();
        }
        self.entries.len()
    }

    /// On unique keys the map has exactly one binding per entry.
    proof fn lemma_dom_len(&self)
        requires
            self.wf(),
        ensures
            self@.dom().len() == self.entries@.len(),
            self@.dom().finite(),
    {
        Self::lemma_kv_dom_len(entries_kv(self.entries@));
    }

    proof fn lemma_kv_dom_len(s: Seq<(Seq<char>, ValueV)>)
        requires
            keys_unique(s),
        ensures
            map_of(s).dom().len() == s.len(),
            map_of(s).dom().finite(),
        decreases s.len(),
    {
        if s.len() == 0 {
            assert(map_of(s).dom() =~= Set::<Seq<char>>::empty());
        } else {
            let dl = s.drop_last();
            assert(keys_unique(dl)) by {
                assert forall|i: int, j: int| 0 <= i < j < dl.len() implies (#[trigger] dl[i]).0
                    != (#[trigger] dl[j]).0 by {
                    assert(s[i].0 != s[j].0);
                }
            }
            Self::lemma_kv_dom_len(dl);
            assert forall|j: int| 0 <= j < dl.len() implies (#[trigger] dl[j]).0 != s.last().0 by {
                assert(s[j].0 != s[s.len() - 1].0);
            }
            lemma_map_of_absent(dl, s.last().0);
            assert(map_of(s).dom() =~= map_of(dl).dom().insert(s.last().0));
        }
    }

    /// The entry at an index, for iterating the store.
    pub fn entry_at(&self, i: usize) -> (e: &VarEntry)
        requires
            self.wf(),
            i < self@.dom().len(),
        ensures
            self@.dom().contains(e.name@),
            self@[e.name@] == e.value@,
    {
        proof {
            self.lemma_dom_len();
            lemma_map_of_index(entries_kv(self.entries@), i as int);
        }
        &self.entries[i]
    }

    /// The index of the entry for a name, if the name is declared.
    fn find(&self, name: &String) -> (r: Option<usize>)
        requires
            self.wf(),
        ensures
            match r {
                Some(i) => {
                    &&& i < self.entries@.len()
                    &&& self.entries@[i as int].name@ == name@
                    &&& self@.dom().contains(name@)
                    &&& self@[name@] == self.entries@[i as int].value@
                },
                None => !self@.dom().contains(name@),
            },
    {
        let mut i: usize = 0;
        while i < self.entries.len()
            invariant
                self.wf(),
                i <= self.entries@.len(),
                forall|j: int| 0 <= j < i ==> (#[trigger] self.entries@[j]).name@ != name@,
            decreases self.entries@.len() - i,
        {
            if self.entries[i].name == *name {
                proof {
                    let kv = entries_kv(self.entries@);
                    let e = self.entries@[i as int];
                    assert(kv[i as int] == (e.name@, e.value@));
                    lemma_map_of_index(kv, i as int);
                }
                return Some(i);
            }
            i = i + 1;
        }
        proof {
            lemma_map_of_absent(entries_kv(self.entries@), name@);
        }
        None
    }

    /// The current value of a variable, or `None` if it is not declared.
    pub fn get(&self, name: &String) -> (r: Option<&Variable>)
        requires
            self.wf(),
        ensures
            match r {
                Some(v) => self@.dom().contains(name@) && self@[name@] == v@,
                None => !self@.dom().contains(name@),
            },
    {
        match self.find(name) {
            Some(i) => Some(&self.entries[i].value),
            None => None,
        }
    }

    /// Declares a variable, or overwrites the value of an already declared
    /// one.
    pub fn insert(&mut self, name: String, value: Variable)
        requires
            old(self).wf(),
        ensures
            final(self).wf(),
            final(self)@ == old(self)@.insert(name@, value@),
    {
        let ghost kv = entries_kv(self.entries@);
        let ghost n = name@;
        let ghost vv = value@;
        match self.find(&name) {
            Some(i) => {
                proof {
                    lemma_map_of_update(kv, i as int, vv);
                }
                self.entries.set(i, VarEntry { name, value });
                proof {
                    assert(entries_kv(self.entries@) =~= kv.update(i as int, (n, vv)));
                    assert(kv.update(i as int, (n, vv)) =~= kv.update(
                        i as int,
                        (kv[i as int].0, vv),
                    ));
                }
            },
            None => {
                proof {
                    lemma_map_of_push(kv, n, vv);
                    assert forall|x: int| 0 <= x < kv.len() implies (#[trigger] kv[x]).0 != n by {
                        lemma_map_of_index(kv, x);
                    }
                }
                self.entries.push(VarEntry { name, value });
                proof {
                    let kv2 = entries_kv(self.entries@);
                    assert(kv2 =~= kv.push((n, vv)));
                    assert forall|x: int, y: int| 0 <= x < y < kv2.len() implies (
                    #[trigger] kv2[x]).0 != (#[trigger] kv2[y]).0 by {
                        if y == kv2.len() - 1 {
                            assert(kv[x].0 != n);
                        } else {
                            assert(kv[x].0 != kv[y].0);
                        }
                    }
                }
            },
        }
    }

    /// Writes a literal value if the variable is declared; a write to an
    /// undeclared name is a no-op.
    pub fn set_existing(&mut self, name: &String, value: Variable)
        requires
            old(self).wf(),
        ensures
            final(self).wf(),
            final(self)@ == set_var_spec(old(self)@, name@, value@),
    {
        let ghost kv = entries_kv(self.entries@);
        match self.find(name) {
            Some(i) => {
                proof {
                    lemma_map_of_update(kv, i as int, value@);
                }
                self.entries.set(i, VarEntry { name: name.clone(), value });
                proof {
                    assert(entries_kv(self.entries@) =~= kv.update(
                        i as int,
                        (kv[i as int].0, value@),
                    ));
                }
            },
            None => {},
        }
    }

    /// Adds a delta to an integer variable, clamped into the representable
    /// range, never wrapping; anything else is a no-op.
    pub fn mod_num(&mut self, name: &String, delta: i32)
        requires
            old(self).wf(),
        ensures
            final(self).wf(),
            final(self)@ == mod_num_spec(old(self)@, name@, delta as int),
    {
        let current: Option<i32> = match self.get(name) {
            Some(Variable::Num(x)) => Some(*x),
            _ => None,
        };
        match current {
            Some(x) => {
                let updated = crate::utils::clamp_to_i32(x as i64 + delta as i64);
                self.set_existing(name, Variable::Num(updated));
            },
            None => {},
        }
    }

    /// Flips a boolean variable; anything else is a no-op.
    pub fn toggle_bool(&mut self, name: &String)
        requires
            old(self).wf(),
        ensures
            final(self).wf(),
            final(self)@ == toggle_bool_spec(old(self)@, name@),
    {
        let current: Option<bool> = match self.get(name) {
            Some(Variable::Bool(b)) => Some(*b),
            _ => None,
        };
        match current {
            Some(b) => {
                self.set_existing(name, Variable::Bool(!b));
            },
            None => {},
        }
    }

    /// Copies the store; the copy denotes the same mapping.
    pub fn duplicate(&self) -> (r: VarStore)
        requires
            self.wf(),
        ensures
            r.wf(),
            r@ == self@,
    {
        let mut entries: Vec<VarEntry> = Vec::new();
        let mut i: usize = 0;
        while i < self.entries.len()
            invariant
                i <= self.entries@.len(),
                entries@.len() == i,
                forall|j: int| 0 <= j < i ==> {
                    &&& (#[trigger] entries@[j]).name@ == self.entries@[j].name@
                    &&& entries@[j].value@ == self.entries@[j].value@
                },
            decreases self.entries@.len() - i,
        {
            let e = &self.entries[i];
            entries.push(VarEntry { name: e.name.clone(), value: clone_variable(&e.value) });
            i = i + 1;
        }
        let r = VarStore { entries };
        proof {
            assert(entries_kv(r.entries@) =~= entries_kv(self.entries@));
        }
        r
    }
}

/// The tag of each variable in a store; mutation during play preserves it.
pub open spec fn tags_of(vars: Map<Seq<char>, ValueV>) -> Map<Seq<char>, VarType> {
    vars.map_values(|v: ValueV| v.typ())
}

} // verus!

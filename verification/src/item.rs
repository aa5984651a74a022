//! The item model: immutable item templates, and owned item instances with
//! usage counters.

use vstd::prelude::*;

use crate::story::{clone_action, LinkAction, LinkActionV};
use crate::utils::clamp_int;

verus! {

/// The smallest maximum-use count a template may declare.
pub const ITEM_MIN_USES: i32 = 1;

/// The largest maximum-use count a template may declare.
pub const ITEM_MAX_USES: i32 = 32767;

/// An item template: name, optional description, optional maximum-use count
/// (absent means unlimited), and the effect fired by each successful use.
#[derive(Debug)]
pub struct ItemDef {
    pub name: String,
    pub description: Option<String>,
    pub max_uses: Option<i32>,
    pub effect: LinkAction,
}

/// The mathematical form of an [`ItemDef`].
pub struct ItemDefV {
    pub name: Seq<char>,
    pub description: Option<Seq<char>>,
    pub max_uses: Option<int>,
    pub effect: LinkActionV,
}

impl View for ItemDef {
    type V = ItemDefV;

    open spec fn view(&self) -> ItemDefV {
        ItemDefV {
            name: self.name@,
            description: match self.description {
                Some(ref d) => Some(d@),
                None => None,
            },
            max_uses: match self.max_uses {
                Some(m) => Some(m as int),
                None => None,
            },
            effect: self.effect@,
        }
    }
}

impl ItemDefV {
    /// The effective maximum-use count: the declared maximum, or the largest
    /// representable count for an unlimited template.
    pub open spec fn eff_max(self) -> int {
        match self.max_uses {
            Some(m) => m,
            None => i32::MAX as int,
        }
    }
}

/// One owned, stateful instance of a template, with its own usage counter.
#[derive(Debug)]
pub struct Item {
    def: ItemDef,
    used: i32,
}

/// The mathematical form of an [`Item`].
pub struct ItemV {
    pub def: ItemDefV,
    pub used: int,
}

impl View for Item {
    type V = ItemV;

    closed spec fn view(&self) -> ItemV {
        ItemV { def: self.def@, used: self.used as int }
    }
}

impl ItemV {
    /// An instance's counter stays between zero and its effective maximum.
    pub open spec fn wf(self) -> bool {
        0 <= self.used <= self.def.eff_max()
    }
}

/// Copies a template; the copy's mathematical form equals the original's.
pub fn clone_item_def(d: &ItemDef) -> (c: ItemDef)
    ensures
        c@ == d@,
{
    ItemDef {
        name: d.name.clone(),
        description: match &d.description {
            Some(s) => Some(s.clone()),
            None => None,
        },
        max_uses: d.max_uses,
        effect: clone_action(&d.effect),
    }
}

/// Copies an instance; the copy's mathematical form equals the original's.
pub fn clone_item(it: &Item) -> (c: Item)
    ensures
        c@ == it@,
{
    Item { def: clone_item_def(&it.def), used: it.used }
}

impl Item {
    /// Builds a fresh, unused instance of a template.
    pub fn new(def: &ItemDef) -> (it: Item)
        ensures
            it@.def == def@,
            it@.used == 0,
    {
        Item { def: clone_item_def(def), used: 0 }
    }

    /// The template's name.
    pub fn name(&self) -> (r: &str)
        ensures
            r@ == self@.def.name,
    {
        self.def.name.as_str()
    }

    /// The template's description, if any.
    pub fn description(&self) -> (r: Option<&String>)
        ensures
            match r {
                Some(d) => self@.def.description == Some(d@),
                None => self@.def.description is None,
            },
    {
        match &self.def.description {
            Some(d) => Some(d),
            None => None,
        }
    }

    /// The template's declared maximum-use count, if any.
    pub fn max_uses(&self) -> (r: Option<i32>)
        ensures
            self@.def.max_uses == match r {
                Some(m) => Some(m as int),
                None => None::<int>,
            },
    {
        self.def.max_uses
    }

    /// The effect fired by a successful use of this instance.
    pub fn effect(&self) -> (r: &LinkAction)
        ensures
            r@ == self@.def.effect,
    {
        &self.def.effect
    }

    /// How often this instance has been used.
    pub fn used(&self) -> (r: i32)
        ensures
            r as int == self@.used,
    {
        self.used
    }

    /// How many uses are left, or `None` for an unlimited instance.
    pub fn uses_left(&self) -> (r: Option<i32>)
        requires
            self@.wf(),
        ensures
            match r {
                Some(left) => self@.def.max_uses == Some(left + self@.used),
                None => self@.def.max_uses is None,
            },
    {
        match self.def.max_uses {
            Some(m) => Some(m - self.used),
            None => None,
        }
    }

    /// Adds `n` to the usage counter, clamped into `[0, effective maximum]`,
    /// and returns the difference actually applied.
    pub fn mod_uses(&mut self, n: i32) -> (diff: i32)
        requires
            old(self)@.wf(),
        ensures
            final(self)@.def == old(self)@.def,
            final(self)@.used == clamp_int(
                old(self)@.used + n,
                0,
                old(self)@.def.eff_max(),
            ),
            final(self)@.wf(),
            diff as int == final(self)@.used - old(self)@.used,
    {
        let max: i32 = match self.def.max_uses {
            Some(m) => m,
            None => i32::MAX,
        };
        let sum: i64 = self.used as i64 + n as i64;
        let used: i32 = if sum < 0 {
            0
        } else if sum > max as i64 {
            max
        } else {
            sum as i32
        };
        let diff = used - self.used;
        self.used = used;
        diff
    }

    /// Attempts to register one use. Returns a copy of the effect to fire if
    /// the use succeeded, or `None` if the instance was already at its
    /// effective maximum.
    pub fn use_once(&mut self) -> (r: Option<LinkAction>)
        requires
            old(self)@.wf(),
        ensures
            final(self)@.def == old(self)@.def,
            final(self)@.wf(),
            old(self)@.used == old(self)@.def.eff_max() ==> {
                &&& r is None
                &&& final(self)@.used == old(self)@.used
            },
            old(self)@.used < old(self)@.def.eff_max() ==> {
                &&& r matches Some(a) && a@ == old(self)@.def.effect
                &&& final(self)@.used == old(self)@.used + 1
            },
    {
        match self.mod_uses(1) {
            0 => None,
            _ => Some(clone_action(&self.def.effect)),
        }
    }
}

} // verus!

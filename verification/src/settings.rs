//! Declared settings of a story: title, directories, the authoritative set
//! of page IDs, initial variable declarations and item templates. The
//! surrounding application parses the settings file and hands the library
//! plain values; the template validation lives here.

use vstd::prelude::*;

use crate::errors::{Error, ErrorV};
use crate::game::defs_kv;
use crate::item::{clone_item_def, ItemDef, ItemDefV, ITEM_MAX_USES, ITEM_MIN_USES};
use crate::kvmap::keys_unique;
use crate::story::PageID;
use crate::varstore::VarStore;

verus! {

broadcast use vstd::std_specs::vec::group_vec_axioms;

/// Logging preferences declared in the settings; consumed by the
/// application's logging layer, opaque to the engine.
#[derive(Debug)]
pub struct LoggingSettings {
    pub base_file_name: Option<String>,
    pub file_ext: Option<String>,
    pub level: Option<String>,
}

/// The declared settings of a story.
#[derive(Debug)]
pub struct Settings {
    source: Option<String>,
    title: String,
    base_dir: String,
    entrypoint: String,
    pages: Vec<PageID>,
    variables: VarStore,
    items: Vec<ItemDef>,
    logger: LoggingSettings,
}

impl Settings {
    /// The declared page IDs.
    pub closed spec fn pages_dec(&self) -> Seq<Seq<char>> {
        self.pages@.map_values(|p: PageID| p@)
    }

    /// The initial variable declarations.
    pub closed spec fn vars_store(&self) -> VarStore {
        self.variables
    }

    /// The declared item templates.
    pub closed spec fn defs_seq(&self) -> Seq<ItemDef> {
        self.items@
    }

    /// The path of the entry file.
    pub closed spec fn entry_path(&self) -> Seq<char> {
        self.entrypoint@
    }

    /// The path the settings were read from, if any.
    pub closed spec fn source_path(&self) -> Option<Seq<char>> {
        match self.source {
            Some(ref p) => Some(p@),
            None => None,
        }
    }

    /// The story's title.
    pub closed spec fn title_text(&self) -> Seq<char> {
        self.title@
    }

    /// The directory holding the story files.
    pub closed spec fn base_dir_path(&self) -> Seq<char> {
        self.base_dir@
    }

    /// The declared logging preferences.
    pub closed spec fn logging(&self) -> LoggingSettings {
        self.logger
    }

    /// The settings' own invariant: a well-formed variable store and
    /// uniquely named templates.
    pub open spec fn wf(&self) -> bool {
        self.vars_store().wf() && keys_unique(defs_kv(self.defs_seq()))
    }

    /// Assembles settings from validated parts.
    pub fn new(
        source: Option<String>,
        title: String,
        base_dir: String,
        entrypoint: String,
        pages: Vec<PageID>,
        variables: VarStore,
        items: Vec<ItemDef>,
        logger: LoggingSettings,
    ) -> (s: Settings)
        requires
            variables.wf(),
            keys_unique(defs_kv(items@)),
        ensures
            s.wf(),
            s.pages_dec() == pages@.map_values(|p: PageID| p@),
            s.vars_store() == variables,
            s.defs_seq() == items@,
            s.entry_path() == entrypoint@,
    {
        Settings { source, title, base_dir, entrypoint, pages, variables, items, logger }
    }

    /// The path the settings were read from, if any.
    pub fn source(&self) -> (r: &Option<String>)
        ensures
            match r {
                Some(p) => self.source_path() == Some(p@),
                None => self.source_path() is None,
            },
    {
        &self.source
    }

    /// The story's title.
    pub fn title(&self) -> (r: &str)
        ensures
            r@ == self.title_text(),
    {
        self.title.as_str()
    }

    /// The directory holding the story files.
    pub fn base_dir(&self) -> (r: &str)
        ensures
            r@ == self.base_dir_path(),
    {
        self.base_dir.as_str()
    }

    /// The path of the entry file.
    pub fn entrypoint(&self) -> (r: &str)
        ensures
            r@ == self.entry_path(),
    {
        self.entrypoint.as_str()
    }

    /// The authoritative list of valid page IDs.
    pub fn pages(&self) -> (r: &Vec<PageID>)
        ensures
            r@.map_values(|p: PageID| p@) == self.pages_dec(),
    {
        &self.pages
    }

    /// The initial variable declarations.
    pub fn variables(&self) -> (r: &VarStore)
        ensures
            r == &self.vars_store(),
    {
        &self.variables
    }

    /// The declared item templates.
    pub fn items(&self) -> (r: &Vec<ItemDef>)
        ensures
            r@ == self.defs_seq(),
    {
        &self.items
    }

    /// The declared logging preferences.
    pub fn logger(&self) -> (r: &LoggingSettings)
        ensures
            *r == self.logging(),
    {
        &self.logger
    }
}

/// Validation of one raw template under its map key: a declared maximum-use
/// count must be in range, the template must not name itself (its name
/// comes from the key it is declared under).
pub open spec fn raw_def_check(name: Seq<char>, d: ItemDefV) -> Option<ErrorV> {
    if (match d.max_uses {
        Some(m) => !(ITEM_MIN_USES <= m <= ITEM_MAX_USES),
        None => false,
    }) {
        Some(ErrorV::Expected("an item max_uses between 1 and 32767"@))
    } else if d.name.len() != 0 {
        Some(ErrorV::Unexpected("field 'name' in an item definition"@))
    } else {
        None
    }
}

/// The templates denoted by a raw name/template list; later entries for one
/// name shadow earlier ones, and each template takes the name it is
/// declared under. `Err` carries the first failure in declaration order.
pub open spec fn build_defs_spec(raw: Seq<(Seq<char>, ItemDefV)>) -> Result<
    Seq<(Seq<char>, ItemDefV)>,
    ErrorV,
>
    decreases raw.len(),
{
    if raw.len() == 0 {
        Ok(Seq::empty())
    } else {
        match build_defs_spec(raw.drop_last()) {
            Err(e) => Err(e),
            Ok(acc) => match raw_def_check(raw.last().0, raw.last().1) {
                Some(e) => Err(e),
                None => {
                    let named = ItemDefV { name: raw.last().0, ..raw.last().1 };
                    Ok(
                        if exists|j: int| 0 <= j < acc.len() && (#[trigger] acc[j]).0
                            == raw.last().0 {
                            let j = choose|j: int|
                                0 <= j < acc.len() && (#[trigger] acc[j]).0 == raw.last().0;
                            acc.update(j, (raw.last().0, named))
                        } else {
                            acc.push((raw.last().0, named))
                        },
                    )
                },
            },
        }
    }
}


/// Once a prefix of the raw list fails, the whole list fails the same way.
proof fn lemma_build_defs_err(raw: Seq<(Seq<char>, ItemDefV)>, k: int)
    requires
        0 <= k <= raw.len(),
        build_defs_spec(raw.take(k)) is Err,
    ensures
        build_defs_spec(raw) == build_defs_spec(raw.take(k)),
    decreases raw.len() - k,
{
    if k < raw.len() {
        assert(raw.take(k + 1).drop_last() =~= raw.take(k));
        lemma_build_defs_err(raw, k + 1);
    } else {
        assert(raw.take(k) =~= raw);
    }
}

/// Validates raw item templates as declared in the settings: each declared
/// maximum-use count is in range, each template takes the name of the key
/// it is declared under, and a later entry for one name shadows an earlier
/// one.
pub fn validate_item_defs(raw: &Vec<(String, ItemDef)>) -> (r: Result<Vec<ItemDef>, Error>)
    ensures
        match r {
            Ok(defs) => {
                &&& build_defs_spec(raw_kv(raw@)) matches Ok(acc) && defs_kv(defs@) == acc
                &&& keys_unique(defs_kv(defs@))
                &&& forall|j: int|
                    0 <= j < defs@.len() ==> (#[trigger] defs@[j])@.name == defs@[j].name@
            },
            Err(e) => build_defs_spec(raw_kv(raw@)) matches Err(ev) && e@ == ev,
        },
{
    let mut defs: Vec<ItemDef> = Vec::new();
    let mut i: usize = 0;
    proof {
        assert(raw_kv(raw@).take(0) =~= Seq::<(Seq<char>, ItemDefV)>::empty());
        assert(defs_kv(defs@) =~= Seq::<(Seq<char>, ItemDefV)>::empty());
    }
    while i < raw.len()
        invariant
            i <= raw@.len(),
            build_defs_spec(raw_kv(raw@).take(i as int)) matches Ok(acc) && acc == defs_kv(
                defs@,
            ),
            keys_unique(defs_kv(defs@)),
            forall|j: int|
                0 <= j < defs@.len() ==> (#[trigger] defs@[j])@.name == defs@[j].name@,
        decreases raw@.len() - i,
    {
        let ghost acc0 = defs_kv(defs@);
        let ghost old_defs = defs@;
        let (name, def) = &raw[i];
        let ok_range = match def.max_uses {
            Some(m) => ITEM_MIN_USES <= m && m <= ITEM_MAX_USES,
            None => true,
        };
        if !ok_range {
            proof {
                assert(raw_kv(raw@).take(i + 1).drop_last() =~= raw_kv(raw@).take(i as int));
                assert(raw_kv(raw@).take(i + 1).last() == raw_kv(raw@)[i as int]);
                lemma_build_defs_err(raw_kv(raw@), i + 1);
            }
            return Err(Error::expected("an item max_uses between 1 and 32767"));
        }
        if !def.name.as_str().is_empty() {
            proof {
                assert(raw_kv(raw@).take(i + 1).drop_last() =~= raw_kv(raw@).take(i as int));
                assert(raw_kv(raw@).take(i + 1).last() == raw_kv(raw@)[i as int]);
                lemma_build_defs_err(raw_kv(raw@), i + 1);
            }
            return Err(Error::unexpected("field 'name' in an item definition"));
        }
        let mut named = clone_item_def(def);
        named.name = name.clone();
        let mut j: usize = 0;
        let mut found: Option<usize> = None;
        while j < defs.len() && found.is_none()
            invariant
                j <= defs@.len(),
                match found {
                    Some(fj) => fj < defs@.len() && defs@[fj as int].name@ == name@,
                    None => forall|x: int| 0 <= x < j ==> (#[trigger] defs@[x]).name@ != name@,
                },
            decreases
                    defs@.len() - j,
                    (if found is Some {
                        0int
                    } else {
                        1int
                    }),
        {
            if defs[j].name == *name {
                found = Some(j);
            } else {
                j = j + 1;
            }
        }
        match found {
            Some(fj) => {
                defs.set(fj, named);
                proof {
                    assert(defs_kv(defs@) =~= acc0.update(fj as int, (name@, defs@[fj as int]@)));
                    assert forall|x: int, y: int|
                        0 <= x < y < defs_kv(defs@).len() implies (#[trigger] defs_kv(defs@)[x]).0
                        != (#[trigger] defs_kv(defs@)[y]).0 by {
                        assert(acc0[x].0 != acc0[y].0);
                    }
                }
            },
            None => {
                defs.push(named);
                proof {
                    assert(defs_kv(defs@) =~= acc0.push((name@, defs@[defs@.len() - 1]@)));
                    assert forall|x: int, y: int|
                        0 <= x < y < defs_kv(defs@).len() implies (#[trigger] defs_kv(defs@)[x]).0
                        != (#[trigger] defs_kv(defs@)[y]).0 by {
                        if y == defs_kv(defs@).len() - 1 {
                            assert(acc0[x].0 != name@);
                        } else {
                            assert(acc0[x].0 != acc0[y].0);
                        }
                    }
                }
            },
        }
        i = i + 1;
        proof {
            assert(raw_kv(raw@).take(i as int).drop_last() =~= raw_kv(raw@).take(i - 1));
            assert(raw_kv(raw@).take(i as int).last() == raw_kv(raw@)[i - 1]);
            let prev = build_defs_spec(raw_kv(raw@).take(i - 1));
            assert(prev matches Ok(acc) && acc == acc0);
            assert(raw_def_check(raw_kv(raw@)[i - 1].0, raw_kv(raw@)[i - 1].1) is None);
            match found {
                Some(fj) => {
                    assert(acc0[fj as int].0 == name@);
                    assert(exists|x: int| 0 <= x < acc0.len() && (#[trigger] acc0[x]).0 == name@);
                    let cj = choose|x: int| 0 <= x < acc0.len() && (#[trigger] acc0[x]).0 == name@;
                    assert(cj == fj as int) by {
                        if cj < fj as int {
                            assert(acc0[cj].0 != acc0[fj as int].0);
                        }
                        if cj > fj as int {
                            assert(acc0[fj as int].0 != acc0[cj].0);
                        }
                    }
                },
                None => {
                    assert forall|x: int| 0 <= x < acc0.len() implies (#[trigger] acc0[x]).0
                        != name@ by {
                        assert(acc0[x].0 == old_defs[x].name@);
                    }
                },
            }
        }
    }
    proof {
        assert(raw_kv(raw@).take(i as int) =~= raw_kv(raw@));
    }
    Ok(defs)
}

/// The key/value pairs denoted by a raw name/template list.
pub open spec fn raw_kv(s: Seq<(String, ItemDef)>) -> Seq<(Seq<char>, ItemDefV)> {
    s.map_values(|e: (String, ItemDef)| (e.0@, e.1@))
}

} // verus!

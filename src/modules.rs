//! Module records, the alias-able name map, and the registry of modules.
use std::collections::HashMap;
use vstd::prelude::*;

verus! {

broadcast use vstd::std_specs::hash::group_hash_axioms;

/// Identity of a compiled module, as the engine reports it. 0 names no module.
pub type ModuleId = i32;

/// A module specifier: a path-like string naming a module.
pub struct ModuleSpecifier(String);

impl View for ModuleSpecifier {
    type V = Seq<char>;

    closed spec fn view(&self) -> Seq<char> {
        self.0@
    }
}

impl ModuleSpecifier {
    pub fn new(path: String) -> (r: Self)
        ensures
            r@ == path@,
    {
        ModuleSpecifier(path)
    }

    pub fn as_str(&self) -> (r: &str)
        ensures
            r@ == self@,
    {
        self.0.as_str()
    }
}

/// Source text of a module, with the specifier it was asked for under and the
/// one it was found under.
pub struct ModuleSource {
    pub code: String,
    pub module_url_specified: String,
    pub module_url_found: String,
}

/// What a name in the name map stands for.
pub enum SymbolicModule {
    /// Another name, under which the module is known.
    Alias(String),
    /// A registered module.
    Mod(ModuleId),
}

/// The mathematical value of a [`SymbolicModule`].
pub enum NameTarget {
    Alias(Seq<char>),
    Mod(ModuleId),
}

impl View for SymbolicModule {
    type V = NameTarget;

    open spec fn view(&self) -> NameTarget {
        match self {
            SymbolicModule::Alias(t) => NameTarget::Alias(t@),
            SymbolicModule::Mod(id) => NameTarget::Mod(*id),
        }
    }
}

/// Follows the alias chain from `name` with at most `fuel` lookups.
pub open spec fn follow_chain(m: Map<Seq<char>, NameTarget>, name: Seq<char>, fuel: nat) -> Option<ModuleId>
    decreases fuel,
{
    if fuel == 0 || !m.contains_key(name) {
        None
    } else {
        match m[name] {
            NameTarget::Mod(id) => Some(id),
            NameTarget::Alias(t) => follow_chain(m, t, (fuel - 1) as nat),
        }
    }
}

/// The module id that `name` leads to in `m`. A chain that visits every entry
/// without reaching a module goes round a cycle, and leads nowhere.
pub open spec fn resolve_name(m: Map<Seq<char>, NameTarget>, name: Seq<char>) -> Option<ModuleId> {
    follow_chain(m, name, m.len())
}

/// Map from module names to modules, where a name may be an alias of another.
pub struct ModuleNameMap {
    inner: Vec<(String, SymbolicModule)>,
    ghost_map: Ghost<Map<Seq<char>, NameTarget>>,
}

impl View for ModuleNameMap {
    type V = Map<Seq<char>, NameTarget>;

    closed spec fn view(&self) -> Map<Seq<char>, NameTarget> {
        self.ghost_map@
    }
}

impl ModuleNameMap {
    /// Each name is stored once, and the stored entries are exactly the view.
    pub closed spec fn wf(&self) -> bool {
        &&& forall|i: int, j: int|
            0 <= i < j < self.inner@.len() ==> self.inner@[i].0@ != self.inner@[j].0@
        &&& forall|i: int|
            0 <= i < self.inner@.len() ==> #[trigger] self.ghost_map@.contains_key(self.inner@[i].0@)
                && self.ghost_map@[self.inner@[i].0@] == self.inner@[i].1@
        &&& forall|k: Seq<char>|
            #[trigger] self.ghost_map@.contains_key(k) ==> exists|i: int|
                0 <= i < self.inner@.len() && self.inner@[i].0@ == k
        &&& self.ghost_map@.dom().finite()
        &&& self.ghost_map@.len() == self.inner@.len()
    }

    pub fn new() -> (r: Self)
        ensures
            r.wf(),
            r@ == Map::<Seq<char>, NameTarget>::empty(),
    {
        ModuleNameMap { inner: Vec::new(), ghost_map: Ghost(Map::empty()) }
    }

    /// Index of the entry stored under `name`.
    fn position(&self, name: &String) -> (r: Option<usize>)
        requires
            self.wf(),
        ensures
            match r {
                Some(i) => i < self.inner@.len() && self.inner@[i as int].0@ == name@,
                None => !self@.contains_key(name@),
            },
    {
        let mut i: usize = 0;
        while i < self.inner.len()
            invariant
                self.wf(),
                i <= self.inner@.len(),
                forall|j: int| 0 <= j < i ==> self.inner@[j].0@ != name@,
            decreases self.inner@.len() - i,
        {
            if self.inner[i].0 == *name {
                return Some(i);
            }
            i = i + 1;
        }
        None
    }

    /// The id of the module `name` leads to, following aliases.
    pub fn get(&self, name: &str) -> (r: Option<ModuleId>)
        requires
            self.wf(),
        ensures
            r == resolve_name(self@, name@),
    {
        let mut cur = name.to_owned();
        let mut fuel: usize = self.inner.len();
        while fuel > 0
            invariant
                self.wf(),
                fuel <= self@.len(),
                follow_chain(self@, cur@, fuel as nat) == resolve_name(self@, name@),
            decreases fuel,
        {
            match self.position(&cur) {
                None => {
                    return None;
                },
                Some(i) => {
                    proof {
                        assert(self@[cur@] == self.inner@[i as int].1@);
                    }
                    match &self.inner[i].1 {
                        SymbolicModule::Mod(id) => {
                            return Some(*id);
                        },
                        SymbolicModule::Alias(target) => {
                            cur = target.clone();
                            fuel = fuel - 1;
                        },
                    }
                },
            }
        }
        None
    }

    /// Stores `target` under `name`, in place of what was there.
    fn put(&mut self, name: String, target: SymbolicModule)
        requires
            old(self).wf(),
        ensures
            final(self).wf(),
            final(self)@ == old(self)@.insert(name@, target@),
    {
        let ghost key = name@;
        let ghost val = target@;
        match self.position(&name) {
            Some(i) => {
                self.inner.set(i, (name, target));
                proof {
                    self.ghost_map@ = self.ghost_map@.insert(key, val);
                    assert(old(self)@.contains_key(key));
                    assert(self.ghost_map@.dom() =~= old(self)@.dom());
                    assert forall|k: Seq<char>| #[trigger] self.ghost_map@.contains_key(k) implies exists|j: int|
                        0 <= j < self.inner@.len() && self.inner@[j].0@ == k by {
                        if k != key {
                            let j = choose|j: int| 0 <= j < old(self).inner@.len() && old(self).inner@[j].0@ == k;
                            assert(self.inner@[j].0@ == k);
                        } else {
                            assert(self.inner@[i as int].0@ == k);
                        }
                    }
                }
            },
            None => {
                self.inner.push((name, target));
                proof {
                    self.ghost_map@ = self.ghost_map@.insert(key, val);
                    let n = old(self).inner@.len() as int;
                    assert(self.inner@[n].0@ == key);
                    assert forall|k: Seq<char>| #[trigger] self.ghost_map@.contains_key(k) implies exists|j: int|
                        0 <= j < self.inner@.len() && self.inner@[j].0@ == k by {
                        if k != key {
                            let j = choose|j: int| 0 <= j < old(self).inner@.len() && old(self).inner@[j].0@ == k;
                            assert(self.inner@[j].0@ == k);
                        } else {
                            assert(self.inner@[n].0@ == k);
                        }
                    }
                    assert forall|a: int, b: int| 0 <= a < b < self.inner@.len() implies self.inner@[a].0@
                        != self.inner@[b].0@ by {
                        if b == n {
                            assert(old(self)@.contains_key(self.inner@[a].0@));
                        }
                    }
                }
            },
        }
    }

    /// Records `name` as the name of module `id`.
    pub fn insert(&mut self, name: String, id: ModuleId)
        requires
            old(self).wf(),
        ensures
            final(self).wf(),
            final(self)@ == old(self)@.insert(name@, NameTarget::Mod(id)),
            final(self)@.dom().finite(),
    {
        self.put(name, SymbolicModule::Mod(id));
    }

    /// Records `name` as an alias of `target`.
    pub fn alias(&mut self, name: String, target: String)
        requires
            old(self).wf(),
        ensures
            final(self).wf(),
            final(self)@ == old(self)@.insert(name@, NameTarget::Alias(target@)),
            final(self)@.dom().finite(),
    {
        self.put(name, SymbolicModule::Alias(target));
    }

    /// The map has finitely many names.
    pub proof fn lemma_finite(&self)
        requires
            self.wf(),
        ensures
            self@.dom().finite(),
    {
    }

    /// Whether `name` is stored, as a module or as an alias.
    pub fn contains(&self, name: &str) -> (r: bool)
        requires
            self.wf(),
        ensures
            r == self@.contains_key(name@),
    {
        let key = name.to_owned();
        self.position(&key).is_some()
    }

    /// What `name` stands for, if it is stored.
    pub fn target_of(&self, name: &str) -> (r: Option<SymbolicModule>)
        requires
            self.wf(),
        ensures
            match r {
                Some(t) => self@.contains_key(name@) && self@[name@] == t@,
                None => !self@.contains_key(name@),
            },
    {
        let key = name.to_owned();
        match self.position(&key) {
            Some(i) => {
                proof {
                    assert(self.ghost_map@.contains_key(self.inner@[i as int].0@));
                }
                match &self.inner[i].1 {
                    SymbolicModule::Alias(t) => Some(SymbolicModule::Alias(t.clone())),
                    SymbolicModule::Mod(id) => Some(SymbolicModule::Mod(*id)),
                }
            },
            None => None,
        }
    }

    /// Whether some name stands for module `id` directly.
    pub fn has_target(&self, id: ModuleId) -> (r: bool)
        requires
            self.wf(),
        ensures
            r == exists|k: Seq<char>| #[trigger] self@.contains_key(k) && self@[k] == NameTarget::Mod(id),
    {
        let mut i: usize = 0;
        while i < self.inner.len()
            invariant
                self.wf(),
                i <= self.inner@.len(),
                forall|j: int| 0 <= j < i ==> self.inner@[j].1@ != NameTarget::Mod(id),
            decreases self.inner@.len() - i,
        {
            let hit = match &self.inner[i].1 {
                SymbolicModule::Mod(m) => *m == id,
                SymbolicModule::Alias(_) => false,
            };
            if hit {
                proof {
                    let k = self.inner@[i as int].0@;
                    assert(self.ghost_map@.contains_key(k));
                }
                return true;
            }
            i = i + 1;
        }
        proof {
            assert forall|k: Seq<char>| #[trigger] self@.contains_key(k) implies self@[k] != NameTarget::Mod(id) by {
                let j = choose|j: int| 0 <= j < self.inner@.len() && self.inner@[j].0@ == k;
                assert(self.ghost_map@.contains_key(self.inner@[j].0@));
            }
        }
        false
    }

    /// Forgets `name`, whatever it stood for.
    pub fn remove(&mut self, name: &str)
        requires
            old(self).wf(),
        ensures
            final(self).wf(),
            final(self)@ == old(self)@.remove(name@),
    {
        let key = name.to_owned();
        match self.position(&key) {
            Some(i) => {
                let _ = self.inner.remove(i);
                proof {
                    let old_inner = old(self).inner@;
                    self.ghost_map@ = self.ghost_map@.remove(name@);
                    assert(old(self)@.contains_key(name@));
                    assert forall|a: int, b: int| 0 <= a < b < self.inner@.len() implies self.inner@[a].0@
                        != self.inner@[b].0@ by {
                        let a2 = if a < i { a } else { a + 1 };
                        let b2 = if b < i { b } else { b + 1 };
                        assert(self.inner@[a] == old_inner[a2]);
                        assert(self.inner@[b] == old_inner[b2]);
                    }
                    assert forall|j: int| 0 <= j < self.inner@.len() implies #[trigger] self.ghost_map@.contains_key(
                        self.inner@[j].0@) && self.ghost_map@[self.inner@[j].0@] == self.inner@[j].1@ by {
                        let j2 = if j < i { j } else { j + 1 };
                        assert(self.inner@[j] == old_inner[j2]);
                        assert(old(self).ghost_map@.contains_key(old_inner[j2].0@));
                        assert(old_inner[j2].0@ != name@);
                    }
                    assert forall|k: Seq<char>| #[trigger] self.ghost_map@.contains_key(k) implies exists|j: int|
                        0 <= j < self.inner@.len() && self.inner@[j].0@ == k by {
                        let j = choose|j: int| 0 <= j < old_inner.len() && old_inner[j].0@ == k;
                        assert(j != i);
                        let j2 = if j < i { j } else { j - 1 };
                        assert(self.inner@[j2] == old_inner[j]);
                    }
                }
            },
            None => {
                proof {
                    assert(old(self)@.remove(name@) =~= old(self)@);
                }
            },
        }
    }

    /// Whether `name` is stored as an alias.
    pub fn is_alias(&self, name: &str) -> (r: bool)
        requires
            self.wf(),
        ensures
            r == (self@.contains_key(name@) && self@[name@] is Alias),
    {
        let key = name.to_owned();
        match self.position(&key) {
            Some(i) => {
                proof {
                    assert(self.ghost_map@.contains_key(self.inner@[i as int].0@));
                }
                match &self.inner[i].1 {
                    SymbolicModule::Alias(_) => true,
                    SymbolicModule::Mod(_) => false,
                }
            },
            None => false,
        }
    }
}

/// Lifecycle of a module record. It only moves forward: compiled, then
/// instantiated, then evaluated or errored.
#[derive(PartialEq, Eq, Structural, Clone, Copy, Debug)]
pub enum ModuleStatus {
    Compiled,
    Instantiated,
    Evaluated,
    Errored,
}

/// Whether a record may move from status `from` to status `to`.
pub open spec fn status_step(from: ModuleStatus, to: ModuleStatus) -> bool {
    match from {
        ModuleStatus::Compiled => to == ModuleStatus::Instantiated || to == ModuleStatus::Errored,
        ModuleStatus::Instantiated => to == ModuleStatus::Evaluated || to == ModuleStatus::Errored,
        _ => false,
    }
}

/// One compiled module: its name, whether it is the entry of its load, the
/// engine's handle to it, the specifiers it imports, and its status.
pub struct ModuleInfo<H> {
    pub main: bool,
    pub name: String,
    pub handle: H,
    pub import_specifiers: Vec<ModuleSpecifier>,
    pub status: ModuleStatus,
}

/// The modules of one runtime, by id and by name.
pub struct Modules<H> {
    info: HashMap<ModuleId, ModuleInfo<H>>,
    by_name: ModuleNameMap,
}

impl<H> Modules<H> {
    /// The records, by id.
    pub closed spec fn records(&self) -> Map<ModuleId, ModuleInfo<H>> {
        self.info@
    }

    /// The names, each leading to a module or to another name.
    pub closed spec fn names(&self) -> Map<Seq<char>, NameTarget> {
        self.by_name@
    }

    /// The name map is well formed, no record has id 0, and every name that
    /// stands for a module directly stands for a recorded one.
    pub closed spec fn wf(&self) -> bool {
        &&& self.by_name.wf()
        &&& !self.info@.contains_key(0)
        &&& forall|k: Seq<char>|
            #[trigger] self.by_name@.contains_key(k) && self.by_name@[k] is Mod ==> self.info@.contains_key(
                self.by_name@[k]->Mod_0,
            )
    }

    /// The registry has finitely many names.
    pub proof fn lemma_names_finite(&self)
        requires
            self.wf(),
        ensures
            self.names().dom().finite(),
    {
    }

    /// A name that leads to a module leads to a recorded one.
    pub proof fn lemma_resolved_name_is_recorded(&self, name: Seq<char>)
        requires
            self.wf(),
        ensures
            resolve_name(self.names(), name) matches Some(id) ==> self.records().contains_key(id),
    {
        lemma_chain_ends_at_module(self.names(), name, self.names().len());
    }

    /// A name that stands for a module directly stands for a recorded one.
    pub proof fn lemma_named_module_is_recorded(&self, name: Seq<char>)
        requires
            self.wf(),
            self.names().contains_key(name),
            self.names()[name] is Mod,
        ensures
            self.records().contains_key(self.names()[name]->Mod_0),
    {
    }

    /// What a stored name stands for is an alias, or a recorded module.
    pub proof fn lemma_named_module_is_recorded_or_alias(&self, name: Seq<char>)
        requires
            self.wf(),
            self.names().contains_key(name),
        ensures
            self.names()[name] matches NameTarget::Mod(x) ==> self.records().contains_key(x),
    {
    }

    /// Whether `name` is stored, as a module or as an alias.
    pub fn has_name(&self, name: &str) -> (r: bool)
        requires
            self.wf(),
        ensures
            r == self.names().contains_key(name@),
    {
        self.by_name.contains(name)
    }

    /// What `name` stands for, if it is stored.
    pub fn name_target(&self, name: &str) -> (r: Option<SymbolicModule>)
        requires
            self.wf(),
        ensures
            match r {
                Some(t) => self.names().contains_key(name@) && self.names()[name@] == t@,
                None => !self.names().contains_key(name@),
            },
    {
        self.by_name.target_of(name)
    }

    /// Makes `name` stand for the recorded module `id`.
    pub fn name_module(&mut self, name: &str, id: ModuleId)
        requires
            old(self).wf(),
            old(self).records().contains_key(id),
        ensures
            final(self).wf(),
            final(self).names() == old(self).names().insert(name@, NameTarget::Mod(id)),
            final(self).records() == old(self).records(),
    {
        self.by_name.insert(name.to_owned(), id);
    }

    /// Whether some name stands for module `id` directly.
    pub fn is_named(&self, id: ModuleId) -> (r: bool)
        requires
            self.wf(),
        ensures
            r == exists|k: Seq<char>| #[trigger] self.names().contains_key(k) && self.names()[k] == NameTarget::Mod(id),
    {
        self.by_name.has_target(id)
    }

    pub fn new() -> (r: Self)
        ensures
            r.wf(),
            r.records() == Map::<ModuleId, ModuleInfo<H>>::empty(),
            r.names() == Map::<Seq<char>, NameTarget>::empty(),
    {
        Modules { info: HashMap::new(), by_name: ModuleNameMap::new() }
    }

    /// The id of the module that `name` leads to.
    pub fn get_id(&self, name: &str) -> (r: Option<ModuleId>)
        requires
            self.wf(),
        ensures
            r == resolve_name(self.names(), name@),
    {
        self.by_name.get(name)
    }

    /// The import specifiers of module `id`.
    pub fn get_children(&self, id: ModuleId) -> (r: Option<&Vec<ModuleSpecifier>>)
        ensures
            match r {
                Some(c) => self.records().contains_key(id) && *c == self.records()[id].import_specifiers,
                None => !self.records().contains_key(id),
            },
    {
        match self.info.get(&id) {
            Some(i) => Some(&i.import_specifiers),
            None => None,
        }
    }

    /// The name module `id` was registered under.
    pub fn get_name(&self, id: ModuleId) -> (r: Option<&String>)
        ensures
            match r {
                Some(n) => self.records().contains_key(id) && *n == self.records()[id].name,
                None => !self.records().contains_key(id),
            },
    {
        match self.info.get(&id) {
            Some(i) => Some(&i.name),
            None => None,
        }
    }

    /// Whether `specifier` leads to a registered module.
    pub fn is_registered(&self, specifier: &ModuleSpecifier) -> (r: bool)
        requires
            self.wf(),
        ensures
            r == resolve_name(self.names(), specifier@) is Some,
    {
        self.by_name.get(specifier.as_str()).is_some()
    }

    /// Registers a freshly compiled module under `name`, with status compiled.
    pub fn register(
        &mut self,
        id: ModuleId,
        name: &str,
        main: bool,
        handle: H,
        import_specifiers: Vec<ModuleSpecifier>,
    )
        requires
            old(self).wf(),
            id != 0,
        ensures
            final(self).wf(),
            final(self).names() == old(self).names().insert(name@, NameTarget::Mod(id)),
            final(self).records().dom() == old(self).records().dom().insert(id),
            forall|k: ModuleId| k != id && #[trigger] old(self).records().contains_key(k)
                ==> final(self).records()[k] == old(self).records()[k],
            final(self).records()[id].main == main,
            final(self).records()[id].name@ == name@,
            final(self).records()[id].handle == handle,
            final(self).records()[id].import_specifiers == import_specifiers,
            final(self).records()[id].status == ModuleStatus::Compiled,
    {
        let owned = name.to_owned();
        self.by_name.insert(owned.clone(), id);
        let record = ModuleInfo {
            main,
            name: owned,
            handle,
            import_specifiers,
            status: ModuleStatus::Compiled,
        };
        self.info.insert(id, record);
    }

    /// Records `name` as an alias of `target`.
    pub fn alias(&mut self, name: &str, target: &str)
        requires
            old(self).wf(),
        ensures
            final(self).wf(),
            final(self).names() == old(self).names().insert(name@, NameTarget::Alias(target@)),
            final(self).records() == old(self).records(),
    {
        self.by_name.alias(name.to_owned(), target.to_owned());
    }

    /// Forgets the name `name`.
    pub fn remove_name(&mut self, name: &str)
        requires
            old(self).wf(),
        ensures
            final(self).wf(),
            final(self).names() == old(self).names().remove(name@),
            final(self).records() == old(self).records(),
    {
        self.by_name.remove(name);
    }

    /// Forgets the record of module `id`, which no name stands for.
    pub fn remove_record(&mut self, id: ModuleId)
        requires
            old(self).wf(),
            forall|k: Seq<char>| #[trigger] old(self).names().contains_key(k) ==> old(self).names()[k] != NameTarget::Mod(id),
        ensures
            final(self).wf(),
            final(self).names() == old(self).names(),
            final(self).records() == old(self).records().remove(id),
    {
        let _ = self.info.remove(&id);
        proof {
            assert forall|k: Seq<char>| #[trigger] self.by_name@.contains_key(k) && self.by_name@[k] is Mod
                implies self.info@.contains_key(self.by_name@[k]->Mod_0) by {
                assert(old(self).names()[k] != NameTarget::Mod(id));
                assert(old(self).info@.contains_key(self.by_name@[k]->Mod_0));
            }
        }
    }

    /// Whether `name` is stored as an alias.
    pub fn is_alias(&self, name: &str) -> (r: bool)
        requires
            self.wf(),
        ensures
            r == (self.names().contains_key(name@) && self.names()[name@] is Alias),
    {
        self.by_name.is_alias(name)
    }

    /// The record of module `id`; id 0 names no module.
    pub fn get_info(&self, id: ModuleId) -> (r: Option<&ModuleInfo<H>>)
        requires
            self.wf(),
        ensures
            match r {
                Some(i) => self.records().contains_key(id) && *i == self.records()[id],
                None => !self.records().contains_key(id),
            },
    {
        if id == 0 {
            return None;
        }
        self.info.get(&id)
    }

    /// Moves module `id` to status `to` when that is a step forward from its
    /// current status; returns whether it moved.
    pub fn advance_status(&mut self, id: ModuleId, to: ModuleStatus) -> (r: bool)
        requires
            old(self).wf(),
        ensures
            final(self).wf(),
            final(self).names() == old(self).names(),
            final(self).records().dom() == old(self).records().dom(),
            r == (old(self).records().contains_key(id) && status_step(old(self).records()[id].status, to)),
            r ==> final(self).records() == old(self).records().insert(id, ModuleInfo {
                status: to,
                ..old(self).records()[id]
            }),
            !r ==> final(self).records() == old(self).records(),
    {
        match self.info.remove(&id) {
            Some(mut record) => {
                let ok = match record.status {
                    ModuleStatus::Compiled => to == ModuleStatus::Instantiated || to
                        == ModuleStatus::Errored,
                    ModuleStatus::Instantiated => to == ModuleStatus::Evaluated || to
                        == ModuleStatus::Errored,
                    _ => false,
                };
                if ok {
                    record.status = to;
                }
                self.info.insert(id, record);
                proof {
                    if !ok {
                        assert(final(self).records() =~= old(self).records());
                    } else {
                        assert(final(self).records() =~= old(self).records().insert(id, ModuleInfo {
                            status: to,
                            ..old(self).records()[id]
                        }));
                    }
                    assert(final(self).records().dom() =~= old(self).records().dom());
                }
                ok
            },
            None => false,
        }
    }
}

/// Alias convergence: when `alias` is stored as an alias of `canonical` and
/// `canonical` names module `id`, both names lead to `id`, so a request for
/// either finds the same module record.
pub proof fn lemma_alias_converges<H>(m: Modules<H>, alias: Seq<char>, canonical: Seq<char>, id: ModuleId)
    requires
        m.wf(),
        alias != canonical,
        m.names().contains_key(alias),
        m.names()[alias] == NameTarget::Alias(canonical),
        m.names().contains_key(canonical),
        m.names()[canonical] == NameTarget::Mod(id),
    ensures
        resolve_name(m.names(), alias) == Some(id),
        resolve_name(m.names(), canonical) == Some(id),
{
    let names = m.names();
    assert(names.dom().finite());
    assert(names.dom().remove(alias).contains(canonical));
    assert(names.dom().remove(alias).len() >= 1) by {
        if names.dom().remove(alias).len() == 0 {
            assert(names.dom().remove(alias) =~= Set::<Seq<char>>::empty());
        }
    }
    assert(names.len() >= 2);
    assert(follow_chain(names, canonical, (names.len() - 1) as nat) == Some(id));
}

/// A chain that leads to a module ends at a name standing for it directly.
pub proof fn lemma_chain_ends_at_module(m: Map<Seq<char>, NameTarget>, name: Seq<char>, fuel: nat)
    ensures
        follow_chain(m, name, fuel) matches Some(id) ==> exists|k: Seq<char>|
            #[trigger] m.contains_key(k) && m[k] == NameTarget::Mod(id),
    decreases fuel,
{
    if fuel > 0 && m.contains_key(name) {
        match m[name] {
            NameTarget::Mod(id) => {
                assert(m.contains_key(name) && m[name] == NameTarget::Mod(id));
            },
            NameTarget::Alias(t) => {
                lemma_chain_ends_at_module(m, t, (fuel - 1) as nat);
            },
        }
    }
}

/// In a finite map, a name stored for module `id` leads to `id`: after
/// `insert(name, id)`, `get(name)` gives `id`.
pub proof fn lemma_module_name_resolves(m: Map<Seq<char>, NameTarget>, name: Seq<char>, id: ModuleId)
    requires
        m.dom().finite(),
        m.contains_key(name),
        m[name] == NameTarget::Mod(id),
    ensures
        resolve_name(m, name) == Some(id),
{
    assert(m.dom().contains(name));
    assert(m.len() >= 1) by {
        if m.len() == 0 {
            assert(m.dom() =~= Set::<Seq<char>>::empty());
        }
    }
}

/// A module registered under `name` is what `name` leads to: once a load
/// compiled a module, every later request that resolves to its path finds it,
/// so a module shared by several importers, or reached again round a cycle,
/// is compiled once.
pub proof fn lemma_registered_name_leads_to_module<H>(m: Modules<H>, name: Seq<char>, id: ModuleId)
    requires
        m.wf(),
        m.names().contains_key(name),
        m.names()[name] == NameTarget::Mod(id),
    ensures
        resolve_name(m.names(), name) == Some(id),
{
    lemma_module_name_resolves(m.names(), name, id);
}

} // verus!

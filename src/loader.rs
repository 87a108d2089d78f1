//! Resolution of module specifiers, and the breadth-first load of a module
//! graph.
//!
//! The load is a state machine: the caller reads files and compiles source,
//! and hands the outcome of each step back; every decision on what to load
//! next, what to alias and what to skip is taken here.
use crate::error::CoreError;
use crate::modules::{
    lemma_module_name_resolves, resolve_name, status_step, ModuleId, ModuleInfo, ModuleSpecifier, ModuleStatus, Modules,
    NameTarget, SymbolicModule,
};
use crate::paths::{is_absolute, normalize_path, normalized, substituted, substitute};
use vstd::prelude::*;

verus! {

/// Index of the last `/` in `p`, or -1 when there is none.
pub open spec fn last_slash(p: Seq<char>) -> int
    decreases p.len(),
{
    if p.len() == 0 {
        -1
    } else if p.last() == '/' {
        p.len() - 1
    } else {
        last_slash(p.drop_last())
    }
}

/// The path that `specifier` names when read from the module at `referrer`.
pub open spec fn relative_to(referrer: Seq<char>, specifier: Seq<char>) -> Seq<char> {
    if is_absolute(specifier) || last_slash(referrer) < 0 {
        normalized(specifier)
    } else {
        normalized(referrer.subrange(0, last_slash(referrer)) + seq!['/'] + specifier)
    }
}

proof fn lemma_last_slash_bounds(p: Seq<char>)
    ensures
        -1 <= last_slash(p) < p.len(),
        last_slash(p) >= 0 ==> p[last_slash(p)] == '/',
    decreases p.len(),
{
    if p.len() > 0 {
        lemma_last_slash_bounds(p.drop_last());
    }
}

/// `specifier` read from the module at `referrer`, normalized.
pub fn resolve_relative(referrer: &str, specifier: &str) -> (r: String)
    ensures
        r@ == relative_to(referrer@, specifier@),
{
    let n = referrer.unicode_len();
    let mut last: Option<usize> = None;
    let mut i: usize = 0;
    while i < n
        invariant
            n == referrer@.len(),
            i <= n,
            match last {
                Some(k) => last_slash(referrer@.subrange(0, i as int)) == k as int,
                None => last_slash(referrer@.subrange(0, i as int)) < 0,
            },
        decreases n - i,
    {
        proof {
            assert(referrer@.subrange(0, i + 1).drop_last() =~= referrer@.subrange(0, i as int));
        }
        if referrer.get_char(i) == '/' {
            last = Some(i);
        }
        i = i + 1;
    }
    proof {
        assert(referrer@.subrange(0, n as int) =~= referrer@);
        lemma_last_slash_bounds(referrer@);
    }
    let absolute = specifier.unicode_len() > 0 && specifier.get_char(0) == '/';
    if absolute || last.is_none() {
        normalize_path(specifier)
    } else {
        let k = last.unwrap();
        let mut joined = String::new();
        joined.append(referrer.substring_char(0, k));
        proof {
            reveal_strlit("/");
        }
        joined.append("/");
        joined.append(specifier);
        proof {
            assert(joined@ =~= referrer@.subrange(0, last_slash(referrer@)) + seq!['/'] + specifier@);
        }
        normalize_path(joined.as_str())
    }
}

/// The pieces of `s` between the `;` separators (one piece when there is none).
pub open spec fn split_paths(s: Seq<char>) -> Seq<Seq<char>>
    decreases s.len(),
{
    if s.len() == 0 {
        seq![Seq::empty()]
    } else {
        let prev = split_paths(s.drop_last());
        if s.last() == ';' {
            prev.push(Seq::empty())
        } else {
            prev.update(prev.len() - 1, prev.last().push(s.last()))
        }
    }
}

proof fn lemma_split_nonempty(s: Seq<char>)
    ensures
        split_paths(s).len() >= 1,
    decreases s.len(),
{
    if s.len() > 0 {
        lemma_split_nonempty(s.drop_last());
    }
}

/// Splits a `;`-separated list of search-path templates.
pub fn split_search_paths(s: &str) -> (r: Vec<String>)
    ensures
        r@.map_values(|x: String| x@) == split_paths(s@),
{
    let n = s.unicode_len();
    let mut done: Vec<String> = Vec::new();
    let mut cur = String::new();
    let mut i: usize = 0;
    while i < n
        invariant
            n == s@.len(),
            i <= n,
            done@.map_values(|x: String| x@).push(cur@) == split_paths(s@.subrange(0, i as int)),
        decreases n - i,
    {
        let c = s.get_char(i);
        proof {
            assert(s@.subrange(0, i + 1).drop_last() =~= s@.subrange(0, i as int));
            lemma_split_nonempty(s@.subrange(0, i as int));
        }
        let ghost before = done@.map_values(|x: String| x@);
        if c == ';' {
            let piece = cur;
            cur = String::new();
            done.push(piece);
            proof {
                assert(done@.map_values(|x: String| x@) =~= before.push(piece@));
                assert(done@.map_values(|x: String| x@).push(cur@) =~= split_paths(s@.subrange(0, i + 1)));
            }
        } else {
            let ghost old_cur = cur@;
            cur.append(s.substring_char(i, i + 1));
            proof {
                assert(s@.subrange(i as int, i + 1) =~= seq![c]);
                assert(cur@ =~= old_cur.push(c));
                assert(done@.map_values(|x: String| x@).push(cur@) =~= split_paths(s@.subrange(0, i + 1)));
            }
        }
        i = i + 1;
    }
    let ghost before = done@.map_values(|x: String| x@);
    done.push(cur);
    proof {
        assert(s@.subrange(0, n as int) =~= s@);
        assert(done@.map_values(|x: String| x@) =~= before.push(cur@));
    }
    done
}

/// The search-path templates with `?` replaced by `specifier`, in order.
pub open spec fn candidates_of(templates: Seq<Seq<char>>, specifier: Seq<char>) -> Seq<Seq<char>> {
    templates.map_values(|t: Seq<char>| substituted(t, specifier))
}

/// The first index from `i` on whose candidate is already known to exist, or
/// exists now.
pub open spec fn first_hit(cands: Seq<Seq<char>>, known: Set<Seq<char>>, exists: Seq<bool>, i: int) -> Option<int>
    decreases cands.len() - i,
{
    if i < 0 || i >= cands.len() {
        None
    } else if known.contains(cands[i]) || exists[i] {
        Some(i)
    } else {
        first_hit(cands, known, exists, i + 1)
    }
}

/// Where a specifier was resolved to, and whether a search path found it.
pub struct Resolution {
    pub path: String,
    pub via_search_path: bool,
}

/// Resolves module specifiers against search-path templates, and remembers
/// which candidate files were found to exist.
pub struct ModuleLoader {
    search_paths: Vec<String>,
    known: Vec<String>,
}

impl ModuleLoader {
    /// The search-path templates, in order.
    pub closed spec fn templates(&self) -> Seq<Seq<char>> {
        self.search_paths@.map_values(|x: String| x@)
    }

    /// The candidate paths found to exist so far.
    pub closed spec fn known_files(&self) -> Set<Seq<char>> {
        self.known@.map_values(|x: String| x@).to_set()
    }

    /// A loader with the given templates, that knows of no file yet.
    pub fn new(search_paths: Vec<String>) -> (r: Self)
        ensures
            r.templates() == search_paths@.map_values(|x: String| x@),
            r.known_files() == Set::<Seq<char>>::empty(),
    {
        let r = ModuleLoader { search_paths, known: Vec::new() };
        proof {
            assert(r.known_files() =~= Set::<Seq<char>>::empty());
        }
        r
    }

    /// Replaces the templates by those of the `;`-separated list `paths`.
    pub fn set_search_paths(&mut self, paths: &str)
        ensures
            final(self).templates() == split_paths(paths@),
            final(self).known_files() == old(self).known_files(),
    {
        self.search_paths = split_search_paths(paths);
    }

    /// The number of templates.
    pub fn search_path_count(&self) -> (n: usize)
        ensures
            n == self.templates().len(),
    {
        self.search_paths.len()
    }

    /// The paths the templates give for `specifier`, in the order they are tried.
    pub fn candidates(&self, specifier: &str) -> (r: Vec<String>)
        ensures
            r@.map_values(|x: String| x@) == candidates_of(self.templates(), specifier@),
    {
        let mut r: Vec<String> = Vec::new();
        let mut i: usize = 0;
        while i < self.search_paths.len()
            invariant
                i <= self.search_paths@.len(),
                r@.map_values(|x: String| x@) == candidates_of(self.templates(), specifier@).subrange(0, i as int),
            decreases self.search_paths@.len() - i,
        {
            let c = substitute(self.search_paths[i].as_str(), specifier);
            let ghost before = r@.map_values(|x: String| x@);
            r.push(c);
            proof {
                assert(r@.map_values(|x: String| x@) =~= before.push(c@));
                assert(candidates_of(self.templates(), specifier@).subrange(0, i + 1) =~= before.push(c@));
            }
            i = i + 1;
        }
        proof {
            assert(candidates_of(self.templates(), specifier@).subrange(0, i as int) =~= candidates_of(self.templates(), specifier@));
        }
        r
    }

    fn is_known(&self, path: &String) -> (r: bool)
        ensures
            r == self.known_files().contains(path@),
    {
        let mut i: usize = 0;
        while i < self.known.len()
            invariant
                i <= self.known@.len(),
                forall|j: int| 0 <= j < i ==> self.known@[j]@ != path@,
            decreases self.known@.len() - i,
        {
            if self.known[i] == *path {
                proof {
                    assert(self.known@.map_values(|x: String| x@)[i as int] == path@);
                }
                return true;
            }
            i = i + 1;
        }
        proof {
            if self.known_files().contains(path@) {
                let kv = self.known@.map_values(|x: String| x@);
                assert(kv.contains(path@));
                let j = choose|j: int| 0 <= j < kv.len() && #[trigger] kv[j] == path@;
                assert(self.known@[j]@ == path@);
            }
        }
        false
    }

    /// Resolves `specifier`. The first template whose candidate is known to
    /// exist, or is reported in `exists` to exist, wins, and is remembered.
    /// Failing that, the specifier is read relative to `referrer`, or taken
    /// as it is when there is no referrer.
    pub fn resolve(&mut self, specifier: &str, referrer: Option<&str>, exists: &Vec<bool>) -> (r: Resolution)
        requires
            exists@.len() == old(self).templates().len(),
        ensures
            final(self).templates() == old(self).templates(),
            match first_hit(candidates_of(old(self).templates(), specifier@), old(self).known_files(), exists@, 0) {
                Some(i) => {
                    &&& r.via_search_path
                    &&& r.path@ == candidates_of(old(self).templates(), specifier@)[i]
                    &&& final(self).known_files() == old(self).known_files().insert(r.path@)
                },
                None => {
                    &&& !r.via_search_path
                    &&& r.path@ == match referrer {
                        Some(from) => relative_to(from@, specifier@),
                        None => specifier@,
                    }
                    &&& final(self).known_files() == old(self).known_files()
                },
            },
    {
        let cands = self.candidates(specifier);
        let ghost cv = candidates_of(self.templates(), specifier@);
        let ghost known0 = self.known_files();
        let mut i: usize = 0;
        while i < cands.len()
            invariant
                cands@.map_values(|x: String| x@) == cv,
                cv == candidates_of(old(self).templates(), specifier@),
                cv.len() == exists@.len(),
                i <= cv.len(),
                self.known@ == old(self).known@,
                known0 == old(self).known_files(),
                self.search_paths@ == old(self).search_paths@,
                first_hit(cv, known0, exists@, 0) == first_hit(cv, known0, exists@, i as int),
            decreases cv.len() - i,
        {
            let path = &cands[i];
            proof {
                assert(cv[i as int] == path@);
            }
            if self.is_known(path) {
                proof {
                    assert(self.known_files() == known0);
                    assert(known0.contains(path@));
                    assert(first_hit(cv, known0, exists@, i as int) == Some(i as int));
                    assert(known0.insert(path@) =~= known0);
                }
                return Resolution { path: path.clone(), via_search_path: true };
            }
            if exists[i] {
                proof {
                    assert(first_hit(cv, known0, exists@, i as int) == Some(i as int));
                }
                self.known.push(path.clone());
                proof {
                    assert(self.known@.map_values(|x: String| x@) =~= old(self).known@.map_values(|x: String| x@).push(path@));
                    old(self).known@.map_values(|x: String| x@).lemma_push_to_set_commute(path@);
                    assert(self.known_files() =~= known0.insert(path@));
                }
                return Resolution { path: path.clone(), via_search_path: true };
            }
            i = i + 1;
        }
        let path = match referrer {
            Some(from) => resolve_relative(from, specifier),
            None => specifier.to_owned(),
        };
        Resolution { path, via_search_path: false }
    }
}

/// The path that `resolve` gives for `specifier`, asked for by `referrer`.
pub open spec fn resolved_path(
    templates: Seq<Seq<char>>,
    known: Set<Seq<char>>,
    exists: Seq<bool>,
    specifier: Seq<char>,
    referrer: Option<Seq<char>>,
) -> Seq<char> {
    match first_hit(candidates_of(templates, specifier), known, exists, 0) {
        Some(i) => candidates_of(templates, specifier)[i],
        None => match referrer {
            Some(from) => relative_to(from, specifier),
            None => specifier,
        },
    }
}

impl ModuleLoader {
    /// Answers the linker: the module that the static import `specifier` of
    /// module `referrer_id` leads to, or an unresolved-import error naming both
    /// when the importing module or the imported one is not registered.
    pub fn resolve_import<H>(
        &mut self,
        modules: &Modules<H>,
        specifier: &str,
        referrer_id: ModuleId,
        exists: &Vec<bool>,
    ) -> (r: Result<ModuleId, CoreError>)
        requires
            modules.wf(),
            exists@.len() == old(self).templates().len(),
        ensures
            final(self).templates() == old(self).templates(),
            r matches Ok(id) ==> modules.records().contains_key(id),
            !modules.records().contains_key(referrer_id) ==> {
                &&& final(self).known_files() == old(self).known_files()
                &&& r matches Err(CoreError::UnresolvedImport { specifier: s, importer: _ })
                &&& s@ == specifier@
            },
            modules.records().contains_key(referrer_id) ==> {
                let from = modules.records()[referrer_id].name@;
                let path = resolved_path(old(self).templates(), old(self).known_files(), exists@, specifier@, Some(from));
                match resolve_name(modules.names(), path) {
                    Some(id) => r == Ok::<ModuleId, CoreError>(id),
                    None => r matches Err(CoreError::UnresolvedImport { specifier: s, importer: i })
                        && s@ == specifier@ && i@ == from,
                }
            },
    {
        match modules.get_name(referrer_id) {
            None => Err(CoreError::UnresolvedImport { specifier: specifier.to_owned(), importer: String::new() }),
            Some(from) => {
                let resolution = self.resolve(specifier, Some(from.as_str()), exists);
                proof {
                    modules.lemma_resolved_name_is_recorded(resolution.path@);
                }
                match modules.get_id(resolution.path.as_str()) {
                    Some(id) => Ok(id),
                    None => Err(CoreError::UnresolvedImport { specifier: specifier.to_owned(), importer: from.clone() }),
                }
            },
        }
    }
}

/// The mathematical value of a load request.
pub open spec fn request_view(r: (String, Option<String>)) -> (Seq<char>, Option<Seq<char>>) {
    (
        r.0@,
        match r.1 {
            Some(s) => Some(s@),
            None => None,
        },
    )
}

/// The specifiers of `imports`.
pub open spec fn specifiers_view(imports: Seq<ModuleSpecifier>) -> Seq<Seq<char>> {
    imports.map_values(|s: ModuleSpecifier| s@)
}

/// The requests that the imports of a newly compiled module add to the load:
/// each import, in order, asked for by the module at `referrer`. Whether an
/// import is loaded already is told by `found` once the import is resolved
/// against its referrer: the same specifier can name different modules from
/// different directories.
pub open spec fn new_requests(imports: Seq<Seq<char>>, referrer: Seq<char>) -> Seq<(Seq<char>, Option<Seq<char>>)> {
    imports.map_values(|i: Seq<char>| (i, Some(referrer)))
}

/// The names after a module asked for as `specifier` was resolved to
/// `path`: a specifier other than the path becomes an alias of the path.
pub open spec fn names_after_resolution(
    names: Map<Seq<char>, NameTarget>,
    specifier: Seq<char>,
    path: Seq<char>,
) -> Map<Seq<char>, NameTarget> {
    if specifier != path {
        names.insert(specifier, NameTarget::Alias(path))
    } else {
        names
    }
}

/// The target a name stood for, as an optional value.
pub open spec fn target_view(t: Option<SymbolicModule>) -> Option<NameTarget> {
    match t {
        Some(x) => Some(x@),
        None => None,
    }
}

/// A target that is a module is a recorded one.
pub open spec fn recorded_if_module<H>(t: Option<NameTarget>, records: Map<ModuleId, ModuleInfo<H>>) -> bool {
    match t {
        Some(NameTarget::Mod(x)) => records.contains_key(x),
        _ => true,
    }
}

/// `m` with `name` put back to what it stood for before (`None`: nothing).
pub open spec fn restore_name(m: Map<Seq<char>, NameTarget>, name: Seq<char>, prev: Option<NameTarget>) -> Map<
    Seq<char>,
    NameTarget,
> {
    match prev {
        Some(t) => m.insert(name, t),
        None => m.remove(name),
    }
}

/// `m` with the names a load set put back, last set first.
pub open spec fn undo_names(
    m: Map<Seq<char>, NameTarget>,
    names: Seq<Seq<char>>,
    prev: Seq<Option<NameTarget>>,
) -> Map<Seq<char>, NameTarget>
    decreases names.len(),
{
    if names.len() == 0 || prev.len() != names.len() {
        m
    } else {
        undo_names(restore_name(m, names.last(), prev.last()), names.drop_last(), prev.drop_last())
    }
}

/// The record `rec` after a move to status `to`, when that is a step forward.
pub open spec fn advanced<H>(rec: ModuleInfo<H>, to: ModuleStatus) -> ModuleInfo<H> {
    if status_step(rec.status, to) {
        ModuleInfo { status: to, ..rec }
    } else {
        rec
    }
}

proof fn lemma_restore_after_set(m: Map<Seq<char>, NameTarget>, name: Seq<char>, t: NameTarget)
    ensures
        restore_name(m.insert(name, t), name, if m.contains_key(name) {
            Some(m[name])
        } else {
            None
        }) == m,
{
    if m.contains_key(name) {
        assert(m.insert(name, t).insert(name, m[name]) =~= m);
    } else {
        assert(m.insert(name, t).remove(name) =~= m);
    }
}

/// Once the module at `path` was compiled as `id`, any later request that
/// resolves to `path` makes `found` give `id` back, whatever alias the
/// resolution adds: a module shared by several importers (a diamond) or
/// reached again round a cycle is compiled once.
pub proof fn lemma_compiled_path_is_found<H>(m: Modules<H>, path: Seq<char>, id: ModuleId, specifier: Seq<char>)
    requires
        m.wf(),
        m.names().contains_key(path),
        m.names()[path] == NameTarget::Mod(id),
    ensures
        resolve_name(names_after_resolution(m.names(), specifier, path), path) == Some(id),
{
    m.lemma_names_finite();
    let after = names_after_resolution(m.names(), specifier, path);
    assert(after.dom().finite());
    lemma_module_name_resolves(after, path, id);
}

/// Alias convergence across two loads: after a request for `specifier` was
/// resolved to another `path` (adding the alias) and `path` was compiled as
/// `id`, both `specifier` and a later direct request for `path` lead to `id`.
pub proof fn lemma_alias_and_path_agree<H>(m: Modules<H>, specifier: Seq<char>, path: Seq<char>, id: ModuleId)
    requires
        m.wf(),
        specifier != path,
        m.names().contains_key(specifier),
        m.names()[specifier] == NameTarget::Alias(path),
        m.names().contains_key(path),
        m.names()[path] == NameTarget::Mod(id),
    ensures
        resolve_name(m.names(), specifier) == Some(id),
        resolve_name(names_after_resolution(m.names(), path, path), path) == Some(id),
{
    crate::modules::lemma_alias_converges(m, specifier, path, id);
    lemma_compiled_path_is_found(m, path, id, path);
}

/// One breadth-first load of a module graph, from an entry specifier.
///
/// Each request is resolved, then either found among the registered modules
/// or read and compiled by the caller. Only a module compiled by this load
/// adds its imports to the queue: a module found registered had its imports
/// asked for when it was compiled, so queueing them again would add only
/// work, and would never end round a cycle. A module reached twice (a shared
/// dependency, a cycle) is therefore compiled once, and the load ends once
/// every compiled module's imports were handed out.
///
/// Every name the load sets is logged with what it stood for before, so that
/// `abort` can put the registry back as it was.
pub struct GraphLoad {
    queue: Vec<(String, Option<String>)>,
    head: usize,
    main_id: ModuleId,
    added_names: Vec<String>,
    previous: Vec<Option<SymbolicModule>>,
    added_ids: Vec<ModuleId>,
}

impl GraphLoad {
    /// The requests not yet handed out, first to last.
    pub closed spec fn pending(&self) -> Seq<(Seq<char>, Option<Seq<char>>)> {
        self.queue@.subrange(self.head as int, self.queue@.len() as int).map_values(
            |r: (String, Option<String>)| request_view(r),
        )
    }

    /// The names this load set in the registry, in order.
    pub closed spec fn names_added(&self) -> Seq<Seq<char>> {
        self.added_names@.map_values(|x: String| x@)
    }

    /// What each of those names stood for just before the load set it.
    pub closed spec fn previous_targets(&self) -> Seq<Option<NameTarget>> {
        self.previous@.map_values(|t: Option<SymbolicModule>| target_view(t))
    }

    /// The modules this load compiled and registered, in order.
    pub closed spec fn ids_added(&self) -> Seq<ModuleId> {
        self.added_ids@
    }

    /// `now` is `before` with the names this load set and the modules it
    /// registered (all new to `before`); undoing the names, last first, and
    /// dropping the modules gives `before` back.
    pub open spec fn undoes_to<H>(&self, before: Modules<H>, now: Modules<H>) -> bool {
        &&& before.wf()
        &&& self.names_added().len() == self.previous_targets().len()
        &&& undo_names(now.names(), self.names_added(), self.previous_targets()) == before.names()
        &&& now.records().remove_keys(self.ids_added().to_set()) == before.records()
        &&& self.ids_added().to_set().disjoint(before.records().dom())
        &&& forall|i: int|
            0 <= i < self.previous_targets().len() ==> recorded_if_module(
                #[trigger] self.previous_targets()[i],
                now.records(),
            )
    }

    /// A load that changed nothing yet relates the registry to itself.
    pub proof fn lemma_fresh_load<H>(&self, m: Modules<H>)
        requires
            m.wf(),
            self.names_added() == Seq::<Seq<char>>::empty(),
            self.previous_targets() == Seq::<Option<NameTarget>>::empty(),
            self.ids_added() == Seq::<ModuleId>::empty(),
        ensures
            self.undoes_to(m, m),
    {
        assert(self.ids_added().to_set() =~= Set::<ModuleId>::empty());
        assert(m.records().remove_keys(Set::<ModuleId>::empty()) =~= m.records());
    }

    /// The module the load started from; 0 until it is known.
    pub closed spec fn entry(&self) -> ModuleId {
        self.main_id
    }

    pub closed spec fn wf(&self) -> bool {
        &&& self.head <= self.queue@.len()
        &&& self.added_names@.len() == self.previous@.len()
    }

    /// A load whose only request is `specifier`, asked for by `referrer`.
    pub fn new(specifier: &str, referrer: Option<&str>) -> (r: Self)
        ensures
            r.wf(),
            r.pending() == seq![
                (
                    specifier@,
                    match referrer {
                        Some(s) => Some(s@),
                        None => None::<Seq<char>>,
                    },
                ),
            ],
            r.entry() == 0,
            r.names_added() == Seq::<Seq<char>>::empty(),
            r.ids_added() == Seq::<ModuleId>::empty(),
            r.previous_targets() == Seq::<Option<NameTarget>>::empty(),
    {
        let from = match referrer {
            Some(s) => Some(s.to_owned()),
            None => None,
        };
        let mut queue: Vec<(String, Option<String>)> = Vec::new();
        queue.push((specifier.to_owned(), from));
        let r = GraphLoad { queue, head: 0, main_id: 0, added_names: Vec::new(), previous: Vec::new(), added_ids: Vec::new() };
        proof {
            assert(r.names_added() =~= Seq::<Seq<char>>::empty());
            assert(r.previous_targets() =~= Seq::<Option<NameTarget>>::empty());
            assert(r.queue@.subrange(0, 1) =~= r.queue@);
            assert(r.pending() =~= seq![request_view(r.queue@[0])]);
        }
        r
    }

    /// Hands out the next request, if any is left.
    pub fn next_request(&mut self) -> (r: Option<(String, Option<String>)>)
        requires
            old(self).wf(),
        ensures
            final(self).wf(),
            final(self).entry() == old(self).entry(),
            final(self).names_added() == old(self).names_added(),
            final(self).previous_targets() == old(self).previous_targets(),
            final(self).ids_added() == old(self).ids_added(),
            match r {
                Some(req) => {
                    &&& old(self).pending().len() > 0
                    &&& request_view(req) == old(self).pending()[0]
                    &&& final(self).pending() == old(self).pending().drop_first()
                },
                None => old(self).pending().len() == 0 && final(self).pending() == old(self).pending(),
            },
    {
        if self.head < self.queue.len() {
            let (spec, from) = &self.queue[self.head];
            let from_copy = match from {
                Some(s) => Some(s.clone()),
                None => None,
            };
            let req = (spec.clone(), from_copy);
            self.head = self.head + 1;
            proof {
                assert(final(self).pending() =~= old(self).pending().drop_first());
            }
            Some(req)
        } else {
            None
        }
    }

    /// Sets `name` to `target` in the registry, logging what it stood for.
    fn set_logged<H>(&mut self, modules: &mut Modules<H>, name: &str, target: SymbolicModule)
        requires
            old(self).wf(),
            old(modules).wf(),
            target matches SymbolicModule::Mod(id) ==> old(modules).records().contains_key(id),
        ensures
            final(self).wf(),
            final(modules).wf(),
            final(modules).names() == old(modules).names().insert(name@, target@),
            final(modules).records() == old(modules).records(),
            final(self).names_added() == old(self).names_added().push(name@),
            final(self).ids_added() == old(self).ids_added(),
            final(self).pending() == old(self).pending(),
            final(self).entry() == old(self).entry(),
            forall|before: Modules<H>| #[trigger] old(self).undoes_to(before, *old(modules)) ==> final(self).undoes_to(
                before,
                *final(modules),
            ),
    {
        let prev = modules.name_target(name);
        let ghost old_names = modules.names();
        match target {
            SymbolicModule::Alias(t) => modules.alias(name, t.as_str()),
            SymbolicModule::Mod(id) => modules.name_module(name, id),
        }
        let ghost prev_view = target_view(prev);
        proof {
            if old_names.contains_key(name@) {
                old(modules).lemma_named_module_is_recorded_or_alias(name@);
            }
        }
        self.added_names.push(name.to_owned());
        self.previous.push(prev);
        proof {
            assert(self.names_added() =~= old(self).names_added().push(name@));
            assert(self.previous_targets() =~= old(self).previous_targets().push(prev_view));
            assert(prev_view == if old_names.contains_key(name@) {
                Some(old_names[name@])
            } else {
                None
            });
            lemma_restore_after_set(old_names, name@, target@);
            assert forall|before: Modules<H>| #[trigger] old(self).undoes_to(before, *old(modules)) implies self.undoes_to(
                before,
                *modules,
            ) by {
                assert(self.names_added().drop_last() =~= old(self).names_added());
                assert(self.previous_targets().drop_last() =~= old(self).previous_targets());
                assert forall|i: int|
                    0 <= i < self.previous_targets().len() implies recorded_if_module(
                        #[trigger] self.previous_targets()[i],
                        modules.records(),
                    ) by {
                    if i < old(self).previous_targets().len() {
                        assert(self.previous_targets()[i] == old(self).previous_targets()[i]);
                    }
                }
            }
        }
    }

    /// Takes note of where the request for `specifier` was resolved to: a
    /// specifier other than the resolved path becomes an alias of it (in place
    /// of what it stood for), and the id of the module the path already
    /// leads to, if any, is returned. A module found this way adds no
    /// requests: its imports were asked for when it was compiled.
    pub fn found<H>(&mut self, modules: &mut Modules<H>, specifier: &str, resolution: &Resolution) -> (r: Option<ModuleId>)
        requires
            old(self).wf(),
            old(modules).wf(),
        ensures
            final(self).wf(),
            final(modules).wf(),
            final(modules).records() == old(modules).records(),
            final(modules).names() == names_after_resolution(old(modules).names(), specifier@, resolution.path@),
            r == resolve_name(final(modules).names(), resolution.path@),
            final(self).pending() == old(self).pending(),
            final(self).ids_added() == old(self).ids_added(),
            forall|before: Modules<H>| #[trigger] old(self).undoes_to(before, *old(modules)) ==> final(self).undoes_to(
                before,
                *final(modules),
            ),
            final(self).entry() == match r {
                Some(id) => if old(self).entry() == 0 {
                    id
                } else {
                    old(self).entry()
                },
                None => old(self).entry(),
            },
    {
        let requested = specifier.to_owned();
        if !(requested == resolution.path) {
            self.set_logged(modules, specifier, SymbolicModule::Alias(resolution.path.clone()));
        }
        let r = modules.get_id(resolution.path.as_str());
        match r {
            Some(id) => {
                if self.main_id == 0 {
                    self.main_id = id;
                }
            },
            None => {},
        }
        r
    }

    /// Registers the module compiled from `path` under id `id` (as the entry
    /// module when it is the first of this load), and queues all of its
    /// imports. A path is compiled only when `found` gave nothing for it, and
    /// the id must be new, so that no module is compiled twice.
    pub fn compiled<H>(
        &mut self,
        modules: &mut Modules<H>,
        id: ModuleId,
        path: &str,
        handle: H,
        imports: Vec<ModuleSpecifier>,
    )
        requires
            old(self).wf(),
            old(modules).wf(),
            id != 0,
            resolve_name(old(modules).names(), path@) is None,
            !old(modules).records().contains_key(id),
        ensures
            forall|before: Modules<H>| #[trigger] old(self).undoes_to(before, *old(modules)) ==> final(self).undoes_to(
                before,
                *final(modules),
            ),
            final(self).wf(),
            final(modules).wf(),
            final(modules).names() == old(modules).names().insert(path@, NameTarget::Mod(id)),
            final(modules).records().contains_key(id),
            final(modules).records()[id].main == (old(self).entry() == 0),
            final(modules).records()[id].name@ == path@,
            final(modules).records()[id].handle == handle,
            final(modules).records()[id].import_specifiers == imports,
            final(modules).records()[id].status == ModuleStatus::Compiled,
            forall|k: ModuleId| k != id && #[trigger] old(modules).records().contains_key(k)
                ==> final(modules).records().contains_key(k) && final(modules).records()[k] == old(modules).records()[k],
            final(modules).records().dom() == old(modules).records().dom().insert(id),
            final(self).entry() == if old(self).entry() == 0 {
                id
            } else {
                old(self).entry()
            },
            final(self).ids_added() == old(self).ids_added().push(id),
            final(self).pending() == old(self).pending() + new_requests(specifiers_view(imports@), path@),
    {
        let main = self.main_id == 0;
        let ghost imports_view = specifiers_view(imports@);
        let ghost m0 = *modules;
        let ghost me0 = *self;
        let prev = modules.name_target(path);
        modules.register(id, path, main, handle, imports);
        let ghost m1 = *modules;
        if main {
            self.main_id = id;
        }
        let referrer = path.to_owned();
        self.added_names.push(referrer.clone());
        self.previous.push(prev);
        self.added_ids.push(id);
        proof {
            let prev_view = target_view(prev);
            assert(self.names_added() =~= old(self).names_added().push(path@));
            assert(self.previous_targets() =~= old(self).previous_targets().push(prev_view));
            lemma_restore_after_set(m0.names(), path@, NameTarget::Mod(id));
            if m0.names().contains_key(path@) {
                m0.lemma_named_module_is_recorded_or_alias(path@);
            }
            assert forall|before: Modules<H>| #[trigger] old(self).undoes_to(before, *old(modules)) implies self.undoes_to(
                before,
                *modules,
            ) by {
                let oldi = old(self).ids_added().to_set();
                old(self).ids_added().lemma_push_to_set_commute(id);
                assert(self.names_added().drop_last() =~= old(self).names_added());
                assert(self.previous_targets().drop_last() =~= old(self).previous_targets());
                assert(modules.records().remove_keys(oldi.insert(id)) =~= old(modules).records().remove_keys(oldi));
                assert(!before.records().dom().contains(id)) by {
                    if before.records().dom().contains(id) {
                        assert(old(modules).records().remove_keys(oldi).contains_key(id));
                    }
                }
                assert(self.ids_added().to_set().disjoint(before.records().dom()));
                assert forall|i: int|
                    0 <= i < self.previous_targets().len() implies recorded_if_module(
                        #[trigger] self.previous_targets()[i],
                        modules.records(),
                    ) by {
                    if i < old(self).previous_targets().len() {
                        assert(self.previous_targets()[i] == old(self).previous_targets()[i]);
                    }
                }
            }
        }
        let ghost before = self.pending();
        let ghost main_now = self.main_id;
        let ghost added_n = self.added_names@;
        let ghost prev_n = self.previous@;
        let ghost added_i = self.added_ids@;
        match modules.get_children(id) {
            Some(children) => {
                let mut j: usize = 0;
                while j < children.len()
                    invariant
                        self.head <= self.queue@.len(),
                        self.main_id == main_now,
                        self.added_names@ == added_n,
                        self.previous@ == prev_n,
                        self.added_ids@ == added_i,
                        added_n.len() == prev_n.len(),
                        j <= children@.len(),
                        imports_view == specifiers_view(children@),
                        referrer@ == path@,
                        self.pending() == before + new_requests(imports_view.subrange(0, j as int), path@),
                    decreases children@.len() - j,
                {
                    let child = &children[j];
                    let ghost q0 = self.queue@;
                    let ghost p0 = self.pending();
                    let item = (child.as_str().to_owned(), Some(referrer.clone()));
                    assert(request_view(item) == (children@[j as int]@, Some(path@)));
                    self.queue.push(item);
                    proof {
                        assert(self.queue@.subrange(self.head as int, self.queue@.len() as int)
                            =~= q0.subrange(self.head as int, q0.len() as int).push(item));
                        assert(self.pending() =~= p0.push(request_view(item)));
                        assert(new_requests(imports_view.subrange(0, j + 1), path@) =~= new_requests(
                            imports_view.subrange(0, j as int),
                            path@,
                        ).push((imports_view[j as int], Some(path@))));
                        assert(self.pending() =~= before + new_requests(imports_view.subrange(0, j + 1), path@));
                    }
                    j = j + 1;
                }
                proof {
                    assert(imports_view.subrange(0, j as int) =~= imports_view);
                }
            },
            None => {},
        }
    }

    /// Moves every module this load compiled to status `to`, where that is a
    /// step forward: instantiated once the entry is linked, then evaluated or
    /// errored with it, so that each module of the graph ends as its entry does.
    pub fn advance_all<H>(&self, modules: &mut Modules<H>, to: ModuleStatus)
        requires
            old(modules).wf(),
        ensures
            final(modules).wf(),
            final(modules).names() == old(modules).names(),
            final(modules).records().dom() == old(modules).records().dom(),
            forall|k: ModuleId| #[trigger] final(modules).records().contains_key(k) ==> final(modules).records()[k]
                == if self.ids_added().contains(k) {
                    advanced(old(modules).records()[k], to)
                } else {
                    old(modules).records()[k]
                },
    {
        let mut j: usize = 0;
        while j < self.added_ids.len()
            invariant
                modules.wf(),
                j <= self.added_ids@.len(),
                modules.names() == old(modules).names(),
                modules.records().dom() == old(modules).records().dom(),
                forall|k: ModuleId| #[trigger] modules.records().contains_key(k) ==> modules.records()[k] == if self.added_ids@.subrange(
                    0,
                    j as int,
                ).contains(k) {
                    advanced(old(modules).records()[k], to)
                } else {
                    old(modules).records()[k]
                },
            decreases self.added_ids@.len() - j,
        {
            let id = self.added_ids[j];
            let ghost r0 = modules.records();
            let _ = modules.advance_status(id, to);
            proof {
                let s0 = self.added_ids@.subrange(0, j as int);
                let s1 = self.added_ids@.subrange(0, j + 1);
                assert(s1 =~= s0.push(id));
                assert forall|k: ModuleId| #[trigger] modules.records().contains_key(k) implies modules.records()[k]
                    == if s1.contains(k) {
                    advanced(old(modules).records()[k], to)
                } else {
                    old(modules).records()[k]
                } by {
                    assert(s1.contains(k) == (s0.contains(k) || k == id)) by {
                        if k == id {
                            assert(s1[j as int] == id);
                        }
                        if s1.contains(k) && k != id {
                            let w = choose|w: int| 0 <= w < s1.len() && s1[w] == k;
                            assert(s0[w] == k);
                        }
                    }
                    if k == id {
                        assert(advanced(advanced(old(modules).records()[k], to), to) == advanced(
                            old(modules).records()[k],
                            to,
                        ));
                    }
                }
            }
            j = j + 1;
        }
        proof {
            assert(self.added_ids@.subrange(0, j as int) =~= self.added_ids@);
        }
    }

    /// Gives up the load: every name it set goes back to what it stood for
    /// before (last set first), then every module it registered that no name
    /// stands for any more leaves the registry. For a registry `before` that
    /// the load only extended, the registry is `before` again: no part of the
    /// graph stays.
    pub fn abort<H>(&mut self, modules: &mut Modules<H>)
        requires
            old(self).wf(),
            old(modules).wf(),
        ensures
            final(self).wf(),
            final(modules).wf(),
            forall|before: Modules<H>| #[trigger] old(self).undoes_to(before, *old(modules)) ==> final(modules).names()
                == before.names() && final(modules).records() == before.records(),
            final(self).names_added() == Seq::<Seq<char>>::empty(),
            final(self).previous_targets() == Seq::<Option<NameTarget>>::empty(),
            final(self).ids_added() == Seq::<ModuleId>::empty(),
    {
        let mut i: usize = self.added_names.len();
        proof {
            assert(old(self).names_added().subrange(0, i as int) =~= old(self).names_added());
            assert(old(self).previous_targets().subrange(0, i as int) =~= old(self).previous_targets());
        }
        while i > 0
            invariant
                modules.wf(),
                i <= self.added_names@.len(),
                self.added_names@ == old(self).added_names@,
                self.previous@ == old(self).previous@,
                self.added_ids@ == old(self).added_ids@,
                self.added_names@.len() == self.previous@.len(),
                modules.records() == old(modules).records(),
                forall|before: Modules<H>| #[trigger] old(self).undoes_to(before, *old(modules)) ==> undo_names(
                    modules.names(),
                    old(self).names_added().subrange(0, i as int),
                    old(self).previous_targets().subrange(0, i as int),
                ) == before.names(),
            decreases i,
        {
            i = i - 1;
            let ghost n0 = modules.names();
            let name = self.added_names[i].as_str();
            let ghost pv = old(self).previous_targets()[i as int];
            proof {
                assert(pv == target_view(self.previous@[i as int]));
            }
            let mut restored = true;
            match &self.previous[i] {
                None => modules.remove_name(name),
                Some(SymbolicModule::Alias(t)) => modules.alias(name, t.as_str()),
                Some(SymbolicModule::Mod(x)) => {
                    if modules.get_info(*x).is_some() {
                        modules.name_module(name, *x);
                    } else {
                        restored = false;
                        modules.remove_name(name);
                    }
                },
            }
            proof {
                let names = old(self).names_added();
                let prevs = old(self).previous_targets();
                assert forall|before: Modules<H>| #[trigger] old(self).undoes_to(before, *old(modules)) implies undo_names(
                    modules.names(),
                    names.subrange(0, i as int),
                    prevs.subrange(0, i as int),
                ) == before.names() by {
                    assert(recorded_if_module(prevs[i as int], old(modules).records()));
                    assert(names.subrange(0, i + 1).drop_last() =~= names.subrange(0, i as int));
                    assert(prevs.subrange(0, i + 1).drop_last() =~= prevs.subrange(0, i as int));
                    assert(names.subrange(0, i + 1).last() == name@);
                    assert(modules.names() == restore_name(n0, name@, pv));
                }
            }
        }
        proof {
            assert forall|before: Modules<H>| #[trigger] old(self).undoes_to(before, *old(modules)) implies modules.names()
                == before.names() by {
                assert(old(self).names_added().subrange(0, 0).len() == 0);
            }
        }
        let mut j: usize = 0;
        while j < self.added_ids.len()
            invariant
                modules.wf(),
                j <= self.added_ids@.len(),
                self.added_ids@ == old(self).added_ids@,
                forall|before: Modules<H>| #[trigger] old(self).undoes_to(before, *old(modules)) ==> modules.names()
                    == before.names(),
                forall|before: Modules<H>| #[trigger] old(self).undoes_to(before, *old(modules)) ==> modules.records()
                    == old(modules).records().remove_keys(old(self).ids_added().subrange(0, j as int).to_set()),
            decreases self.added_ids@.len() - j,
        {
            let id = self.added_ids[j];
            if !modules.is_named(id) {
                modules.remove_record(id);
            } else {
                proof {
                    assert forall|before: Modules<H>| #[trigger] old(self).undoes_to(before, *old(modules)) implies false by {
                        let k = choose|k: Seq<char>| #[trigger] modules.names().contains_key(k) && modules.names()[k]
                            == NameTarget::Mod(id);
                        assert(modules.names() == before.names());
                        before.lemma_named_module_is_recorded(k);
                        assert(old(self).ids_added().contains(id)) by {
                            assert(old(self).ids_added()[j as int] == id);
                        }
                        assert(old(self).ids_added().to_set().contains(id));
                    }
                }
            }
            proof {
                let prefix = old(self).ids_added().subrange(0, j + 1);
                assert(prefix =~= old(self).ids_added().subrange(0, j as int).push(id));
                prefix.drop_last().lemma_push_to_set_commute(prefix.last());
                assert forall|before: Modules<H>| #[trigger] old(self).undoes_to(before, *old(modules)) implies modules.records()
                    == old(modules).records().remove_keys(prefix.to_set()) by {
                    assert(modules.records() =~= old(modules).records().remove_keys(prefix.to_set()));
                }
            }
            j = j + 1;
        }
        proof {
            assert(old(self).ids_added().subrange(0, j as int) =~= old(self).ids_added());
        }
        self.added_names.clear();
        self.previous.clear();
        self.added_ids.clear();
        proof {
            assert(self.names_added() =~= Seq::<Seq<char>>::empty());
            assert(self.previous_targets() =~= Seq::<Option<NameTarget>>::empty());
        }
    }

    /// The modules this load compiled, in order.
    pub fn compiled_ids(&self) -> (r: Vec<ModuleId>)
        ensures
            r@ == self.ids_added(),
    {
        let mut r: Vec<ModuleId> = Vec::new();
        let mut i: usize = 0;
        while i < self.added_ids.len()
            invariant
                i <= self.added_ids@.len(),
                r@ == self.added_ids@.subrange(0, i as int),
            decreases self.added_ids@.len() - i,
        {
            r.push(self.added_ids[i]);
            proof {
                assert(r@ =~= self.added_ids@.subrange(0, i + 1));
            }
            i = i + 1;
        }
        proof {
            assert(r@ =~= self.added_ids@);
        }
        r
    }

    /// The module the load started from, once it is known.
    pub fn main_id(&self) -> (r: Option<ModuleId>)
        ensures
            r == if self.entry() == 0 {
                None
            } else {
                Some(self.entry())
            },
    {
        if self.main_id == 0 {
            None
        } else {
            Some(self.main_id)
        }
    }

    /// Whether every request was handed out.
    pub fn is_finished(&self) -> (r: bool)
        requires
            self.wf(),
        ensures
            r == (self.pending().len() == 0),
    {
        self.head >= self.queue.len()
    }
}

} // verus!

use snjs_core::error::CoreError;
use snjs_core::loader::{resolve_relative, split_search_paths, GraphLoad, ModuleLoader};
use snjs_core::modules::{ModuleId, ModuleNameMap, ModuleSpecifier, ModuleStatus, Modules};
use snjs_core::paths::{normalize_path, substitute};
use std::collections::HashMap;

/// A tiny in-memory file system: path to the specifiers the module imports.
struct Files {
    imports: HashMap<String, Vec<String>>,
}

impl Files {
    fn new(entries: Vec<(&str, Vec<&str>)>) -> Files {
        let mut imports = HashMap::new();
        for (path, deps) in entries.into_iter() {
            imports.insert(path.to_string(), deps.iter().map(|d| d.to_string()).collect());
        }
        Files { imports }
    }
}

/// Runs one load to its end; returns the entry id and how many modules were compiled.
fn run_load(
    files: &Files,
    loader: &mut ModuleLoader,
    modules: &mut Modules<String>,
    next_id: &mut ModuleId,
    entry: &str,
    referrer: Option<&str>,
) -> Result<(ModuleId, usize, GraphLoad), CoreError> {
    let mut load = GraphLoad::new(entry, referrer);
    let mut compiled = 0;
    while let Some((specifier, from)) = load.next_request() {
        let exists: Vec<bool> = loader
            .candidates(&specifier)
            .iter()
            .map(|c| files.imports.contains_key(c))
            .collect();
        let resolution = loader.resolve(&specifier, from.as_deref(), &exists);
        if load.found(modules, &specifier, &resolution).is_some() {
            continue;
        }
        let deps = match files.imports.get(&resolution.path) {
            Some(d) => d.clone(),
            None => {
                load.abort(modules);
                return Err(CoreError::ModuleRead {
                    specifier: resolution.path.clone(),
                    referrer: from,
                    reason: "not found".to_owned(),
                })
            }
        };
        let id = *next_id;
        *next_id += 1;
        compiled += 1;
        let imports = deps.into_iter().map(ModuleSpecifier::new).collect();
        load.compiled(modules, id, &resolution.path, resolution.path.clone(), imports);
    }
    Ok((load.main_id().unwrap(), compiled, load))
}

#[test]
fn diamond_graph_compiles_shared_module_once() {
    let files = Files::new(vec![
        ("/app/a.js", vec!["./b.js", "./c.js"]),
        ("/app/b.js", vec!["./d.js"]),
        ("/app/c.js", vec!["./d.js"]),
        ("/app/d.js", vec![]),
    ]);
    let mut loader = ModuleLoader::new(vec![]);
    let mut modules = Modules::new();
    let mut next_id = 1;
    let (main, compiled, _) =
        run_load(&files, &mut loader, &mut modules, &mut next_id, "/app/a.js", None).unwrap();
    assert_eq!(compiled, 4);
    assert_eq!(main, 1);
    let d = modules.get_id("/app/d.js").unwrap();
    let d_records = (1..next_id).filter(|i| modules.get_name(*i).map(|n| n.as_str()) == Some("/app/d.js")).count();
    assert_eq!(d_records, 1);
    assert!(modules.get_info(d).is_some());
    assert!(modules.get_info(main).unwrap().main);
    assert!(!modules.get_info(d).unwrap().main);
}

#[test]
fn cycle_graph_load_terminates() {
    let files = Files::new(vec![("/m/a.js", vec!["./b.js"]), ("/m/b.js", vec!["./a.js"])]);
    let mut loader = ModuleLoader::new(vec![]);
    let mut modules = Modules::new();
    let mut next_id = 1;
    let (main, compiled, load) =
        run_load(&files, &mut loader, &mut modules, &mut next_id, "/m/a.js", None).unwrap();
    assert_eq!(compiled, 2);
    let b = modules.get_id("/m/b.js").unwrap();
    load.advance_all(&mut modules, ModuleStatus::Instantiated);
    load.advance_all(&mut modules, ModuleStatus::Evaluated);
    for id in [main, b] {
        assert_eq!(modules.get_info(id).unwrap().status, ModuleStatus::Evaluated);
    }
}

#[test]
fn alias_converges_on_one_record() {
    let files = Files::new(vec![("lib/x.js", vec![])]);
    let mut loader = ModuleLoader::new(vec!["lib/?.js".to_owned()]);
    let mut modules = Modules::new();
    let mut next_id = 1;
    let (via_alias, _, _) = run_load(&files, &mut loader, &mut modules, &mut next_id, "x", None).unwrap();
    assert!(modules.is_alias("x"));
    assert_eq!(modules.get_id("x"), Some(via_alias));
    let (direct, compiled, _) =
        run_load(&files, &mut loader, &mut modules, &mut next_id, "lib/x.js", None).unwrap();
    assert_eq!(direct, via_alias);
    assert_eq!(compiled, 0);
}

#[test]
fn missing_module_reports_specifier_and_referrer() {
    let files = Files::new(vec![("/p/a.js", vec!["./gone.js"])]);
    let mut loader = ModuleLoader::new(vec![]);
    let mut modules = Modules::new();
    let mut next_id = 1;
    match run_load(&files, &mut loader, &mut modules, &mut next_id, "/p/a.js", None) {
        Err(CoreError::ModuleRead { specifier, referrer, .. }) => {
            assert_eq!(specifier, "/p/gone.js");
            assert_eq!(referrer.as_deref(), Some("/p/a.js"));
        }
        _ => panic!("expected a read error"),
    }
    // the aborted load leaves nothing registered
    assert_eq!(modules.get_id("/p/a.js"), None);
    assert!(modules.get_info(1).is_none());
}

#[test]
fn linker_resolves_imports_and_reports_unresolved_ones() {
    let files = Files::new(vec![("/q/a.js", vec!["./b.js"]), ("/q/b.js", vec![])]);
    let mut loader = ModuleLoader::new(vec![]);
    let mut modules = Modules::new();
    let mut next_id = 1;
    let (main, _, _) = run_load(&files, &mut loader, &mut modules, &mut next_id, "/q/a.js", None).unwrap();
    let b = modules.get_id("/q/b.js").unwrap();
    assert_eq!(loader.resolve_import(&modules, "./b.js", main, &vec![]).unwrap(), b);
    match loader.resolve_import(&modules, "./zzz.js", main, &vec![]) {
        Err(CoreError::UnresolvedImport { specifier, importer }) => {
            assert_eq!(specifier, "./zzz.js");
            assert_eq!(importer, "/q/a.js");
        }
        _ => panic!("expected an unresolved import"),
    }
}

#[test]
fn name_map_follows_alias_chains() {
    let mut m = ModuleNameMap::new();
    m.insert("real".to_owned(), 5);
    m.alias("one".to_owned(), "real".to_owned());
    m.alias("two".to_owned(), "one".to_owned());
    assert_eq!(m.get("two"), Some(5));
    assert_eq!(m.get("real"), Some(5));
    assert!(m.is_alias("two"));
    assert!(!m.is_alias("real"));
    assert_eq!(m.get("nothing"), None);
}

#[test]
fn name_map_cycle_leads_nowhere() {
    let mut m = ModuleNameMap::new();
    m.alias("a".to_owned(), "b".to_owned());
    m.alias("b".to_owned(), "a".to_owned());
    assert_eq!(m.get("a"), None);
}

#[test]
fn status_never_moves_back() {
    let mut modules: Modules<()> = Modules::new();
    modules.register(7, "/s.js", true, (), vec![]);
    assert!(!modules.advance_status(7, ModuleStatus::Evaluated));
    assert!(modules.advance_status(7, ModuleStatus::Instantiated));
    assert!(modules.advance_status(7, ModuleStatus::Errored));
    assert!(!modules.advance_status(7, ModuleStatus::Instantiated));
    assert!(!modules.advance_status(8, ModuleStatus::Instantiated));
    assert!(modules.get_info(0).is_none());
}

#[test]
fn specifier_keeps_its_text() {
    let s = ModuleSpecifier::new("./x.js".to_owned());
    assert_eq!(s.as_str(), "./x.js");
}

#[test]
fn normalize_resolves_dots_lexically() {
    assert_eq!(normalize_path("/a/b/../c/./d.js"), "/a/c/d.js");
    assert_eq!(normalize_path("a//b/"), "a/b");
    assert_eq!(normalize_path("/.."), "/");
    assert_eq!(normalize_path("../x"), "x");
    assert_eq!(normalize_path(""), "");
}

#[test]
fn relative_specifiers_follow_the_referrer_directory() {
    assert_eq!(resolve_relative("/app/src/main.js", "./util.js"), "/app/src/util.js");
    assert_eq!(resolve_relative("/app/src/main.js", "../lib/x.js"), "/app/lib/x.js");
    assert_eq!(resolve_relative("/app/main.js", "/abs/y.js"), "/abs/y.js");
    assert_eq!(resolve_relative("main.js", "./z.js"), "z.js");
}

#[test]
fn templates_substitute_every_placeholder() {
    assert_eq!(substitute("lib/?.js", "net"), "lib/net.js");
    assert_eq!(substitute("?/?", "m"), "m/m");
    assert_eq!(substitute("plain", "m"), "plain");
}

#[test]
fn search_paths_split_on_semicolons() {
    assert_eq!(split_search_paths("a/?.js;b/?.js"), vec!["a/?.js".to_owned(), "b/?.js".to_owned()]);
    assert_eq!(split_search_paths(""), vec![String::new()]);
    assert_eq!(split_search_paths("x;"), vec!["x".to_owned(), String::new()]);
}

#[test]
fn first_existing_template_wins_and_is_remembered() {
    let mut loader = ModuleLoader::new(vec!["one/?.js".to_owned(), "two/?.js".to_owned()]);
    assert_eq!(loader.candidates("m"), vec!["one/m.js".to_owned(), "two/m.js".to_owned()]);
    let r = loader.resolve("m", None, &vec![false, true]);
    assert!(r.via_search_path);
    assert_eq!(r.path, "two/m.js");
    // remembered even when the probe no longer reports it
    let again = loader.resolve("m", None, &vec![false, false]);
    assert_eq!(again.path, "two/m.js");
    let miss = loader.resolve("n", Some("/r/main.js"), &vec![false, false]);
    assert!(!miss.via_search_path);
    assert_eq!(miss.path, "/r/n");
    let bare = loader.resolve("n", None, &vec![false, false]);
    assert_eq!(bare.path, "n");
    loader.set_search_paths("k/?.js");
    assert_eq!(loader.search_path_count(), 1);
}

#[test]
fn aborted_load_leaves_earlier_modules_alone() {
    let files = Files::new(vec![("/k/a.js", vec![]), ("/k/b.js", vec!["./a.js", "./missing.js"])]);
    let mut loader = ModuleLoader::new(vec![]);
    let mut modules = Modules::new();
    let mut next_id = 1;
    let (a, _, _) = run_load(&files, &mut loader, &mut modules, &mut next_id, "/k/a.js", None).unwrap();
    assert!(run_load(&files, &mut loader, &mut modules, &mut next_id, "/k/b.js", None).is_err());
    assert_eq!(modules.get_id("/k/a.js"), Some(a));
    assert!(modules.get_info(a).is_some());
    assert_eq!(modules.get_id("/k/b.js"), None);
}

#[test]
fn alias_replaces_what_the_specifier_named() {
    let files = Files::new(vec![("lib/y.js", vec![]), ("y", vec![])]);
    let mut loader = ModuleLoader::new(vec![]);
    let mut modules = Modules::new();
    let mut next_id = 1;
    let (plain, _, _) = run_load(&files, &mut loader, &mut modules, &mut next_id, "y", None).unwrap();
    loader.set_search_paths("lib/?.js");
    let (via, compiled, _) = run_load(&files, &mut loader, &mut modules, &mut next_id, "y", None).unwrap();
    assert_eq!(compiled, 1);
    assert_ne!(via, plain);
    assert!(modules.is_alias("y"));
    assert_eq!(modules.get_id("y"), Some(via));
}

#[test]
fn relative_requests_become_aliases_and_stay_per_directory() {
    let files = Files::new(vec![
        ("/w/main.js", vec!["./one/a.js", "./two/a.js"]),
        ("/w/one/a.js", vec!["./u.js"]),
        ("/w/two/a.js", vec!["./u.js"]),
        ("/w/one/u.js", vec![]),
        ("/w/two/u.js", vec![]),
    ]);
    let mut loader = ModuleLoader::new(vec![]);
    let mut modules = Modules::new();
    let mut next_id = 1;
    let (_, compiled, _) = run_load(&files, &mut loader, &mut modules, &mut next_id, "/w/main.js", None).unwrap();
    assert_eq!(compiled, 5);
    assert!(modules.is_alias("./one/a.js"));
    let one = modules.get_id("/w/one/u.js").unwrap();
    let two = modules.get_id("/w/two/u.js").unwrap();
    assert_ne!(one, two);
}

#[test]
fn aborted_load_puts_a_replaced_name_back() {
    let files = Files::new(vec![("/v/x.js", vec![]), ("/v/y.js", vec!["./x.js", "./gone.js"])]);
    let mut loader = ModuleLoader::new(vec![]);
    let mut modules = Modules::new();
    let mut next_id = 1;
    let (x, _, _) = run_load(&files, &mut loader, &mut modules, &mut next_id, "/v/x.js", None).unwrap();
    // an earlier name "./x.js" that stands for the module itself
    modules.alias("./x.js", "/v/x.js");
    modules.alias("./gone.js", "/v/x.js");
    assert!(run_load(&files, &mut loader, &mut modules, &mut next_id, "/v/y.js", None).is_err());
    assert_eq!(modules.get_id("./gone.js"), Some(x));
    assert_eq!(modules.get_id("./x.js"), Some(x));
    assert_eq!(modules.get_id("/v/y.js"), None);
}

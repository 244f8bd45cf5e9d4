use affected::resolver::{
    find_in_node_modules, is_relative, resolve_module, ModuleProbe, PackageProbe, ProbedPath,
    RelativeProbe, WalkedPath,
};

fn at(path: &str, exists: bool) -> ProbedPath {
    ProbedPath { path: path.to_string(), exists }
}

fn relative(is_dir: bool, joined: bool, joined_ts: bool, index: bool) -> ModuleProbe {
    ModuleProbe::Relative(RelativeProbe {
        joined: at("src/util", joined),
        joined_is_dir: is_dir,
        joined_as_ts: at("src/util.ts", joined_ts),
        index: at("src/util/index.ts", index),
        index_as_ts: at("src/util/index.ts", index),
    })
}

fn walked(path: &str, ends_with_module: bool) -> WalkedPath {
    WalkedPath { path: path.to_string(), ends_with_module }
}

#[test]
fn specifiers_that_begin_with_a_dot_segment_are_relative() {
    assert!(is_relative("./a"));
    assert!(is_relative("../a"));
    assert!(is_relative("./"));
    assert!(!is_relative("@angular/core"));
    assert!(!is_relative(".a"));
    assert!(!is_relative("..a"));
    assert!(!is_relative(""));
    assert!(!is_relative("a/./b"));
}

#[test]
fn a_relative_import_leads_to_the_file_itself() {
    let probe = relative(false, true, true, false);
    assert_eq!(resolve_module("./util", &probe), Some("src/util".to_string()));
}

#[test]
fn a_relative_import_leads_to_the_file_with_the_ts_extension() {
    let probe = relative(false, false, true, false);
    assert_eq!(resolve_module("./util", &probe), Some("src/util.ts".to_string()));
}

#[test]
fn a_relative_import_of_a_directory_leads_to_its_index() {
    let probe = relative(true, true, true, true);
    assert_eq!(resolve_module("../util", &probe), Some("src/util/index.ts".to_string()));
}

#[test]
fn a_directory_without_index_resolves_to_nothing() {
    let probe = relative(true, true, true, false);
    assert_eq!(resolve_module("./util", &probe), None);
}

#[test]
fn a_relative_import_of_nothing_resolves_to_nothing() {
    assert_eq!(resolve_module("./util", &relative(false, false, false, true)), None);
    assert_eq!(resolve_module("./util", &ModuleProbe::NoParent), None);
}

fn package(direct: bool, node_modules: bool, entries: Vec<WalkedPath>) -> ModuleProbe {
    ModuleProbe::Package(PackageProbe {
        direct: at("node_modules/uuid", direct),
        node_modules_exists: node_modules,
        walked: entries,
    })
}

#[test]
fn a_package_leads_to_its_own_place_in_node_modules() {
    let probe = package(true, true, vec![walked("node_modules/x/node_modules/uuid", true)]);
    assert_eq!(resolve_module("uuid", &probe), Some("node_modules/uuid".to_string()));
}

#[test]
fn a_package_is_searched_where_it_is_not_at_its_own_place() {
    let probe = package(
        false,
        true,
        vec![
            walked("node_modules", false),
            walked("node_modules/x", false),
            walked("node_modules/x/node_modules/uuid", true),
            walked("node_modules/y/node_modules/uuid", true),
        ],
    );
    assert_eq!(
        resolve_module("uuid", &probe),
        Some("node_modules/x/node_modules/uuid".to_string())
    );
}

#[test]
fn a_package_that_is_nowhere_resolves_to_nothing() {
    assert_eq!(resolve_module("uuid", &package(false, true, vec![walked("node_modules", false)])), None);
    assert_eq!(resolve_module("uuid", &package(false, false, vec![walked("uuid", true)])), None);
}

#[test]
fn a_probe_of_the_other_kind_tells_nothing() {
    assert_eq!(resolve_module("uuid", &relative(false, true, true, true)), None);
    assert_eq!(resolve_module("./uuid", &package(true, true, Vec::new())), None);
}

#[test]
fn the_search_takes_the_first_entry_that_ends_with_the_name() {
    let entries = vec![walked("a", false), walked("b/m", true), walked("c/m", true)];
    assert_eq!(find_in_node_modules(true, &entries), Some("b/m".to_string()));
    assert_eq!(find_in_node_modules(false, &entries), None);
    assert_eq!(find_in_node_modules(true, &Vec::new()), None);
}

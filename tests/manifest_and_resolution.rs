use gvm::commands::{
    begin_reinstall, begin_uninstall, finish_reinstall, get_binary_with_name_and_version,
    handle_use_command, is_url_installed, should_remove_parent, BinaryLookupError,
};
use gvm::config::find_config_dir;
use gvm::manifest::{BinaryManifestItem, Entry, PluginsManifest};
use gvm::resolve::{not_found_message, resolve_binary};

fn s(text: &str) -> String {
    text.to_string()
}

fn item(group: &str, name: &str, version: &str, file_name: &str) -> BinaryManifestItem {
    BinaryManifestItem {
        name: s(name),
        version: s(version),
        group: s(group),
        file_name: s(file_name),
    }
}

fn install(m: &mut PluginsManifest, url: &str, b: BinaryManifestItem) {
    m.add_binary(s(url), b);
}

fn fmt_manifest() -> PluginsManifest {
    let mut m = PluginsManifest::new();
    install(&mut m, "https://a/fmt-1.0.json", item("dprint", "fmt", "1.0", "/bins/fmt/1.0/fmt"));
    install(&mut m, "https://a/fmt-2.0.json", item("dprint", "fmt", "2.0", "/bins/fmt/2.0/fmt"));
    handle_use_command(&mut m, &s("fmt"), &s("2.0")).unwrap();
    m
}

fn is_consistent(m: &PluginsManifest) -> bool {
    let reloaded = PluginsManifest::from_entries(
        m.url_entries().iter().map(|e| e.clone()).collect(),
        m.binary_entries().iter().map(|b| b.clone()).collect(),
        m.global_entries().iter().map(|e| e.clone()).collect(),
    );
    reloaded.url_entries().len() == m.url_entries().len()
        && reloaded.global_entries().len() == m.global_entries().len()
}

#[test]
fn resolve_prefers_project_pin_over_global() {
    let m = fmt_manifest();
    let config = vec![s("https://a/fmt-1.0.json")];
    let inside = resolve_binary(&m, Some(&config), &s("fmt"));
    assert_eq!(inside.executable_path, Some(s("/bins/fmt/1.0/fmt")));
    assert!(!inside.warn_uninstalled);
    let outside = resolve_binary(&m, None, &s("fmt"));
    assert_eq!(outside.executable_path, Some(s("/bins/fmt/2.0/fmt")));
    assert!(!outside.warn_uninstalled);
}

#[test]
fn resolve_first_declared_source_wins() {
    let m = fmt_manifest();
    let config = vec![s("https://a/fmt-2.0.json"), s("https://a/fmt-1.0.json")];
    let r = resolve_binary(&m, Some(&config), &s("fmt"));
    assert_eq!(r.executable_path, Some(s("/bins/fmt/2.0/fmt")));
}

#[test]
fn resolve_warns_when_project_binary_missing() {
    let m = fmt_manifest();
    let config = vec![s("https://a/other.json")];
    let r = resolve_binary(&m, Some(&config), &s("fmt"));
    assert_eq!(r.executable_path, Some(s("/bins/fmt/2.0/fmt")));
    assert!(r.warn_uninstalled);
}

#[test]
fn resolve_no_warning_when_pin_found() {
    let m = fmt_manifest();
    let config = vec![s("https://a/other.json"), s("https://a/fmt-1.0.json")];
    let r = resolve_binary(&m, Some(&config), &s("fmt"));
    assert_eq!(r.executable_path, Some(s("/bins/fmt/1.0/fmt")));
    assert!(!r.warn_uninstalled);
}

#[test]
fn resolve_unknown_command_is_not_found() {
    let m = fmt_manifest();
    let r = resolve_binary(&m, None, &s("lint"));
    assert_eq!(r.executable_path, None);
    let empty = PluginsManifest::new();
    assert_eq!(resolve_binary(&empty, Some(&vec![]), &s("fmt")).executable_path, None);
}

#[test]
fn config_found_in_ancestor_directory() {
    let dirs = vec![vec![s("proj")]];
    let cwd = vec![s("proj"), s("sub"), s("sub2")];
    assert_eq!(find_config_dir(&cwd, &dirs), Some(1));
    let other = vec![s("other")];
    assert_eq!(find_config_dir(&other, &dirs), None);
}

#[test]
fn config_nearest_directory_wins() {
    let dirs = vec![vec![s("proj")], vec![s("proj"), s("sub")]];
    let cwd = vec![s("proj"), s("sub"), s("sub2")];
    assert_eq!(find_config_dir(&cwd, &dirs), Some(2));
    let root = vec![vec![]];
    assert_eq!(find_config_dir(&vec![s("x")], &root), Some(0));
}

#[test]
fn reinstall_keeps_one_item_and_global_status() {
    let url = s("https://a/fmt-2.0.json");
    let mut m = fmt_manifest();
    let was_global = begin_reinstall(&mut m, &url);
    assert!(was_global);
    assert!(!is_url_installed(&m, &url));
    assert!(m.get_global_binary(&s("fmt")).is_none());
    install(&mut m, &url, item("dprint", "fmt", "2.0", "/bins/fmt/2.0/fmt"));
    finish_reinstall(&mut m, &url, was_global);
    let with_name = m.get_binaries_with_name(&s("fmt"));
    assert_eq!(with_name.len(), 2);
    let same: Vec<_> = with_name.iter().filter(|b| b.version == "2.0").collect();
    assert_eq!(same.len(), 1);
    assert_eq!(m.get_global_binary(&s("fmt")).unwrap().file_name, "/bins/fmt/2.0/fmt");
    assert!(is_consistent(&m));
}

#[test]
fn reinstall_of_non_default_stays_non_default() {
    let url = s("https://a/fmt-1.0.json");
    let mut m = fmt_manifest();
    let was_global = begin_reinstall(&mut m, &url);
    assert!(!was_global);
    install(&mut m, &url, item("dprint", "fmt", "1.0", "/bins/fmt/1.0/fmt"));
    finish_reinstall(&mut m, &url, was_global);
    assert_eq!(m.get_global_binary(&s("fmt")).unwrap().version, "2.0");
}

#[test]
fn uninstall_last_version_removes_shim() {
    let mut m = fmt_manifest();
    let first = begin_uninstall(&mut m, &s("fmt"), &s("1.0")).ok().unwrap();
    assert!(!first.remove_shim);
    assert_eq!(first.group, "dprint");
    let second = begin_uninstall(&mut m, &s("fmt"), &s("2.0")).ok().unwrap();
    assert!(second.remove_shim);
    assert!(m.get_binaries_with_name(&s("fmt")).is_empty());
    assert!(is_consistent(&m));
}

#[test]
fn uninstall_clears_sources_and_default() {
    let mut m = fmt_manifest();
    begin_uninstall(&mut m, &s("fmt"), &s("2.0")).ok().unwrap();
    assert!(m.get_identifier_from_url(&s("https://a/fmt-2.0.json")).is_none());
    assert!(m.get_global_binary(&s("fmt")).is_none());
    assert!(m.get_identifier_from_url(&s("https://a/fmt-1.0.json")).is_some());
    assert!(is_consistent(&m));
}

#[test]
fn cleanup_stops_at_first_non_empty_ancestor() {
    assert!(!should_remove_parent(0, false));
    assert!(should_remove_parent(0, true));
    assert!(should_remove_parent(1, true));
    assert!(!should_remove_parent(1, false));
    assert!(!should_remove_parent(2, true));
}

#[test]
fn version_not_found_lists_sorted_versions() {
    let mut m = PluginsManifest::new();
    install(&mut m, "u2", item("g", "fmt", "2.0", "/f2"));
    install(&mut m, "u1", item("g", "fmt", "1.0", "/f1"));
    install(&mut m, "u15", item("g", "fmt", "1.5", "/f15"));
    match get_binary_with_name_and_version(&m, &s("fmt"), &s("9.0")) {
        Err(BinaryLookupError::VersionNotInstalled { name, version, installed }) => {
            assert_eq!(name, "fmt");
            assert_eq!(version, "9.0");
            assert_eq!(installed, vec![s("1.0"), s("1.5"), s("2.0")]);
        }
        _ => panic!("expected a version error"),
    }
    match get_binary_with_name_and_version(&m, &s("lint"), &s("1.0")) {
        Err(BinaryLookupError::NotInstalled { name }) => assert_eq!(name, "lint"),
        _ => panic!("expected a missing binary error"),
    }
    let found = get_binary_with_name_and_version(&m, &s("fmt"), &s("1.5")).ok().unwrap();
    assert_eq!(found.file_name, "/f15");
}

#[test]
fn use_command_sets_default_or_fails() {
    let mut m = fmt_manifest();
    handle_use_command(&mut m, &s("fmt"), &s("1.0")).unwrap();
    assert_eq!(m.get_global_binary(&s("fmt")).unwrap().version, "1.0");
    assert!(handle_use_command(&mut m, &s("fmt"), &s("3.0")).is_err());
    assert_eq!(m.get_global_binary(&s("fmt")).unwrap().version, "1.0");
    let id = m.get_binary_by_name_and_version(&s("fmt"), &s("1.0")).unwrap().get_identifier();
    assert!(m.is_global_version(&id));
}

#[test]
fn manifest_with_dangling_reference_drops_it() {
    let dangling = Entry {
        key: s("https://a/x.json"),
        identifier: item("g", "x", "1", "/x").get_identifier(),
    };
    let kept = Entry {
        key: s("https://a/y.json"),
        identifier: item("g", "y", "1", "/y").get_identifier(),
    };
    let stale_default = Entry { key: s("x"), identifier: item("g", "x", "1", "/x").get_identifier() };
    let m = PluginsManifest::from_entries(
        vec![dangling, kept],
        vec![item("g", "y", "1", "/y")],
        vec![stale_default],
    );
    assert!(m.get_identifier_from_url(&s("https://a/x.json")).is_none());
    assert!(m.get_identifier_from_url(&s("https://a/y.json")).is_some());
    assert!(m.get_global_binary(&s("x")).is_none());
    assert!(m.global_entries().is_empty());
    assert!(is_consistent(&fmt_manifest()));
    let r = resolve_binary(&m, Some(&vec![s("https://a/x.json")]), &s("x"));
    assert_eq!(r.executable_path, None);
    assert!(r.warn_uninstalled);
}

#[test]
fn same_name_and_version_in_two_groups_takes_first_stored() {
    let mut m = PluginsManifest::new();
    install(&mut m, "u1", item("alpha", "fmt", "1.0", "/alpha"));
    install(&mut m, "u2", item("beta", "fmt", "1.0", "/beta"));
    handle_use_command(&mut m, &s("fmt"), &s("1.0")).unwrap();
    assert_eq!(m.get_global_binary(&s("fmt")).unwrap().file_name, "/alpha");
    handle_use_command(&mut m, &s("fmt"), &s("1.0")).unwrap();
    assert_eq!(m.get_global_binary(&s("fmt")).unwrap().file_name, "/alpha");
    let found = get_binary_with_name_and_version(&m, &s("fmt"), &s("1.0")).ok().unwrap();
    assert_eq!(found.group, "alpha");
}

#[test]
fn version_list_repeats_a_version_per_binary() {
    let mut m = PluginsManifest::new();
    install(&mut m, "u1", item("alpha", "fmt", "9.0", "/a9"));
    install(&mut m, "u2", item("beta", "fmt", "9.0", "/b9"));
    install(&mut m, "u3", item("alpha", "fmt", "10.0", "/a10"));
    let e = get_binary_with_name_and_version(&m, &s("fmt"), &s("1.0")).err().unwrap();
    assert_eq!(
        e.message(),
        "Could not find binary 'fmt' with version '1.0'\n\nInstalled versions:\n  10.0\n  9.0\n  9.0"
    );
}

#[test]
fn remove_url_keeps_binary() {
    let mut m = fmt_manifest();
    m.remove_url(&s("https://a/fmt-1.0.json"));
    assert!(m.get_identifier_from_url(&s("https://a/fmt-1.0.json")).is_none());
    assert_eq!(m.get_binaries_with_name(&s("fmt")).len(), 2);
}

#[test]
fn lookup_error_messages() {
    let mut m = PluginsManifest::new();
    install(&mut m, "u2", item("g", "fmt", "2.0", "/f2"));
    install(&mut m, "u1", item("g", "fmt", "1.0", "/f1"));
    let missing = get_binary_with_name_and_version(&m, &s("fmt"), &s("9.0")).err().unwrap();
    assert_eq!(
        missing.message(),
        "Could not find binary 'fmt' with version '9.0'\n\nInstalled versions:\n  1.0\n  2.0"
    );
    let none = get_binary_with_name_and_version(&m, &s("lint"), &s("1.0")).err().unwrap();
    assert_eq!(none.message(), "Could not find any installed binaries named 'lint'");
}

#[test]
fn resolve_not_found_message() {
    assert_eq!(not_found_message(&s("lint")), "Could not find binary 'lint'");
}

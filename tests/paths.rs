use silo::config::choose_difftool;
use silo::helpers::IfInstalledHelper;
use silo::hooks::is_hook_file_name;
use silo::paths::{ends_with, file_name, join, parent, relative_to, starts_with};

#[test]
fn join_adds_one_separator() {
    assert_eq!(join("/home/u", "a.txt"), "/home/u/a.txt");
    assert_eq!(join("/home/u/", "a.txt"), "/home/u/a.txt");
    assert_eq!(join("", "a.txt"), "a.txt");
    assert_eq!(join("/", "etc"), "/etc");
}

#[test]
fn file_name_is_last_component() {
    assert_eq!(file_name("/repo/content/b.txt.tmpl"), "b.txt.tmpl");
    assert_eq!(file_name("b.txt"), "b.txt");
    assert_eq!(file_name("/out/linux"), "linux");
}

#[test]
fn parent_is_directory_that_holds_path() {
    assert_eq!(parent("/out/linux/b.txt"), "/out/linux");
    assert_eq!(parent("/b.txt"), "/");
    assert_eq!(parent("b.txt"), "");
}

#[test]
fn prefixes_and_suffixes() {
    assert!(ends_with("b.txt.tmpl", ".tmpl"));
    assert!(!ends_with("tmpl", ".tmpl"));
    assert!(starts_with("/repo/content", "/repo"));
    assert!(!starts_with("/re", "/repo"));
}

#[test]
fn relative_paths_go_by_components() {
    assert_eq!(relative_to("/repo/content", "/repo"), Some("content".to_string()));
    assert_eq!(relative_to("/repo", "/repo"), Some(String::new()));
    assert_eq!(relative_to("/repo/content", "/repo/"), Some("content".to_string()));
    assert_eq!(relative_to("/repository", "/repo"), None);
    assert_eq!(relative_to("a/b", ""), Some("a/b".to_string()));
}

#[test]
fn hook_scripts_are_known_by_suffix() {
    assert!(is_hook_file_name("notify.hook.lua"));
    assert!(!is_hook_file_name("notify.lua"));
    assert!(!is_hook_file_name("hook.lua.bak"));
}

#[test]
fn difftool_preference_order() {
    assert_eq!(choose_difftool(true, true), "difft");
    assert_eq!(choose_difftool(false, true), "delta");
    assert_eq!(choose_difftool(false, false), "diff");
}

#[test]
fn if_installed_renders_by_polarity() {
    let positive = IfInstalledHelper { positive: true };
    let negative = IfInstalledHelper { positive: false };
    assert!(positive.renders_block(true));
    assert!(!positive.renders_block(false));
    assert!(negative.renders_block(false));
    assert!(!negative.renders_block(true));
}

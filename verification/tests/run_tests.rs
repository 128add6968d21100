use seela::config::{expand_path, expand_path_in, Folders, Locations};
use seela::run::{confirm_accepted, git_marker, record_project, settle_probe, ScanRules, Visit};

fn rules(search: &[&str], exclude: &[&str]) -> ScanRules {
    ScanRules {
        search_dirs: search.iter().map(|s| s.to_string()).collect(),
        exclude_paths: exclude.iter().map(|s| s.to_string()).collect(),
        force_include: vec![],
    }
}

#[test]
fn the_longest_rule_decides_exclusion() {
    let r = rules(&["/w", "/w/archive/keep"], &["/w/archive"]);
    assert!(!r.is_excluded("/w/app"));
    assert!(r.is_excluded("/w/archive"));
    assert!(r.is_excluded("/w/archive/old"));
    assert!(!r.is_excluded("/w/archive/keep"));
    assert!(!r.is_excluded("/w/archive/keep/x"));
}

#[test]
fn a_search_dir_as_long_as_the_exclude_rule_wins() {
    let r = rules(&["/w/a"], &["/w/a"]);
    assert!(!r.is_excluded("/w/a/x"));
}

#[test]
fn an_empty_exclude_rule_excludes_nothing() {
    let r = rules(&[], &[""]);
    assert!(!r.is_excluded("x"));
}

#[test]
fn visit_decides_what_the_walk_does() {
    let r = rules(&["/w", "/w/archive/keep"], &["/w/archive"]);
    assert_eq!(r.visit("/w/file.txt", false), Visit::Ignore);
    assert_eq!(r.visit("/w/app", true), Visit::Probe);
    assert_eq!(r.visit("/w/archive/old", true), Visit::Prune);
    assert_eq!(r.visit("/w/archive", true), Visit::Descend);
}

#[test]
fn scan_rules_expand_the_folders() {
    let folders = Folders {
        search_dirs: vec!["/w".to_string()],
        force_include: None,
        exclude_paths: Some(vec!["/w/x".to_string()]),
    };
    let r = ScanRules::from_folders(&folders);
    assert_eq!(r.search_dirs, vec!["/w"]);
    assert_eq!(r.exclude_paths, vec!["/w/x"]);
    assert!(r.force_include.is_empty());
}

#[test]
fn expand_path_replaces_a_leading_tilde() {
    assert_eq!(expand_path("/abs/path"), "/abs/path");
    if let Some(home) = dirs::home_dir() {
        let home = home.to_string_lossy().to_string();
        assert_eq!(expand_path("~/projects"), format!("{home}/projects"));
        assert_eq!(expand_path("~"), home);
    }
}

#[test]
fn expand_path_makes_relative_paths_absolute() {
    for (input, tail) in [("projects/app", "/projects/app"), ("~user/x", "/~user/x"), ("a/~/b", "/a/~/b")] {
        let r = expand_path(input);
        assert!(r.starts_with('/'), "{r}");
        assert!(r.ends_with(tail), "{r}");
    }
    assert_eq!(expand_path(""), "");
}

fn at(home: Option<&str>, current: Option<&str>) -> Locations {
    Locations { home: home.map(|s| s.to_string()), current: current.map(|s| s.to_string()) }
}

#[test]
fn expansion_uses_the_given_home_and_current_directory() {
    let l = at(Some("/h"), Some("/w"));
    assert_eq!(expand_path_in("~/p", &l), "/h/p");
    assert_eq!(expand_path_in("~", &l), "/h");
    assert_eq!(expand_path_in("/x/y", &l), "/x/y");
    assert_eq!(expand_path_in("a/b", &l), "/w/a/b");
    assert_eq!(expand_path_in("~u/x", &l), "/w/~u/x");
    assert_eq!(expand_path_in("", &l), "");
    assert_eq!(expand_path_in("~/p", &at(None, Some("/w/"))), "/w/~/p");
    assert_eq!(expand_path_in("a", &at(Some("/h"), None)), "a");
    assert_eq!(expand_path_in("~/p", &at(Some("h"), Some("/w"))), "/w/h/p");
}

#[test]
fn scan_rules_expand_every_list_at_one_place() {
    let folders = Folders {
        search_dirs: vec!["~/code".to_string(), "src".to_string()],
        exclude_paths: Some(vec!["~/code/old".to_string()]),
        force_include: None,
    };
    let r = ScanRules::from_folders_at(&folders, &at(Some("/h"), Some("/w")));
    assert_eq!(r.search_dirs, vec!["/h/code", "/w/src"]);
    assert_eq!(r.exclude_paths, vec!["/h/code/old"]);
    assert!(r.force_include.is_empty());
}

#[test]
fn locations_read_an_absolute_current_directory() {
    let l = Locations::read();
    if let Some(c) = &l.current {
        assert!(c.starts_with('/'));
    }
}

#[test]
fn a_probed_directory_with_git_is_recorded_and_pruned() {
    let mut projects = vec!["/w/a".to_string()];
    assert_eq!(settle_probe(&mut projects, "/w/b".to_string(), true), Visit::Prune);
    assert_eq!(projects, vec!["/w/a", "/w/b"]);
    assert_eq!(settle_probe(&mut projects, "/w/a/".to_string(), true), Visit::Prune);
    assert_eq!(projects, vec!["/w/a", "/w/b"]);
    assert_eq!(settle_probe(&mut projects, "/w/c".to_string(), false), Visit::Descend);
    assert_eq!(projects, vec!["/w/a", "/w/b"]);
}

#[test]
fn record_project_keeps_each_path_once() {
    let mut projects = Vec::new();
    assert!(record_project(&mut projects, "/w/a".to_string()));
    assert!(record_project(&mut projects, "/w/b".to_string()));
    assert!(!record_project(&mut projects, "/w/a/".to_string()));
    assert!(!record_project(&mut projects, "/w/a".to_string()));
    assert_eq!(projects, vec!["/w/a", "/w/b"]);
}

#[test]
fn git_marker_is_inside_the_directory() {
    assert_eq!(git_marker("/w/a"), "/w/a/.git");
    assert_eq!(git_marker("/w/a/"), "/w/a/.git");
}

#[test]
fn confirmation_defaults_to_yes() {
    assert!(confirm_accepted("\n"));
    assert!(confirm_accepted(""));
    assert!(confirm_accepted("y\n"));
    assert!(confirm_accepted("Y"));
    assert!(confirm_accepted("  yes  "));
    assert!(confirm_accepted("YeS\n"));
    assert!(confirm_accepted("\u{3000}yes"));
}

#[test]
fn confirmation_refuses_anything_else() {
    assert!(!confirm_accepted("n"));
    assert!(!confirm_accepted("no"));
    assert!(!confirm_accepted("ye"));
    assert!(!confirm_accepted("yess"));
    assert!(!confirm_accepted("y y"));
}

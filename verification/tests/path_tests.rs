use seela::path::{component_count, component_strings, file_name, join, path_starts_with, paths_equal};

#[test]
fn components_follow_std_path() {
    for p in ["/a/b", "a//b/", "./a/./b", ".", "/", "a/../b", "", "//x", "./", "a/."] {
        let std: Vec<String> = std::path::Path::new(p)
            .components()
            .map(|c| c.as_os_str().to_string_lossy().to_string())
            .collect();
        assert_eq!(component_strings(p), std, "{p}");
    }
    assert_eq!(component_count("/home/u/projects"), 4);
}

#[test]
fn path_equality_ignores_repeated_and_trailing_slashes() {
    assert!(paths_equal("/home/u/projects/", "/home/u//projects"));
    assert!(paths_equal("a/./b", "a/b"));
    assert!(!paths_equal("/a/b", "a/b"));
    assert!(!paths_equal("/a/b", "/a/b/c"));
}

#[test]
fn starts_with_is_by_whole_components() {
    assert!(path_starts_with("/home/u/projects/rust/app", "/home/u/projects"));
    assert!(path_starts_with("/home/u/projects", "/home/u/projects"));
    assert!(!path_starts_with("/home/u/projects2/app", "/home/u/projects"));
    assert!(!path_starts_with("/home/u", "/home/u/projects"));
    assert!(path_starts_with("/x", "/"));
}

#[test]
fn file_name_is_the_last_normal_component() {
    assert_eq!(file_name("/home/u/my.app"), Some("my.app".to_string()));
    assert_eq!(file_name("/home/u/app/"), Some("app".to_string()));
    assert_eq!(file_name("a/."), Some("a".to_string()));
    assert_eq!(file_name("/"), None);
    assert_eq!(file_name("a/.."), None);
    assert_eq!(file_name("."), None);
    assert_eq!(file_name(""), None);
}

#[test]
fn join_follows_path_join() {
    for (b, r) in [("/a", "b"), ("/a/", "b"), ("", "b"), ("/a", "/b"), ("a", "seela/config.toml")] {
        let std = std::path::Path::new(b).join(r).to_string_lossy().to_string();
        assert_eq!(join(b, r), std, "{b} {r}");
    }
}

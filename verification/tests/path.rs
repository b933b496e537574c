use wezterm_git_status_bridge::path::{
    config_parent, join_path, parent_or_current, repo_name, repo_name_from, same_path,
};

#[test]
fn joins_like_pathbuf() {
    assert_eq!(join_path("/a", "b"), "/a/b");
    assert_eq!(join_path("/a/", "b"), "/a/b");
    assert_eq!(join_path("", "b"), "b");
    assert_eq!(join_path("/a", "/b"), "/b");
    assert_eq!(join_path("/a", ".config/wezterm"), "/a/.config/wezterm");
}

#[test]
fn parents_and_names() {
    assert_eq!(config_parent("/t/custom/wezterm.lua"), Some("/t/custom".to_owned()));
    assert_eq!(config_parent("wezterm.lua"), Some(".".to_owned()));
    assert_eq!(config_parent("/"), None);
    assert_eq!(parent_or_current(Some(String::new())), Some(".".to_owned()));
    assert_eq!(parent_or_current(None), None);
    assert_eq!(repo_name("/work/project"), "project");
    assert_eq!(repo_name("/work/project/"), "project");
    assert_eq!(repo_name("/"), "/");
    assert_eq!(repo_name_from("/x/..", None), "/x/..");
    assert_eq!(repo_name_from("/x/y", Some("y".to_owned())), "y");
}

#[test]
fn paths_compare_by_components() {
    assert!(same_path("/a/b/", "/a/b"));
    assert!(same_path("/a//b", "/a/./b"));
    assert!(same_path("./a", "./a/"));
    assert!(same_path("a/./b", "a/b"));
    assert!(!same_path("/a", "a"));
    assert!(!same_path("./a", "a"));
    assert!(!same_path("a/../b", "b"));
    assert!(!same_path("/a/b", "/a/c"));
}

use wezterm_git_status_bridge::cache::{
    cache_files, cwd_cache_key, default_cache_dir_from, fnv1a32_hex, focused_file,
    focused_matches, focused_pane_id_in, sanitize_pane_id,
};
use wezterm_git_status_bridge::Payload;

#[test]
fn cwd_cache_key_is_stable_for_path() {
    assert_eq!(cwd_cache_key("/repo"), "81f9fa62");
    assert_eq!(cwd_cache_key("/repo"), cwd_cache_key("/repo"));
    assert_ne!(cwd_cache_key("/repo"), cwd_cache_key("/other"));
}

#[test]
fn fnv_hash_of_empty_text_is_the_offset_basis() {
    assert_eq!(fnv1a32_hex(""), "811c9dc5");
    assert_eq!(fnv1a32_hex("a"), "e40c292c");
    let key = cwd_cache_key("/home/user/ünïcode");
    assert_eq!(key.len(), 8);
    assert!(key.chars().all(|c| c.is_ascii_hexdigit() && !c.is_ascii_uppercase()));
}

#[test]
fn uses_safe_file_name_for_empty_or_dot_only_pane_id() {
    assert_eq!(sanitize_pane_id(".."), "_");
}

#[test]
fn pane_ids_become_safe_file_names() {
    assert_eq!(sanitize_pane_id("w1/p1"), "w1_p1");
    assert_eq!(sanitize_pane_id("w1:p1"), "w1:p1");
    assert_eq!(sanitize_pane_id("."), "_");
    assert_eq!(sanitize_pane_id(""), "_");
    assert_eq!(sanitize_pane_id("/"), "_");
    assert_eq!(sanitize_pane_id("..."), "_");
    assert_eq!(sanitize_pane_id("./"), "._");
}

#[test]
fn reads_focused_pane_id_from_valid_payload_text() {
    assert_eq!(
        focused_pane_id_in("herdrgit1\t123\tw1:p1\t/repo\t0\t\t\t\n"),
        Some("w1:p1".to_owned())
    );
    assert_eq!(focused_pane_id_in("invalid\t123\tw1:p1\t/repo\t0\t\t\t\n"), None);
    assert_eq!(focused_pane_id_in(""), None);
    assert_eq!(focused_pane_id_in("herdrgit1\t123"), None);
    assert_eq!(focused_pane_id_in("herdrgit1\t123\t\r\n"), Some(String::new()));
    assert_eq!(
        focused_pane_id_in("herdrgit1\t1\tpane\r\nsecond"),
        Some("pane".to_owned())
    );
}

#[test]
fn focused_payload_reads_back_its_pane() {
    let payload = Payload {
        at: 123,
        pane_id: "w1:p1".to_owned(),
        cwd: "/re\npo".to_owned(),
        repository: None,
    };
    let line = payload.encode_line();
    assert_eq!(focused_pane_id_in(&line), Some("w1:p1".to_owned()));
    assert!(focused_matches(Some(&line), "w1:p1"));
    assert!(!focused_matches(Some(&line), "w1:p2"));
    assert!(!focused_matches(None, "w1:p1"));
}

#[test]
fn cache_dir_prefers_xdg_then_home() {
    assert_eq!(default_cache_dir_from(Some("/x"), Some("/h")), "/x/wezterm");
    assert_eq!(default_cache_dir_from(Some("/x/"), None), "/x/wezterm");
    assert_eq!(default_cache_dir_from(None, Some("/h")), "/h/.cache/wezterm");
    assert_eq!(default_cache_dir_from(None, None), "./wezterm");
    assert_eq!(default_cache_dir_from(Some(""), Some("/h")), "wezterm");
}

#[test]
fn cache_files_sit_under_the_cache_directory() {
    let files = cache_files("/c/wezterm", "%1/2", "/repo");
    assert_eq!(files.global, "/c/wezterm/herdr-git-info");
    assert_eq!(files.pane_dir, "/c/wezterm/herdr-git-info-by-pane");
    assert_eq!(files.pane, "/c/wezterm/herdr-git-info-by-pane/%1_2");
    assert_eq!(files.cwd_dir, "/c/wezterm/herdr-git-info-by-cwd");
    assert_eq!(files.cwd, "/c/wezterm/herdr-git-info-by-cwd/81f9fa62");
    assert_eq!(files.focused, "/c/wezterm/herdr-git-info-focused");
    assert_eq!(focused_file("/c/wezterm/"), "/c/wezterm/herdr-git-info-focused");
    assert_eq!(cache_files("/c", "..", "/repo").pane, "/c/herdr-git-info-by-pane/_");
}

#[test]
fn panes_in_one_directory_share_its_file_only() {
    let a = cache_files("/c", "w1:p1", "/repo");
    let b = cache_files("/c", "w1:p2", "/repo");
    assert_eq!(a.cwd, b.cwd);
    assert_ne!(a.pane, b.pane);
    let slash = cache_files("/c", "w1/p1", "/repo");
    let underscore = cache_files("/c", "w1_p1", "/repo");
    assert_eq!(slash.pane, underscore.pane);
}

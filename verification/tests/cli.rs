use tempfile::TempDir;
use wezterm_git_status_bridge::cli::{resolve_update_context, rewrites_focused, CacheWrite, CliError};
use wezterm_git_status_bridge::event::PaneContext;
use wezterm_git_status_bridge::UpdateArgs;

fn resolve_context(args: &UpdateArgs) -> Result<Option<PaneContext>, CliError> {
    Ok(resolve_update_context(args, None)?.map(|resolved| resolved.context))
}

#[test]
fn event_json_context_is_used() {
    let context = resolve_context(&UpdateArgs {
        event_json: Some(r#"{"pane":{"pane_id":"w1:p1","cwd":"/from-event"}}"#.to_owned()),
        ..UpdateArgs::default()
    })
    .expect("resolve context")
    .expect("context");

    assert_eq!(context.pane_id, "w1:p1");
    assert_eq!(context.cwd, "/from-event");
}

#[test]
fn returns_none_without_context_input() {
    let context = resolve_context(&UpdateArgs::default()).expect("resolve context");

    assert_eq!(context, None);
}

#[test]
fn rejects_pane_id_without_cwd() {
    let error = resolve_context(&UpdateArgs {
        pane_id: Some("w1:p1".to_owned()),
        ..UpdateArgs::default()
    })
    .expect_err("partial context should fail");

    assert!(matches!(error, CliError::PartialExplicitContext));
}

#[test]
fn rejects_cwd_without_pane_id() {
    let cwd = TempDir::new().expect("create cwd");

    let error = resolve_context(&UpdateArgs {
        cwd: Some(cwd.path().to_string_lossy().into_owned()),
        ..UpdateArgs::default()
    })
    .expect_err("partial context should fail");

    assert!(matches!(error, CliError::PartialExplicitContext));
}

#[test]
fn explicit_context_wins_and_events_go_to_the_focused_cache() {
    let explicit = resolve_update_context(
        &UpdateArgs {
            pane_id: Some("w1:p1".to_owned()),
            cwd: Some("/dir".to_owned()),
            event_json: Some("{broken".to_owned()),
            ..UpdateArgs::default()
        },
        Some(r#"{"pane_id":"env","cwd":"/env"}"#),
    )
    .expect("resolve")
    .expect("context");
    assert_eq!(explicit.context.pane_id, "w1:p1");
    assert_eq!(explicit.cache_write, CacheWrite::Default);

    let from_env = resolve_update_context(&UpdateArgs::default(), Some(r#"{"pane_id":"env","cwd":"/env"}"#))
        .expect("resolve")
        .expect("context");
    assert_eq!(from_env.context.pane_id, "env");
    assert_eq!(from_env.cache_write, CacheWrite::HerdrFocused);

    let arg_without_pane = resolve_update_context(
        &UpdateArgs { event_json: Some("{}".to_owned()), ..UpdateArgs::default() },
        Some(r#"{"pane_id":"env","cwd":"/env"}"#),
    )
    .expect("resolve")
    .expect("context");
    assert_eq!(arg_without_pane.context.pane_id, "env");

    let bad = resolve_update_context(
        &UpdateArgs { event_json: Some("{broken".to_owned()), ..UpdateArgs::default() },
        None,
    );
    assert!(matches!(bad, Err(CliError::Event(_))));
}

#[test]
fn focus_updates_always_rewrite_the_focused_file() {
    let focused = "herdrgit1\t1\t%7\t/repo\n";
    assert!(rewrites_focused(CacheWrite::HerdrFocused, None, "%1"));
    assert!(rewrites_focused(CacheWrite::HerdrFocused, Some(focused), "%1"));
    assert!(rewrites_focused(CacheWrite::Default, Some(focused), "%7"));
    assert!(!rewrites_focused(CacheWrite::Default, Some(focused), "%1"));
    assert!(!rewrites_focused(CacheWrite::Default, None, "%7"));
}

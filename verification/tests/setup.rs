use wezterm_git_status_bridge::setup::{
    append_block, lua_string, marked_block, new_wezterm_config, replace_marked_block,
    setup_plan, shell_single_quote, upsert_kitty_conf_text, upsert_lua_block,
    upsert_wezterm_config_text,
    upsert_zsh_hook_text, wezterm_block, zsh_hook_block, SETUP_BEGIN, SETUP_END, SHELL_BEGIN,
    SHELL_END,
};
use wezterm_git_status_bridge::{SetupArgs, TerminalArgs};

#[test]
fn inserts_lua_block_before_return() {
    let updated = upsert_lua_block("local config = {}\nreturn config\n", "BLOCK");

    assert_eq!(updated, "local config = {}\nBLOCK\nreturn config\n");
}

#[test]
fn replaces_existing_lua_block() {
    let updated = upsert_lua_block(
        "local config = {}\n-- wezterm-git-status-bridge setup begin\nOLD\n-- wezterm-git-status-bridge setup end\nreturn config\n",
        "NEW",
    );

    assert_eq!(updated, "local config = {}\nNEW\nreturn config\n");
}

#[test]
fn appends_shell_block_with_spacing() {
    let updated = append_block("export PATH=$HOME/bin\n", "BLOCK");

    assert_eq!(updated, "export PATH=$HOME/bin\n\nBLOCK\n");
}

#[test]
fn markers_do_not_overlap() {
    assert_ne!(SETUP_BEGIN, SHELL_BEGIN);
    assert!(SETUP_END.contains("setup end"));
}

#[test]
fn appends_to_empty_text_and_keeps_the_last_return() {
    assert_eq!(append_block("\n\n", "B"), "B\n");
    assert_eq!(
        upsert_lua_block("return a\nx\n  return b\n", "B"),
        "return a\nx\nB\n  return b\n"
    );
    assert_eq!(upsert_lua_block("x", "B"), "x\nB\n");
    assert_eq!(upsert_lua_block("", "B"), "B\n");
}

#[test]
fn quotes_paths_for_lua_and_shell() {
    assert_eq!(lua_string("/a\\b\"c"), "\"/a\\\\b\\\"c\"");
    assert_eq!(shell_single_quote("/it's"), "'/it'\"'\"'s'");
}

#[test]
fn replacing_twice_keeps_the_latest_block() {
    let current = "head\n\n\n# wezterm-git-status-bridge setup begin\nold\n# wezterm-git-status-bridge setup end\n\ntail";
    let first = zsh_hook_block("/bin/one", false);
    let second = zsh_hook_block("/bin/two", false);
    let once = replace_marked_block(current, SHELL_BEGIN, SHELL_END, &first).expect("marked");
    assert_eq!(once, format!("head\n{first}\ntail\n"));
    let twice = replace_marked_block(&once, SHELL_BEGIN, SHELL_END, &second).expect("marked");
    let direct = replace_marked_block(current, SHELL_BEGIN, SHELL_END, &second).expect("marked");
    assert_eq!(twice, direct);
    let again = replace_marked_block(&once, SHELL_BEGIN, SHELL_END, &first).expect("marked");
    assert_eq!(again, once);
    assert_eq!(replace_marked_block("no markers", SHELL_BEGIN, SHELL_END, "B"), None);
}

#[test]
fn zsh_hook_block_runs_update_for_the_pane() {
    let block = zsh_hook_block("/usr/bin/bridge", false);
    assert!(block.starts_with(SHELL_BEGIN));
    assert!(block.ends_with(SHELL_END));
    assert!(block.contains("'/usr/bin/bridge' update --pane-id"));
    assert!(block.contains("add-zsh-hook chpwd"));
    assert!(block.contains("add-zsh-hook precmd"));
    assert!(block.contains("--cwd \"$PWD\""));
    assert!(!block.contains("pane list"));
    assert!(!block.contains("--event-json"));
}

#[test]
fn zshrc_gets_the_hook_once() {
    let fresh = upsert_zsh_hook_text(None, "/b", false);
    assert_eq!(fresh, format!("{}\n", zsh_hook_block("/b", false)));
    let appended = upsert_zsh_hook_text(Some("export A=1\n"), "/b", false);
    assert_eq!(appended, format!("export A=1\n\n{}\n", zsh_hook_block("/b", false)));
    let rerun = upsert_zsh_hook_text(Some(&fresh), "/c", false);
    assert_eq!(rerun, format!("{}\n", zsh_hook_block("/c", false)));
    assert_eq!(upsert_zsh_hook_text(Some(&rerun), "/c", false), rerun);
}

#[test]
fn new_config_holds_the_block() {
    let block = wezterm_block(false, "/bin/bridge");
    assert_eq!(
        block,
        "-- wezterm-git-status-bridge setup begin\nlocal git_status = require(\"right-status\")\ngit_status.setup({\n  binary_path = \"/bin/bridge\",\n})\n-- wezterm-git-status-bridge setup end"
    );
    let config = upsert_wezterm_config_text(None, false, "/bin/bridge");
    assert_eq!(config, new_wezterm_config(&block));
    assert!(config.contains("git_status.setup({"));
    assert!(config.contains("return config"));
    let herdr = wezterm_block(true, "/bin/bridge");
    assert!(herdr.contains("  auto_update = false,\n  binary_path"));
}

#[test]
fn rerun_preserves_custom_lua_options() {
    let current = r##"local config = {}
-- wezterm-git-status-bridge setup begin
local git_status = require("right-status")
git_status.setup({
  auto_update = true,
  binary_path = "/old/bin/wezterm-git-status-bridge",
  separator = "}",
  time_format = "function %H end",
  -- }) function end
  on_reload = function(window, pane)
    window:set_config_overrides({
      colors = {
        tab_bar = { background = "#1f2335" },
      },
    })
    window:set_right_status("mode")
  end,
  mode_styles = {
    resize = { label = "RESIZE", bg = "#7aa2f7", fg = "#1f2335" },
  },
})
-- wezterm-git-status-bridge setup end
return config
"##;
    let config = upsert_wezterm_config_text(Some(current), true, "/new/bin/bridge");
    assert!(config.contains("auto_update = false"));
    assert!(config.contains("separator = \"}\""));
    assert!(config.contains("time_format = \"function %H end\""));
    assert!(config.contains("window:set_config_overrides({"));
    assert!(config.contains("tab_bar = { background = \"#1f2335\""));
    assert!(config.contains("mode_styles = {"));
    assert!(config.contains("resize = { label = \"RESIZE\""));
    assert!(config.contains("on_reload = function(window, pane)"));
    assert!(config.contains("window:set_right_status(\"mode\")"));
    assert!(config.contains("binary_path = \"/new/bin/bridge\""));
    assert!(!config.contains("/old/bin/wezterm-git-status-bridge"));
    assert!(config.starts_with("local config = {}\n-- wezterm-git-status-bridge setup begin\n"));
    assert!(config.ends_with("-- wezterm-git-status-bridge setup end\nreturn config\n"));
    let again = upsert_wezterm_config_text(Some(&config), true, "/new/bin/bridge");
    assert_eq!(again, config);
}

#[test]
fn marked_block_spans_begin_to_end() {
    assert_eq!(marked_block("a BEGIN x END b", "BEGIN", "END"), Some("BEGIN x END".to_owned()));
    assert_eq!(marked_block("a END BEGIN x", "BEGIN", "END"), None);
}

#[test]
fn setup_plan_places_files() {
    let plan = setup_plan(&SetupArgs::default(), "/home/u");
    let wezterm = plan.wezterm.expect("wezterm by default");
    assert_eq!(wezterm.config_file, "/home/u/.config/wezterm/wezterm.lua");
    assert_eq!(wezterm.dir, "/home/u/.config/wezterm");
    assert_eq!(wezterm.right_status_file, "/home/u/.config/wezterm/right-status.lua");
    assert!(plan.kitty.is_none());
    assert_eq!(plan.herdr_plugin_dir, None);
    assert_eq!(plan.zshrc, None);
    assert_eq!(plan.herdr_bin, "herdr");

    let custom = setup_plan(
        &SetupArgs {
            wezterm_config_file: Some("/t/custom/wezterm.lua".to_owned()),
            herdr: true,
            ..SetupArgs::default()
        },
        "/home/u",
    );
    assert_eq!(custom.herdr_plugin_dir, Some("/t/custom/herdr-plugin".to_owned()));
    assert_eq!(custom.zshrc, Some("/home/u/.zshrc".to_owned()));

    let bare = setup_plan(
        &SetupArgs {
            wezterm_config_file: Some("wezterm.lua".to_owned()),
            herdr: true,
            no_shell_hook: true,
            ..SetupArgs::default()
        },
        "/home/u",
    );
    assert_eq!(bare.wezterm.expect("wezterm").dir, ".");
    assert_eq!(bare.zshrc, None);
}

#[test]
fn setup_config_file_places_lua_next_to_config() {
    let plan = setup_plan(
        &SetupArgs {
            wezterm_config_file: Some("/t/custom/wezterm.lua".to_owned()),
            ..SetupArgs::default()
        },
        "/t",
    );

    let wezterm = plan.wezterm.expect("wezterm");
    assert_eq!(wezterm.dir, "/t/custom");
    assert_eq!(wezterm.right_status_file, "/t/custom/right-status.lua");
    assert_ne!(wezterm.right_status_file, "/t/.config/wezterm/right-status.lua");
}

#[test]
fn first_insertion_leaves_one_block_that_reruns_keep() {
    let block = wezterm_block(false, "/bin/bridge");
    let current = "local config = {}\n\n\nreturn config\n";
    let first = upsert_lua_block(current, &block);
    assert_eq!(first.matches(SETUP_BEGIN).count(), 1);
    assert!(first.contains(&block));
    assert!(first.ends_with('\n'));
    let second = upsert_lua_block(&first, &block);
    assert_eq!(second, format!("local config = {{}}\n{block}\nreturn config\n"));
    assert_eq!(upsert_lua_block(&second, &block), second);
    assert_eq!(second.matches(SETUP_BEGIN).count(), 1);
}

#[test]
fn kitty_setup_plans_kitty_files_and_the_hook() {
    let kitty_only = SetupArgs {
        terminal: TerminalArgs { wezterm: false, kitty: true },
        ..SetupArgs::default()
    };
    let plan = setup_plan(&kitty_only, "/home/u");
    assert!(plan.wezterm.is_none());
    let kitty = plan.kitty.expect("kitty");
    assert_eq!(kitty.config_file, "/home/u/.config/kitty/kitty.conf");
    assert_eq!(kitty.dir, "/home/u/.config/kitty");
    assert_eq!(kitty.tab_bar_file, "/home/u/.config/kitty/tab_bar.py");
    assert_eq!(plan.zshrc, Some("/home/u/.zshrc".to_owned()));
    assert_eq!(plan.herdr_plugin_dir, None);

    let with_herdr = setup_plan(
        &SetupArgs { herdr: true, no_shell_hook: true, ..kitty_only.clone() },
        "/home/u",
    );
    assert_eq!(with_herdr.herdr_plugin_dir, Some("/home/u/.config/kitty/herdr-plugin".to_owned()));
    assert_eq!(with_herdr.zshrc, Some("/home/u/.zshrc".to_owned()));

    let both = setup_plan(
        &SetupArgs {
            terminal: TerminalArgs { wezterm: true, kitty: true },
            kitty_config_file: Some("/k/kitty.conf".to_owned()),
            herdr: true,
            ..SetupArgs::default()
        },
        "/home/u",
    );
    assert!(both.wezterm.is_some());
    let kitty = both.kitty.expect("kitty");
    assert_eq!(kitty.dir, "/k");
    assert_eq!(kitty.tab_bar_file, "/k/tab_bar.py");
    assert_eq!(both.herdr_plugin_dir, Some("/home/u/.config/wezterm/herdr-plugin".to_owned()));

    let wezterm_flag = setup_plan(
        &SetupArgs { terminal: TerminalArgs { wezterm: true, kitty: false }, ..SetupArgs::default() },
        "/home/u",
    );
    assert!(wezterm_flag.wezterm.is_some() && wezterm_flag.kitty.is_none());
    assert_eq!(wezterm_flag.zshrc, None);
}

#[test]
fn kitty_hook_keys_writes_by_window() {
    let block = zsh_hook_block("/b", true);
    assert!(block.contains(
        "update --pane-id \"${KITTY_WINDOW_ID:+kitty-}${KITTY_WINDOW_ID:-${WEZTERM_PANE:-shell}}\" --cwd"
    ));
    assert!(!zsh_hook_block("/b", false).contains("KITTY_WINDOW_ID"));
    let zshrc = upsert_zsh_hook_text(None, "/b", true);
    assert_eq!(zshrc, format!("{block}\n"));
}

#[test]
fn kitty_conf_turns_on_the_custom_tab_bar_once() {
    let fresh = upsert_kitty_conf_text(None);
    assert_eq!(
        fresh,
        "# wezterm-git-status-bridge setup begin\ntab_bar_style custom\ntab_bar_min_tabs 1\n# wezterm-git-status-bridge setup end\n"
    );
    let appended = upsert_kitty_conf_text(Some("font_size 12\n"));
    assert_eq!(appended, format!("font_size 12\n\n{fresh}"));
    let rerun = upsert_kitty_conf_text(Some(&appended));
    assert_eq!(rerun, format!("font_size 12\n{fresh}"));
    assert_eq!(upsert_kitty_conf_text(Some(&rerun)), rerun);
}

use wezterm_git_status_bridge::lua::{count_lua_word, lua_code_for_nesting, LuaNesting};
use wezterm_git_status_bridge::options::{
    is_managed_setup_option, preserved_setup_options, setup_table_end, top_level_option_key,
    trim_blank_edges,
};

#[test]
fn code_drops_comments_and_blanks_strings() {
    let mut level = None;
    assert_eq!(lua_code_for_nesting("a = \"}\" -- }", &mut level), "a =   ");
    assert_eq!(level, None);
    assert_eq!(lua_code_for_nesting("x = 'a\\'b' }", &mut level), "x =   }");
    assert_eq!(lua_code_for_nesting("s = [==[ {", &mut level), "s =  ");
    assert_eq!(level, Some(2));
    assert_eq!(lua_code_for_nesting("still ]] inside ]==] {", &mut level), " {");
    assert_eq!(level, None);
    assert_eq!(lua_code_for_nesting("--[[ comment", &mut level), "");
    assert_eq!(level, Some(0));
    assert_eq!(lua_code_for_nesting("]] end", &mut level), " end");
    assert_eq!(level, None);
    assert_eq!(lua_code_for_nesting("é = \"unterminated", &mut level), "é =  ");
}

#[test]
fn counts_whole_words_only() {
    assert_eq!(count_lua_word("function() end end", "end"), 2);
    assert_eq!(count_lua_word("endless ends append", "end"), 0);
    assert_eq!(count_lua_word("x=function(a)end", "function"), 1);
    assert_eq!(count_lua_word("", "end"), 0);
    assert_eq!(count_lua_word("a  b", ""), 1);
}

#[test]
fn nesting_follows_tables_and_functions() {
    let mut nesting = LuaNesting::setup_table();
    assert!(nesting.is_setup_table_top_level());
    nesting.update("  on_reload = function(window)");
    assert!(!nesting.is_setup_table_top_level());
    nesting.update("  end,");
    assert!(nesting.is_setup_table_top_level());
    nesting.update("})");
    assert!(nesting.is_setup_table_closed());
    nesting.update("}}}}");
    assert_eq!(nesting.table_depth, 0);
}

#[test]
fn reads_option_keys() {
    assert_eq!(top_level_option_key("  auto_update = true,"), Some("auto_update".to_owned()));
    assert_eq!(top_level_option_key("a==b"), Some("a".to_owned()));
    assert_eq!(top_level_option_key("_x1 =1"), Some("_x1".to_owned()));
    assert_eq!(top_level_option_key("1x = 2"), None);
    assert_eq!(top_level_option_key("call(x)"), None);
    assert_eq!(top_level_option_key("   "), None);
    assert!(is_managed_setup_option("binary_path = \"/x\","));
    assert!(!is_managed_setup_option("binary_paths = 1"));
}

#[test]
fn finds_the_end_of_the_setup_table() {
    let lines: Vec<String> = ["git_status.setup({", "  a = {", "  },", "})", "after"]
        .iter()
        .map(|l| l.to_string())
        .collect();
    assert_eq!(setup_table_end(&lines, 0), Some(3));
    assert_eq!(setup_table_end(&lines, 3), None);
}

#[test]
fn keeps_options_but_managed_ones() {
    let block = "x\ngit_status.setup({\n\n  auto_update = true,\n  separator = \" \",\n  nested = {\n    binary_path = 1,\n  },\n  binary_path = \"/b\",\n\n})\n-- end";
    let kept = preserved_setup_options(block).expect("options");
    assert_eq!(
        kept,
        vec![
            "  separator = \" \",".to_owned(),
            "  nested = {".to_owned(),
            "    binary_path = 1,".to_owned(),
            "  },".to_owned(),
        ]
    );
    assert_eq!(preserved_setup_options("no setup here"), None);
    assert_eq!(preserved_setup_options("git_status.setup({\n  a = 1,"), None);
}

#[test]
fn trims_blank_lines_at_both_ends() {
    let mut lines = vec![" ".to_owned(), "a".to_owned(), "".to_owned(), "b".to_owned(), "\t".to_owned()];
    trim_blank_edges(&mut lines);
    assert_eq!(lines, vec!["a".to_owned(), "".to_owned(), "b".to_owned()]);
    let mut blank = vec![" ".to_owned()];
    trim_blank_edges(&mut blank);
    assert!(blank.is_empty());
}

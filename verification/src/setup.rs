//! The text that `setup` writes: the managed block in the WezTerm
//! configuration and in `.zshrc`, and how an existing file takes it in.
use vstd::prelude::*;

use crate::cli::{opt_str_view, opt_view, SetupArgs};
use crate::occurrences::{absent, lacks, occurrences};
use crate::options::{preserved_options, preserved_setup_options};
use crate::path::{config_parent, join_path, path_join, path_parent};
use crate::text::{
    char_views, chars_of, ends_with, find_from, find_from_exec, matches_at, join, join_chars, lines, lines_of,
    matches_at_exec, push_char, push_chars, starts_with, string_of, trim_end_char,
    trim_end_char_index, trim_start, trim_start_char, trim_start_char_index, trim_start_index,
};

verus! {

/// The first line of the managed block in the WezTerm configuration.
pub const SETUP_BEGIN: &'static str = "-- wezterm-git-status-bridge setup begin";

/// The last line of the managed block in the WezTerm configuration.
pub const SETUP_END: &'static str = "-- wezterm-git-status-bridge setup end";

/// The first line of the managed block in `.zshrc`.
pub const SHELL_BEGIN: &'static str = "# wezterm-git-status-bridge setup begin";

/// The last line of the managed block in `.zshrc`.
pub const SHELL_END: &'static str = "# wezterm-git-status-bridge setup end";

// ---------------------------------------------------------------------------
// Quoting
// ---------------------------------------------------------------------------
/// `s` with `\` and `"` escaped by a backslash.
pub open spec fn lua_escaped(s: Seq<char>) -> Seq<char>
    decreases s.len(),
{
    if s.len() == 0 {
        Seq::empty()
    } else {
        lua_escaped(s.drop_last()) + (if s.last() == '\\' {
            seq!['\\', '\\']
        } else if s.last() == '"' {
            seq!['\\', '"']
        } else {
            seq![s.last()]
        })
    }
}

/// `s` as a Lua string literal in double quotes.
pub open spec fn lua_quoted(s: Seq<char>) -> Seq<char> {
    seq!['"'] + lua_escaped(s) + seq!['"']
}

/// The path as a Lua string literal.
pub fn lua_string(path: &str) -> (r: String)
    ensures
        r@ == lua_quoted(path@),
{
    let s = chars_of(path);
    let n = s.len();
    let mut out = String::new();
    push_char(&mut out, '"');
    let mut i: usize = 0;
    while i < n
        invariant
            n == s@.len(),
            i <= n,
            out@ == seq!['"'] + lua_escaped(s@.take(i as int)),
        decreases n - i,
    {
        assert(s@.take(i + 1).drop_last() =~= s@.take(i as int));
        let c = s[i];
        if c == '\\' {
            push_char(&mut out, '\\');
            push_char(&mut out, '\\');
        } else if c == '"' {
            push_char(&mut out, '\\');
            push_char(&mut out, '"');
        } else {
            push_char(&mut out, c);
        }
        assert(out@ =~= seq!['"'] + lua_escaped(s@.take(i + 1)));
        i = i + 1;
    }
    assert(s@.take(n as int) =~= s@);
    push_char(&mut out, '"');
    assert(out@ =~= lua_quoted(path@));
    out
}

/// `s` with each `'` written as `'"'"'`, for use inside single quotes.
pub open spec fn shell_escaped(s: Seq<char>) -> Seq<char>
    decreases s.len(),
{
    if s.len() == 0 {
        Seq::empty()
    } else {
        shell_escaped(s.drop_last()) + (if s.last() == '\'' {
            seq!['\'', '"', '\'', '"', '\'']
        } else {
            seq![s.last()]
        })
    }
}

/// `s` as one shell word in single quotes.
pub open spec fn shell_quoted(s: Seq<char>) -> Seq<char> {
    seq!['\''] + shell_escaped(s) + seq!['\'']
}

/// The value as one shell word in single quotes.
pub fn shell_single_quote(value: &str) -> (r: String)
    ensures
        r@ == shell_quoted(value@),
{
    let s = chars_of(value);
    let n = s.len();
    let mut out = String::new();
    push_char(&mut out, '\'');
    let mut i: usize = 0;
    while i < n
        invariant
            n == s@.len(),
            i <= n,
            out@ == seq!['\''] + shell_escaped(s@.take(i as int)),
        decreases n - i,
    {
        assert(s@.take(i + 1).drop_last() =~= s@.take(i as int));
        let c = s[i];
        if c == '\'' {
            push_chars(&mut out, &['\'', '"', '\'', '"', '\'']);
        } else {
            push_char(&mut out, c);
        }
        assert(out@ =~= seq!['\''] + shell_escaped(s@.take(i + 1)));
        i = i + 1;
    }
    assert(s@.take(n as int) =~= s@);
    push_char(&mut out, '\'');
    assert(out@ =~= shell_quoted(value@));
    out
}

// ---------------------------------------------------------------------------
// The managed blocks
// ---------------------------------------------------------------------------
/// Each line followed by a line feed.
pub open spec fn lines_with_newlines(lines: Seq<Seq<char>>) -> Seq<char>
    decreases lines.len(),
{
    if lines.len() == 0 {
        Seq::empty()
    } else {
        lines_with_newlines(lines.drop_last()) + lines.last() + seq!['\n']
    }
}

/// The managed WezTerm block: it loads the adapter and calls its setup with
/// `auto_update = false` for Herdr, the binary path, and the kept options.
pub open spec fn wezterm_block_text(herdr: bool, binary_path: Seq<char>, options: Seq<Seq<char>>) -> Seq<char> {
    SETUP_BEGIN@ + "\nlocal git_status = require(\"right-status\")\ngit_status.setup({\n"@ + (if herdr {
        "  auto_update = false,\n"@
    } else {
        Seq::empty()
    }) + "  binary_path = "@ + lua_quoted(binary_path) + ",\n"@ + lines_with_newlines(options)
        + "})\n"@ + SETUP_END@
}

/// The managed WezTerm block with the options kept from an earlier setup.
pub fn wezterm_block_with_options(herdr: bool, binary_path: &str, preserved_options: &[String]) -> (r: String)
    ensures
        r@ == wezterm_block_text(
            herdr,
            binary_path@,
            preserved_options@.map_values(|o: String| o@),
        ),
{
    let escaped_binary = lua_string(binary_path);
    let mut block = String::new();
    block.append(SETUP_BEGIN);
    block.append("\nlocal git_status = require(\"right-status\")\ngit_status.setup({\n");
    let ghost head = block@;
    if herdr {
        block.append("  auto_update = false,\n");
    }
    let ghost with_flag = block@;
    block.append("  binary_path = ");
    block.append(escaped_binary.as_str());
    block.append(",\n");
    let ghost before_options = block@;
    let n = preserved_options.len();
    let mut i: usize = 0;
    while i < n
        invariant
            n == preserved_options@.len(),
            i <= n,
            block@ == before_options + lines_with_newlines(
                preserved_options@.take(i as int).map_values(|o: String| o@),
            ),
        decreases n - i,
    {
        let ghost prev = block@;
        block.append(preserved_options[i].as_str());
        push_char(&mut block, '\n');
        proof {
            let taken = preserved_options@.take(i + 1).map_values(|o: String| o@);
            assert(taken.drop_last() =~= preserved_options@.take(i as int).map_values(
                |o: String| o@,
            ));
            assert(block@ =~= before_options + lines_with_newlines(taken));
        }
        i = i + 1;
    }
    assert(preserved_options@.take(n as int) =~= preserved_options@);
    block.append("})\n");
    block.append(SETUP_END);
    assert(block@ =~= wezterm_block_text(
        herdr,
        binary_path@,
        preserved_options@.map_values(|o: String| o@),
    ));
    block
}

/// The managed WezTerm block for a first setup.
pub fn wezterm_block(herdr: bool, binary_path: &str) -> (r: String)
    ensures
        r@ == wezterm_block_text(herdr, binary_path@, Seq::empty()),
{
    let none: Vec<String> = Vec::new();
    let r = wezterm_block_with_options(herdr, binary_path, none.as_slice());
    assert(none@.map_values(|o: String| o@) =~= Seq::<Seq<char>>::empty());
    r
}

/// A new WezTerm configuration around the managed block.
pub open spec fn new_config_text(block: Seq<char>) -> Seq<char> {
    "local wezterm = require(\"wezterm\")\nlocal config = wezterm.config_builder()\n\n"@ + block
        + "\n\nreturn config\n"@
}

/// A new WezTerm configuration that holds just the managed block.
pub fn new_wezterm_config(block: &str) -> (r: String)
    ensures
        r@ == new_config_text(block@),
{
    let mut out = String::new();
    out.append("local wezterm = require(\"wezterm\")\nlocal config = wezterm.config_builder()\n\n");
    out.append(block);
    out.append("\n\nreturn config\n");
    out
}

/// The pane id that the zsh hook reports: WezTerm's pane, and with Kitty set
/// up Kitty's window first, so that each Kitty window writes a file of its
/// own; `shell` outside both terminals.
pub open spec fn hook_pane_id(kitty: bool) -> Seq<char> {
    if kitty {
        "${KITTY_WINDOW_ID:+kitty-}${KITTY_WINDOW_ID:-${WEZTERM_PANE:-shell}}"@
    } else {
        "${WEZTERM_PANE:-shell}"@
    }
}

/// The zsh hook block: a function that runs `update` in the background for
/// the pane and directory, hooked on directory change and on each prompt.
pub open spec fn zsh_hook_text(binary_path: Seq<char>, kitty: bool) -> Seq<char> {
    SHELL_BEGIN@ + "\n_wezterm_git_status_bridge_update() {\n  "@ + shell_quoted(binary_path)
        + " update --pane-id \""@ + hook_pane_id(kitty)
        + "\" --cwd \"$PWD\" >/dev/null 2>&1 &!\n}\nautoload -Uz add-zsh-hook\nadd-zsh-hook chpwd _wezterm_git_status_bridge_update\nadd-zsh-hook precmd _wezterm_git_status_bridge_update\n"@
        + SHELL_END@
}

/// The zsh hook block for the binary at `binary_path`, keyed by Kitty's
/// window where Kitty is set up.
pub fn zsh_hook_block(binary_path: &str, kitty: bool) -> (r: String)
    ensures
        r@ == zsh_hook_text(binary_path@, kitty),
{
    let binary = shell_single_quote(binary_path);
    let mut out = String::new();
    out.append(SHELL_BEGIN);
    out.append("\n_wezterm_git_status_bridge_update() {\n  ");
    out.append(binary.as_str());
    out.append(" update --pane-id \"");
    if kitty {
        out.append("${KITTY_WINDOW_ID:+kitty-}${KITTY_WINDOW_ID:-${WEZTERM_PANE:-shell}}");
    } else {
        out.append("${WEZTERM_PANE:-shell}");
    }
    out.append(
        "\" --cwd \"$PWD\" >/dev/null 2>&1 &!\n}\nautoload -Uz add-zsh-hook\nadd-zsh-hook chpwd _wezterm_git_status_bridge_update\nadd-zsh-hook precmd _wezterm_git_status_bridge_update\n",
    );
    out.append(SHELL_END);
    out
}

/// The managed block in `kitty.conf`: Kitty draws its tab bar with the
/// adapter's `tab_bar.py`, and shows it even with a single tab.
pub open spec fn kitty_block_text() -> Seq<char> {
    SHELL_BEGIN@ + "\ntab_bar_style custom\ntab_bar_min_tabs 1\n"@ + SHELL_END@
}

/// The managed block in `kitty.conf`.
pub fn kitty_block() -> (r: String)
    ensures
        r@ == kitty_block_text(),
{
    let mut out = String::new();
    out.append(SHELL_BEGIN);
    out.append("\ntab_bar_style custom\ntab_bar_min_tabs 1\n");
    out.append(SHELL_END);
    out
}

// ---------------------------------------------------------------------------
// Marked blocks in existing files
// ---------------------------------------------------------------------------
/// Where the first `begin` marker starts and where the first `end` marker
/// after it ends.
pub open spec fn marked_range(current: Seq<char>, begin: Seq<char>, end: Seq<char>) -> Option<
    (int, int),
> {
    match find_from(current, begin, 0) {
        None => None,
        Some(start) => match find_from(current, end, start) {
            None => None,
            Some(end_start) => Some((start, end_start + end.len())),
        },
    }
}

/// The text from the first `begin` marker through the first `end` marker
/// after it.
pub open spec fn marked_text(current: Seq<char>, begin: Seq<char>, end: Seq<char>) -> Option<
    Seq<char>,
> {
    match marked_range(current, begin, end) {
        None => None,
        Some((s, e)) => Some(current.subrange(s, e)),
    }
}

/// `head`, `block` and `tail` on lines of their own, where not empty.
pub open spec fn spliced(head: Seq<char>, block: Seq<char>, tail: Seq<char>) -> Seq<char> {
    (if head.len() > 0 {
        head.push('\n')
    } else {
        Seq::empty()
    }) + block + (if tail.len() > 0 {
        seq!['\n'] + tail
    } else {
        Seq::empty()
    })
}

/// `s`, ending with a line feed.
pub open spec fn with_final_newline(s: Seq<char>) -> Seq<char> {
    if s.len() > 0 && s.last() == '\n' {
        s
    } else {
        s.push('\n')
    }
}

/// `current` with the marked block replaced by `block`: blank lines around
/// the old block are dropped, and the text ends with a line feed.
pub open spec fn replaced_text(
    current: Seq<char>,
    begin: Seq<char>,
    end: Seq<char>,
    block: Seq<char>,
) -> Option<Seq<char>> {
    match marked_range(current, begin, end) {
        None => None,
        Some((s, e)) => Some(
            with_final_newline(
                spliced(
                    trim_end_char(current.take(s), '\n'),
                    block,
                    trim_start_char(current.skip(e), '\n'),
                ),
            ),
        ),
    }
}

fn marked_range_exec(current: &[char], begin: &[char], end: &[char]) -> (r: Option<(usize, usize)>)
    ensures
        r is None <==> marked_range(current@, begin@, end@) is None,
        r matches Some((a, b)) ==> marked_range(current@, begin@, end@) == Some((a as int, b as int))
            && a <= b <= current@.len(),
{
    let start = match find_from_exec(current, begin, 0) {
        Some(s) => s,
        None => return None,
    };
    proof {
        crate::text::lemma_find_from_result(current@, begin@, 0);
    }
    let end_start = match find_from_exec(current, end, start) {
        Some(e) => e,
        None => return None,
    };
    proof {
        crate::text::lemma_find_from_result(current@, end@, start as int);
        assert(crate::text::matches_at(current@, end@, end_start as int));
    }
    let clen = current.len();
    assert(end_start + end@.len() <= clen);
    Some((start, end_start + end.len()))
}

/// The marked block from `begin` through `end` in `current`.
pub fn marked_block(current: &str, begin: &str, end: &str) -> (r: Option<String>)
    ensures
        match marked_text(current@, begin@, end@) {
            Some(t) => r is Some && r->0@ == t,
            None => r is None,
        },
{
    let c = chars_of(current);
    let b = chars_of(begin);
    let e = chars_of(end);
    match marked_range_exec(c.as_slice(), b.as_slice(), e.as_slice()) {
        Some((s, x)) => Some(string_of(vstd::slice::slice_subrange(c.as_slice(), s, x))),
        None => None,
    }
}

/// The managed WezTerm block already in a configuration.
pub fn existing_marked_lua_block(current: &str) -> (r: Option<String>)
    ensures
        match marked_text(current@, SETUP_BEGIN@, SETUP_END@) {
            Some(t) => r is Some && r->0@ == t,
            None => r is None,
        },
{
    marked_block(current, SETUP_BEGIN, SETUP_END)
}

/// `current` with its block marked by `begin` and `end` replaced by `block`;
/// `None` when `current` has no such block.
pub fn replace_marked_block(current: &str, begin: &str, end: &str, block: &str) -> (r: Option<String>)
    ensures
        match replaced_text(current@, begin@, end@, block@) {
            Some(t) => r is Some && r->0@ == t,
            None => r is None,
        },
{
    let c = chars_of(current);
    let b = chars_of(begin);
    let e = chars_of(end);
    let (start, end_index) = match marked_range_exec(c.as_slice(), b.as_slice(), e.as_slice()) {
        Some(range) => range,
        None => return None,
    };
    let head_all = vstd::slice::slice_subrange(c.as_slice(), 0, start);
    let head_len = trim_end_char_index(head_all, '\n');
    let head = vstd::slice::slice_subrange(head_all, 0, head_len);
    let tail_all = vstd::slice::slice_subrange(c.as_slice(), end_index, c.len());
    let tail_start = trim_start_char_index(tail_all, '\n');
    let tail = vstd::slice::slice_subrange(tail_all, tail_start, tail_all.len());
    proof {
        assert(head_all@ =~= current@.take(start as int));
        assert(tail_all@ =~= current@.skip(end_index as int));
        assert(head@ =~= trim_end_char(current@.take(start as int), '\n'));
        assert(tail@ =~= trim_start_char(current@.skip(end_index as int), '\n'));
    }
    let mut next = string_of(head);
    if head.len() > 0 {
        push_char(&mut next, '\n');
    }
    next.append(block);
    if tail.len() > 0 {
        push_char(&mut next, '\n');
        push_chars(&mut next, tail);
    }
    let ghost body = next@;
    assert(body =~= spliced(head@, block@, tail@));
    let nc = chars_of(next.as_str());
    if !(nc.len() > 0 && nc[nc.len() - 1] == '\n') {
        push_char(&mut next, '\n');
    }
    Some(next)
}

/// `block` appended to `current` after one blank line, ending with a line feed.
pub open spec fn appended_text(current: Seq<char>, block: Seq<char>) -> Seq<char> {
    let head = trim_end_char(current, '\n');
    (if head.len() > 0 {
        head + seq!['\n', '\n']
    } else {
        Seq::empty()
    }) + block + seq!['\n']
}

/// Appends `block` to `current`, after one blank line.
pub fn append_block(current: &str, block: &str) -> (r: String)
    ensures
        r@ == appended_text(current@, block@),
{
    let c = chars_of(current);
    let head_len = trim_end_char_index(c.as_slice(), '\n');
    let head = vstd::slice::slice_subrange(c.as_slice(), 0, head_len);
    assert(head@ =~= trim_end_char(current@, '\n'));
    let mut next = string_of(head);
    if head_len > 0 {
        push_char(&mut next, '\n');
        push_char(&mut next, '\n');
    }
    next.append(block);
    push_char(&mut next, '\n');
    assert(next@ =~= appended_text(current@, block@));
    next
}

// ---------------------------------------------------------------------------
// Taking the managed block into existing files
// ---------------------------------------------------------------------------
/// A line that returns from the configuration file (`return ...`).
pub open spec fn is_return_line(l: Seq<char>) -> bool {
    starts_with(trim_start(l), "return "@)
}

/// The last of the first `k` lines that is a `return` line.
pub open spec fn last_return_before(ls: Seq<Seq<char>>, k: int) -> Option<int>
    decreases k,
{
    if k <= 0 {
        None
    } else if is_return_line(ls[k - 1]) {
        Some(k - 1)
    } else {
        last_return_before(ls, k - 1)
    }
}

/// Where a new block goes: before the last `return` line, else at the end.
pub open spec fn insert_position(ls: Seq<Seq<char>>) -> int {
    match last_return_before(ls, ls.len() as int) {
        Some(i) => i,
        None => ls.len() as int,
    }
}

/// The WezTerm configuration `current` with the managed block `block`: it
/// replaces the marked block where there is one, else it goes before the
/// last `return` line; the result ends with a line feed.
pub open spec fn upserted_lua_text(current: Seq<char>, block: Seq<char>) -> Seq<char> {
    match replaced_text(current, SETUP_BEGIN@, SETUP_END@, block) {
        Some(t) => t,
        None => {
            let ls = lines(current);
            join(ls.insert(insert_position(ls), block), seq!['\n']).push('\n')
        },
    }
}

fn is_return(line: &[char]) -> (r: bool)
    ensures
        r == is_return_line(line@),
{
    let a = trim_start_index(line);
    let rest = vstd::slice::slice_subrange(line, a, line.len());
    let pattern = chars_of("return ");
    assert(rest@ =~= trim_start(line@));
    matches_at_exec(rest, pattern.as_slice(), 0)
}

/// Takes the managed block `block` into the WezTerm configuration `current`.
pub fn upsert_lua_block(current: &str, block: &str) -> (r: String)
    ensures
        r@ == upserted_lua_text(current@, block@),
{
    if let Some(next) = replace_marked_block(current, SETUP_BEGIN, SETUP_END, block) {
        return next;
    }
    let cs = chars_of(current);
    let mut ls = lines_of(cs.as_slice());
    let ghost views0 = char_views(ls@);
    let n = ls.len();
    let mut k = n;
    while k > 0 && !is_return(ls[k - 1].as_slice())
        invariant
            n == ls@.len(),
            k <= n,
            views0 == char_views(ls@),
            last_return_before(views0, n as int) == last_return_before(views0, k as int),
        decreases k,
    {
        assert(views0[k - 1] == ls@[k - 1]@);
        k = k - 1;
    }
    let insert_at = if k > 0 {
        assert(views0[k - 1] == ls@[k - 1]@);
        k - 1
    } else {
        n
    };
    assert(insert_at as int == insert_position(views0));
    let b = chars_of(block);
    ls.insert(insert_at, b);
    assert(char_views(ls@) =~= views0.insert(insert_at as int, block@));
    let mut joined = join_chars(&ls, &['\n']);
    joined.push('\n');
    assert(seq!['\n'] =~= ['\n']@);
    string_of(joined.as_slice())
}

/// The WezTerm configuration after setup: the existing one, or a new one,
/// with the managed block, which keeps the options of the block it replaces.
pub open spec fn wezterm_config_text(current: Option<Seq<char>>, herdr: bool, binary_path: Seq<char>) -> Seq<char> {
    let kept = match current {
        Some(c) => match marked_text(c, SETUP_BEGIN@, SETUP_END@) {
            Some(b) => preserved_options(b),
            None => None,
        },
        None => None,
    };
    let block = match kept {
        Some(o) => wezterm_block_text(herdr, binary_path, o),
        None => wezterm_block_text(herdr, binary_path, Seq::empty()),
    };
    match current {
        Some(c) => upserted_lua_text(c, block),
        None => new_config_text(block),
    }
}

/// The WezTerm configuration that setup writes, given the current one if the
/// file exists.
pub fn upsert_wezterm_config_text(current: Option<&str>, herdr: bool, binary_path: &str) -> (r: String)
    ensures
        r@ == wezterm_config_text(opt_str_view(current), herdr, binary_path@),
{
    let kept = match current {
        Some(c) => match existing_marked_lua_block(c) {
            Some(b) => preserved_setup_options(b.as_str()),
            None => None,
        },
        None => None,
    };
    let block = match kept {
        Some(options) => wezterm_block_with_options(herdr, binary_path, options.as_slice()),
        None => wezterm_block(herdr, binary_path),
    };
    match current {
        Some(c) => upsert_lua_block(c, block.as_str()),
        None => new_wezterm_config(block.as_str()),
    }
}

/// A shell-style configuration file after setup: `block` replaces the marked
/// block, or is appended after a blank line, or is the whole file when there
/// was none.
pub open spec fn marked_file_text(current: Option<Seq<char>>, block: Seq<char>) -> Seq<char> {
    match current {
        Some(c) => match replaced_text(c, SHELL_BEGIN@, SHELL_END@, block) {
            Some(t) => t,
            None => appended_text(c, block),
        },
        None => block.push('\n'),
    }
}

/// Takes `block`, marked with the shell markers, into the file `current`
/// (given if it exists).
pub fn upsert_marked_file(current: Option<&str>, block: &str) -> (r: String)
    ensures
        r@ == marked_file_text(opt_str_view(current), block@),
{
    match current {
        Some(c) => match replace_marked_block(c, SHELL_BEGIN, SHELL_END, block) {
            Some(next) => next,
            None => append_block(c, block),
        },
        None => {
            let mut value = block.to_owned();
            push_char(&mut value, '\n');
            value
        },
    }
}

/// The `.zshrc` after setup, with the hook for the binary at `binary_path`.
pub open spec fn zshrc_text(current: Option<Seq<char>>, binary_path: Seq<char>, kitty: bool) -> Seq<char> {
    marked_file_text(current, zsh_hook_text(binary_path, kitty))
}

/// The `.zshrc` that setup writes, given the current one if the file exists.
pub fn upsert_zsh_hook_text(current: Option<&str>, binary_path: &str, kitty: bool) -> (r: String)
    ensures
        r@ == zshrc_text(opt_str_view(current), binary_path@, kitty),
{
    let block = zsh_hook_block(binary_path, kitty);
    upsert_marked_file(current, block.as_str())
}

/// The `kitty.conf` after setup: the existing one, or a new one, with the
/// managed block that turns on the adapter's tab bar.
pub open spec fn kitty_conf_text(current: Option<Seq<char>>) -> Seq<char> {
    marked_file_text(current, kitty_block_text())
}

/// The `kitty.conf` that setup writes, given the current one if the file
/// exists.
pub fn upsert_kitty_conf_text(current: Option<&str>) -> (r: String)
    ensures
        r@ == kitty_conf_text(opt_str_view(current)),
{
    let block = kitty_block();
    upsert_marked_file(current, block.as_str())
}

// ---------------------------------------------------------------------------
// Where setup writes
// ---------------------------------------------------------------------------
/// The WezTerm files of a setup run.
#[derive(Clone, Debug)]
pub struct WeztermFiles {
    /// The WezTerm configuration file.
    pub config_file: String,
    /// The directory of the WezTerm adapter.
    pub dir: String,
    /// The adapter module in that directory.
    pub right_status_file: String,
}

/// The Kitty files of a setup run.
#[derive(Clone, Debug)]
pub struct KittyFiles {
    /// The Kitty configuration file.
    pub config_file: String,
    /// Kitty's configuration directory, where it looks for `tab_bar.py`.
    pub dir: String,
    /// The tab bar adapter in that directory.
    pub tab_bar_file: String,
}

/// The files and choices of one setup run.
#[derive(Clone, Debug)]
pub struct SetupPlan {
    /// The WezTerm files, when WezTerm is set up.
    pub wezterm: Option<WeztermFiles>,
    /// The Kitty files, when Kitty is set up.
    pub kitty: Option<KittyFiles>,
    /// The Herdr plugin directory, when the plugin is set up.
    pub herdr_plugin_dir: Option<String>,
    /// The `herdr` program that links the plugin.
    pub herdr_bin: String,
    /// The `.zshrc` that gets the hook, when the hook is set up.
    pub zshrc: Option<String>,
}

/// A terminal's configuration directory by default: the one given, else
/// `rel` under the home directory.
pub open spec fn default_config_dir(home: Seq<char>, config_dir: Option<Seq<char>>, rel: Seq<char>) -> Seq<char> {
    match config_dir {
        Some(d) => d,
        None => path_join(home, rel),
    }
}

/// A terminal's configuration file: the one given, else `name` in its
/// configuration directory.
pub open spec fn config_file_path(
    home: Seq<char>,
    config_dir: Option<Seq<char>>,
    config_file: Option<Seq<char>>,
    rel: Seq<char>,
    name: Seq<char>,
) -> Seq<char> {
    match config_file {
        Some(f) => f,
        None => path_join(default_config_dir(home, config_dir, rel), name),
    }
}

/// The directory of a terminal's adapter: the configuration directory given,
/// else the one that holds the configuration file `file`, else `rel` under
/// the home directory.
pub open spec fn adapter_dir(home: Seq<char>, config_dir: Option<Seq<char>>, file: Seq<char>, rel: Seq<char>) -> Seq<char> {
    match config_dir {
        Some(d) => d,
        None => match path_parent(file) {
            Some(p) => if p.len() == 0 {
                seq!['.']
            } else {
                p
            },
            None => path_join(home, rel),
        },
    }
}

/// A terminal's configuration file and adapter directory, from the options
/// given for it.
fn config_location(
    home: &str,
    config_dir: &Option<String>,
    config_file: &Option<String>,
    rel: &str,
    name: &str,
) -> (r: (String, String))
    ensures
        r.0@ == config_file_path(home@, opt_view(*config_dir), opt_view(*config_file), rel@, name@),
        r.1@ == adapter_dir(home@, opt_view(*config_dir), r.0@, rel@),
{
    let default_dir = match config_dir {
        Some(d) => d.clone(),
        None => join_path(home, rel),
    };
    let file = match config_file {
        Some(f) => f.clone(),
        None => join_path(default_dir.as_str(), name),
    };
    let dir = match config_dir {
        Some(d) => d.clone(),
        None => match config_parent(file.as_str()) {
            Some(p) => p,
            None => join_path(home, rel),
        },
    };
    (file, dir)
}

/// The WezTerm configuration directory by default: the one given, else
/// `~/.config/wezterm`.
pub fn default_wezterm_dir(home: &str, args: &SetupArgs) -> (r: String)
    ensures
        r@ == default_config_dir(home@, opt_view(args.wezterm_config_dir), ".config/wezterm"@),
{
    match &args.wezterm_config_dir {
        Some(d) => d.clone(),
        None => join_path(home, ".config/wezterm"),
    }
}

/// WezTerm is set up when asked for, and by default when no terminal is
/// named.
pub open spec fn wants_wezterm(wezterm: bool, kitty: bool) -> bool {
    wezterm || !kitty
}

/// The hook goes into `.zshrc` for Kitty, whose tab bar only reads what the
/// hook writes; otherwise when asked for, or with Herdr unless refused.
pub open spec fn wants_shell_hook(kitty: bool, shell_hook: bool, herdr: bool, no_shell_hook: bool) -> bool {
    kitty || shell_hook || (herdr && !no_shell_hook)
}

/// `r` is the plan for `args` under the home directory `home`.
pub open spec fn is_plan(r: SetupPlan, args: SetupArgs, home: Seq<char>) -> bool {
    let wezterm = wants_wezterm(args.terminal.wezterm, args.terminal.kitty);
    let kitty = args.terminal.kitty;
    let w_file = config_file_path(
        home,
        opt_view(args.wezterm_config_dir),
        opt_view(args.wezterm_config_file),
        ".config/wezterm"@,
        "wezterm.lua"@,
    );
    let w_dir = adapter_dir(home, opt_view(args.wezterm_config_dir), w_file, ".config/wezterm"@);
    let k_file = config_file_path(
        home,
        opt_view(args.kitty_config_dir),
        opt_view(args.kitty_config_file),
        ".config/kitty"@,
        "kitty.conf"@,
    );
    let k_dir = adapter_dir(home, opt_view(args.kitty_config_dir), k_file, ".config/kitty"@);
    &&& (if wezterm {
        r.wezterm matches Some(w) && w.config_file@ == w_file && w.dir@ == w_dir
            && w.right_status_file@ == path_join(w_dir, "right-status.lua"@)
    } else {
        r.wezterm is None
    })
    &&& (if kitty {
        r.kitty matches Some(k) && k.config_file@ == k_file && k.dir@ == k_dir
            && k.tab_bar_file@ == path_join(k_dir, "tab_bar.py"@)
    } else {
        r.kitty is None
    })
    &&& (if args.herdr {
        r.herdr_plugin_dir matches Some(p) && p@ == path_join(
            if wezterm {
                w_dir
            } else {
                k_dir
            },
            "herdr-plugin"@,
        )
    } else {
        r.herdr_plugin_dir is None
    })
    &&& r.herdr_bin@ == match args.herdr_bin {
        Some(b) => b@,
        None => "herdr"@,
    }
    &&& (if wants_shell_hook(kitty, args.shell_hook, args.herdr, args.no_shell_hook) {
        r.zshrc matches Some(z) && z@ == match args.zshrc {
            Some(z) => z@,
            None => path_join(home, ".zshrc"@),
        }
    } else {
        r.zshrc is None
    })
}

/// Where a setup run with `args` writes, under the home directory `home`.
pub fn setup_plan(args: &SetupArgs, home: &str) -> (r: SetupPlan)
    ensures
        is_plan(r, *args, home@),
        args.shell_hook ==> r.zshrc is Some,
        args.terminal.kitty ==> r.zshrc is Some && r.kitty is Some,
{
    let kitty = args.terminal.kitty;
    let wezterm = args.terminal.wezterm || !kitty;
    let (w_file, w_dir) = config_location(
        home,
        &args.wezterm_config_dir,
        &args.wezterm_config_file,
        ".config/wezterm",
        "wezterm.lua",
    );
    let (k_file, k_dir) = config_location(
        home,
        &args.kitty_config_dir,
        &args.kitty_config_file,
        ".config/kitty",
        "kitty.conf",
    );
    let herdr_plugin_dir = if args.herdr {
        if wezterm {
            Some(join_path(w_dir.as_str(), "herdr-plugin"))
        } else {
            Some(join_path(k_dir.as_str(), "herdr-plugin"))
        }
    } else {
        None
    };
    let wezterm_files = if wezterm {
        let right_status_file = join_path(w_dir.as_str(), "right-status.lua");
        Some(WeztermFiles { config_file: w_file, dir: w_dir, right_status_file })
    } else {
        None
    };
    let kitty_files = if kitty {
        let tab_bar_file = join_path(k_dir.as_str(), "tab_bar.py");
        Some(KittyFiles { config_file: k_file, dir: k_dir, tab_bar_file })
    } else {
        None
    };
    let herdr_bin = match &args.herdr_bin {
        Some(b) => b.clone(),
        None => "herdr".to_owned(),
    };
    let shell_hook = kitty || args.shell_hook || (args.herdr && !args.no_shell_hook);
    let zshrc = if shell_hook {
        match &args.zshrc {
            Some(z) => Some(z.clone()),
            None => Some(join_path(home, ".zshrc")),
        }
    } else {
        None
    };
    SetupPlan { wezterm: wezterm_files, kitty: kitty_files, herdr_plugin_dir, herdr_bin, zshrc }
}

/// Where the zsh hook goes: asking for it with `--shell-hook`, setting up
/// Kitty, or setting up Herdr without `--no-shell-hook` each install it into
/// the `.zshrc` given, else `~/.zshrc`; otherwise setup leaves `.zshrc`
/// alone. WezTerm is set up when named or when no terminal is named, Kitty
/// exactly when named.
pub proof fn lemma_plan_choices(r: SetupPlan, args: SetupArgs, home: Seq<char>)
    requires
        is_plan(r, args, home),
    ensures
        (args.shell_hook || args.terminal.kitty || (args.herdr && !args.no_shell_hook))
            ==> (r.zshrc matches Some(z) && z@ == match args.zshrc {
            Some(given) => given@,
            None => path_join(home, ".zshrc"@),
        }),
        !(args.shell_hook || args.terminal.kitty || (args.herdr && !args.no_shell_hook))
            ==> r.zshrc is None,
        r.wezterm is Some <==> (args.terminal.wezterm || !args.terminal.kitty),
        r.kitty is Some <==> args.terminal.kitty,
        r.herdr_plugin_dir is Some <==> args.herdr,
{
}

// ---------------------------------------------------------------------------
// Rerunning setup
// ---------------------------------------------------------------------------
/// `block` starts with the `begin` marker, and the first `end` marker in it
/// is the one that ends it.
pub open spec fn well_marked(block: Seq<char>, begin: Seq<char>, end: Seq<char>) -> bool {
    &&& starts_with(block, begin)
    &&& end.len() <= block.len()
    &&& find_from(block, end, 0) == Some(block.len() - end.len())
}

/// No line feed in `s`.
pub open spec fn single_line(s: Seq<char>) -> bool {
    forall|i: int| 0 <= i < s.len() ==> s[i] != '\n'
}

proof fn lemma_trim_end_char_shape(s: Seq<char>, c: char)
    ensures
        trim_end_char(s, c).len() <= s.len(),
        s.take(trim_end_char(s, c).len() as int) == trim_end_char(s, c),
        trim_end_char(s, c).len() > 0 ==> trim_end_char(s, c).last() != c,
    decreases s.len(),
{
    if s.len() > 0 && s.last() == c {
        lemma_trim_end_char_shape(s.drop_last(), c);
        let r = trim_end_char(s.drop_last(), c);
        assert(s.take(r.len() as int) =~= s.drop_last().take(r.len() as int));
    } else {
        assert(s.take(s.len() as int) =~= s);
    }
}

proof fn lemma_trim_start_char_shape(s: Seq<char>, c: char)
    ensures
        trim_start_char(s, c).len() > 0 ==> trim_start_char(s, c)[0] != c,
    decreases s.len(),
{
    if s.len() > 0 && s[0] == c {
        lemma_trim_start_char_shape(s.drop_first(), c);
    }
}

/// Dropping leading copies of `c` from copies of `c` followed by `y`, where
/// `y` does not start with `c`, leaves `y`.
proof fn lemma_trim_start_char_prefix(p: Seq<char>, y: Seq<char>, c: char)
    requires
        forall|i: int| 0 <= i < p.len() ==> p[i] == c,
        y.len() > 0 ==> y[0] != c,
    ensures
        trim_start_char(p + y, c) == y,
{
    crate::text::lemma_trim_start_char_skip(p + y, c, p.len() as int);
    assert((p + y).skip(p.len() as int) =~= y);
}

/// Dropping trailing line feeds from `h` and one line feed gives `h`, when
/// `h` does not end with one.
proof fn lemma_trim_end_char_suffix(h: Seq<char>, c: char)
    requires
        h.len() > 0 ==> h.last() != c,
    ensures
        trim_end_char(h.push(c), c) == h,
{
    crate::text::lemma_trim_end_char_take(h.push(c), c, h.len() as int);
    assert(h.push(c).take(h.len() as int) =~= h);
}

/// In `head + first + tail`, where no `begin` marker starts inside `head` and
/// `first` is well marked, the marked block is `first`.
proof fn lemma_marked_block_found(
    head: Seq<char>,
    first: Seq<char>,
    tail: Seq<char>,
    begin: Seq<char>,
    end: Seq<char>,
)
    requires
        well_marked(first, begin, end),
        forall|j: int| 0 <= j < head.len() ==> !matches_at(head + first + tail, begin, j),
    ensures
        marked_range(head + first + tail, begin, end) == Some(
            (head.len() as int, (head.len() + first.len()) as int),
        ),
{
    let t = head + first + tail;
    assert(matches_at(t, begin, head.len() as int)) by {
        assert(t.subrange(head.len() as int, (head.len() + begin.len()) as int) =~= first.subrange(
            0,
            begin.len() as int,
        ));
    }
    crate::text::lemma_find_from_first(t, begin, 0, head.len() as int);
    let fe = head.len() + first.len() - end.len();
    crate::text::lemma_find_from_result(first, end, 0);
    assert(matches_at(t, end, fe)) by {
        assert(t.subrange(fe, fe + end.len()) =~= first.subrange(
            first.len() - end.len(),
            first.len() as int,
        ));
    }
    assert forall|j: int| head.len() <= j < fe implies !matches_at(t, end, j) by {
        if matches_at(t, end, j) {
            let jj = j - head.len();
            assert(first.subrange(jj, jj + end.len()) =~= t.subrange(j, j + end.len()));
            assert(matches_at(first, end, jj));
        }
    }
    crate::text::lemma_find_from_first(t, end, head.len() as int, fe);
}

/// No `begin` marker starts before the line feed that ends `h`, the text
/// before the first marker of `current` without its trailing line feeds.
proof fn lemma_no_marker_before(
    current: Seq<char>,
    begin: Seq<char>,
    s: int,
    h: Seq<char>,
    t: Seq<char>,
)
    requires
        single_line(begin),
        find_from(current, begin, 0) == Some(s),
        h.len() <= s,
        current.take(h.len() as int) == h,
        h.len() > 0,
        t.len() > h.len(),
        t.take(h.len() as int) == h,
        t[h.len() as int] == '\n',
    ensures
        forall|j: int| 0 <= j < h.len() + 1 ==> !matches_at(t, begin, j),
{
    crate::text::lemma_find_from_result(current, begin, 0);
    if begin.len() == 0 {
        assert(current.subrange(0, 0) =~= begin);
        assert(matches_at(current, begin, 0));
        assert(s == 0);
    }
    assert forall|j: int| 0 <= j < h.len() + 1 implies !matches_at(t, begin, j) by {
        if matches_at(t, begin, j) {
            if j + begin.len() <= h.len() {
                assert(matches_at(current, begin, s));
                assert forall|i: int| 0 <= i < begin.len() implies #[trigger] current.subrange(
                    j,
                    j + begin.len(),
                )[i] == t.subrange(j, j + begin.len())[i] by {
                    assert(current.take(h.len() as int)[j + i] == current[j + i]);
                    assert(t.take(h.len() as int)[j + i] == t[j + i]);
                }
                assert(current.subrange(j, j + begin.len()) =~= t.subrange(j, j + begin.len()));
                assert(matches_at(current, begin, j));
            } else {
                let k = h.len() - j;
                assert(t.subrange(j, j + begin.len())[k] == t[h.len() as int]);
                assert(begin[k] == '\n');
            }
        }
    }
}

/// Rerunning setup puts the latest block in place of the managed block: once
/// the marked block of `current` has been replaced by `first`, replacing the
/// marked block again by `second` gives what replacing it by `second` at once
/// gives. So a rerun with the same block leaves the file as it is.
pub proof fn lemma_latest_block_wins(
    current: Seq<char>,
    begin: Seq<char>,
    end: Seq<char>,
    first: Seq<char>,
    second: Seq<char>,
)
    requires
        single_line(begin),
        well_marked(first, begin, end),
        replaced_text(current, begin, end, first) is Some,
    ensures
        replaced_text(replaced_text(current, begin, end, first)->0, begin, end, second)
            == replaced_text(current, begin, end, second),
{
    let (s, e) = marked_range(current, begin, end)->0;
    crate::text::lemma_find_from_result(current, begin, 0);
    let h = trim_end_char(current.take(s), '\n');
    let x = trim_start_char(current.skip(e), '\n');
    lemma_trim_end_char_shape(current.take(s), '\n');
    lemma_trim_start_char_shape(current.skip(e), '\n');
    let head = if h.len() > 0 {
        h.push('\n')
    } else {
        Seq::empty()
    };
    let tail_x = if x.len() > 0 {
        seq!['\n'] + x
    } else {
        Seq::<char>::empty()
    };
    let body = head + first + tail_x;
    assert(spliced(h, first, x) == body);
    let t = with_final_newline(body);
    let tail = t.skip((head.len() + first.len()) as int);
    assert(t =~= head + first + tail) by {
        if !(body.len() > 0 && body.last() == '\n') {
            assert(t =~= body.push('\n'));
        }
    }
    assert(h =~= current.take(h.len() as int));
    if h.len() > 0 {
        assert(t.take(h.len() as int) =~= h);
        assert(t[h.len() as int] == head[h.len() as int]);
        lemma_no_marker_before(current, begin, s, h, t);
    }
    lemma_marked_block_found(head, first, tail, begin, end);
    assert(t.take(head.len() as int) =~= head);
    if h.len() > 0 {
        lemma_trim_end_char_suffix(h, '\n');
    } else {
        assert(head =~= Seq::<char>::empty());
    }
    assert(trim_end_char(t.take(head.len() as int), '\n') == h);
    assert(t.skip((head.len() + first.len()) as int) == tail);
    let x2 = trim_start_char(tail, '\n');
    if x.len() > 0 {
        if body.last() == '\n' {
            assert(tail =~= seq!['\n'] + x);
            lemma_trim_start_char_prefix(seq!['\n'], x, '\n');
            assert(x2 == x);
        } else {
            assert(tail =~= seq!['\n'] + x.push('\n'));
            lemma_trim_start_char_prefix(seq!['\n'], x.push('\n'), '\n');
            assert(x2 == x.push('\n'));
            let sp = spliced(h, second, x);
            assert(spliced(h, second, x.push('\n')) =~= sp.push('\n'));
        }
    } else {
        if body.len() > 0 && body.last() == '\n' {
            assert(tail =~= Seq::<char>::empty());
        } else {
            assert(tail =~= seq!['\n']);
            lemma_trim_start_char_prefix(seq!['\n'], Seq::<char>::empty(), '\n');
            assert(seq!['\n'] + Seq::<char>::empty() =~= seq!['\n']);
        }
        assert(x2 =~= Seq::<char>::empty());
        assert(x =~= Seq::<char>::empty());
    }
}

/// After the marked block has been replaced by a well-marked block, that
/// block is the marked block of the result.
pub proof fn lemma_replaced_marks_block(current: Seq<char>, begin: Seq<char>, end: Seq<char>, block: Seq<char>)
    requires
        single_line(begin),
        well_marked(block, begin, end),
        replaced_text(current, begin, end, block) is Some,
    ensures
        marked_text(replaced_text(current, begin, end, block)->0, begin, end) == Some(block),
{
    let (s, e) = marked_range(current, begin, end)->0;
    crate::text::lemma_find_from_result(current, begin, 0);
    let h = trim_end_char(current.take(s), '\n');
    let x = trim_start_char(current.skip(e), '\n');
    lemma_trim_end_char_shape(current.take(s), '\n');
    let head = if h.len() > 0 {
        h.push('\n')
    } else {
        Seq::empty()
    };
    let tail_x = if x.len() > 0 {
        seq!['\n'] + x
    } else {
        Seq::<char>::empty()
    };
    let body = head + block + tail_x;
    assert(spliced(h, block, x) == body);
    let t = with_final_newline(body);
    let tail = t.skip((head.len() + block.len()) as int);
    assert(t =~= head + block + tail) by {
        if !(body.len() > 0 && body.last() == '\n') {
            assert(t =~= body.push('\n'));
        }
    }
    assert(h =~= current.take(h.len() as int));
    if h.len() > 0 {
        assert(t.take(h.len() as int) =~= h);
        assert(t[h.len() as int] == head[h.len() as int]);
        lemma_no_marker_before(current, begin, s, h, t);
    }
    lemma_marked_block_found(head, block, tail, begin, end);
    assert(t.subrange(head.len() as int, (head.len() + block.len()) as int) =~= block);
}

/// Rerunning setup with the same block leaves the file unchanged.
pub proof fn lemma_rerun_keeps_file(current: Seq<char>, begin: Seq<char>, end: Seq<char>, block: Seq<char>)
    requires
        single_line(begin),
        well_marked(block, begin, end),
        replaced_text(current, begin, end, block) is Some,
    ensures
        replaced_text(replaced_text(current, begin, end, block)->0, begin, end, block)
            == replaced_text(current, begin, end, block),
{
    lemma_latest_block_wins(current, begin, end, block, block);
}

proof fn lemma_markers_single_line()
    ensures
        single_line(SETUP_BEGIN@),
        single_line(SHELL_BEGIN@),
{
    reveal_strlit("-- wezterm-git-status-bridge setup begin");
    reveal_strlit("# wezterm-git-status-bridge setup begin");
}

/// Rerunning the zsh setup when `.zshrc` already holds the managed hook: the
/// file then holds the hook of the latest run, as if that run had been the
/// only one; with the same binary path the file stays as it is.
pub proof fn lemma_zshrc_rerun(
    current: Seq<char>,
    first_binary: Seq<char>,
    second_binary: Seq<char>,
    kitty: bool,
)
    requires
        well_marked(zsh_hook_text(first_binary, kitty), SHELL_BEGIN@, SHELL_END@),
        marked_range(current, SHELL_BEGIN@, SHELL_END@) is Some,
    ensures
        zshrc_text(Some(zshrc_text(Some(current), first_binary, kitty)), second_binary, kitty)
            == zshrc_text(Some(current), second_binary, kitty),
{
    lemma_markers_single_line();
    lemma_latest_block_wins(
        current,
        SHELL_BEGIN@,
        SHELL_END@,
        zsh_hook_text(first_binary, kitty),
        zsh_hook_text(second_binary, kitty),
    );
}

/// The managed `kitty.conf` block starts with the begin marker and ends with
/// the first end marker in it.
proof fn lemma_kitty_block_well_marked()
    ensures
        well_marked(kitty_block_text(), SHELL_BEGIN@, SHELL_END@),
{
    reveal_strlit("# wezterm-git-status-bridge setup begin");
    reveal_strlit("# wezterm-git-status-bridge setup end");
    reveal_strlit("\ntab_bar_style custom\ntab_bar_min_tabs 1\n");
    let b = kitty_block_text();
    let begin = SHELL_BEGIN@;
    let e = SHELL_END@;
    let k = b.len() - e.len();
    assert(b.subrange(0, begin.len() as int) =~= begin);
    assert(b.subrange(k, k + e.len()) =~= e);
    assert forall|j: int| 0 <= j < k implies !matches_at(b, e, j) by {
        if matches_at(b, e, j) {
            assert(b.subrange(j, j + e.len())[0] == b[j]);
            if j == 0 {
                assert(b.subrange(j, j + e.len())[34] == b[34]);
            } else {
                assert(b[j] != '#');
            }
        }
    }
    crate::text::lemma_find_from_first(b, e, 0, k);
}

/// Rerunning the Kitty setup when `kitty.conf` already holds the managed
/// block leaves the file as the first run left it.
pub proof fn lemma_kitty_conf_rerun(current: Seq<char>)
    requires
        marked_range(current, SHELL_BEGIN@, SHELL_END@) is Some,
    ensures
        kitty_conf_text(Some(kitty_conf_text(Some(current)))) == kitty_conf_text(Some(current)),
{
    lemma_markers_single_line();
    lemma_kitty_block_well_marked();
    lemma_rerun_keeps_file(current, SHELL_BEGIN@, SHELL_END@, kitty_block_text());
}

/// Rerunning the WezTerm setup when the configuration already holds the
/// managed block: the configuration then holds the block of the latest run,
/// as if that run had been the only one.
pub proof fn lemma_lua_block_rerun(current: Seq<char>, first: Seq<char>, second: Seq<char>)
    requires
        well_marked(first, SETUP_BEGIN@, SETUP_END@),
        marked_range(current, SETUP_BEGIN@, SETUP_END@) is Some,
    ensures
        upserted_lua_text(upserted_lua_text(current, first), second) == upserted_lua_text(
            current,
            second,
        ),
{
    lemma_markers_single_line();
    lemma_latest_block_wins(current, SETUP_BEGIN@, SETUP_END@, first, second);
}

/// Dropping leading copies of `c` leaves an end of the text.
proof fn lemma_trim_start_char_suffix(s: Seq<char>, c: char)
    ensures
        trim_start_char(s, c).len() <= s.len(),
        trim_start_char(s, c) == s.skip(s.len() - trim_start_char(s, c).len()),
    decreases s.len(),
{
    if s.len() > 0 && s[0] == c {
        lemma_trim_start_char_suffix(s.drop_first(), c);
        let r = trim_start_char(s.drop_first(), c);
        assert(s.drop_first().skip(s.drop_first().len() - r.len()) =~= s.skip(s.len() - r.len()));
    } else {
        assert(s.skip(0) =~= s);
    }
}

/// The last `return` line among the first `k` lines is one of them.
proof fn lemma_last_return_bounds(ls: Seq<Seq<char>>, k: int)
    ensures
        last_return_before(ls, k) matches Some(i) ==> 0 <= i < k,
    decreases k,
{
    if k > 0 && !is_return_line(ls[k - 1]) {
        lemma_last_return_bounds(ls, k - 1);
    }
}

/// In `x + block + y`, where `x` ends and `y` starts with a line feed (when
/// not empty), `p` lacks line feeds and occurs in neither `x` nor `y`, and
/// `block` holds `p` at its start only, `p` occurs at the start of `block`
/// and nowhere else.
proof fn lemma_marker_only_in_block(x: Seq<char>, block: Seq<char>, y: Seq<char>, p: Seq<char>)
    requires
        p.len() > 0,
        lacks(p, '\n'),
        absent(x, p),
        absent(y, p),
        x.len() > 0 ==> x.last() == '\n',
        y.len() > 0 ==> y[0] == '\n',
        matches_at(block, p, 0),
        forall|j: int| j != 0 ==> !#[trigger] matches_at(block, p, j),
    ensures
        matches_at(x + block + y, p, x.len() as int),
        forall|j: int| j != x.len() ==> !#[trigger] matches_at(x + block + y, p, j),
{
    let t = x + block + y;
    let n = x.len() as int;
    let m = block.len() as int;
    let q = p.len() as int;
    assert(t.subrange(n, n + q) =~= block.subrange(0, q));
    assert forall|j: int| j != n implies !#[trigger] matches_at(t, p, j) by {
        if matches_at(t, p, j) {
            if j + q <= n {
                assert(x.subrange(j, j + q) =~= t.subrange(j, j + q));
                assert(matches_at(x, p, j));
            } else if j < n {
                assert(t.subrange(j, j + q)[n - 1 - j] == t[n - 1]);
                assert(p[n - 1 - j] == '\n');
            } else if j + q <= n + m {
                assert(block.subrange(j - n, j - n + q) =~= t.subrange(j, j + q));
                assert(matches_at(block, p, j - n));
            } else if j < n + m {
                assert(t.subrange(j, j + q)[n + m - j] == t[n + m]);
                assert(p[n + m - j] == '\n');
            } else {
                assert(y.subrange(j - n - m, j - n - m + q) =~= t.subrange(j, j + q));
                assert(matches_at(y, p, j - n - m));
            }
        }
    }
}

/// What a configuration `x + block + y` shaped as above gives: one begin
/// marker, the block in it, and a marked block to replace on the next run.
proof fn lemma_block_between(r: Seq<char>, x: Seq<char>, block: Seq<char>, y: Seq<char>)
    requires
        r == x + block + y,
        lacks(SETUP_BEGIN@, '\n'),
        SETUP_BEGIN@.len() > 0,
        absent(x, SETUP_BEGIN@),
        absent(y, SETUP_BEGIN@),
        x.len() > 0 ==> x.last() == '\n',
        y.len() > 0 ==> y[0] == '\n',
        matches_at(block, SETUP_BEGIN@, 0),
        forall|j: int| j != 0 ==> !#[trigger] matches_at(block, SETUP_BEGIN@, j),
        well_marked(block, SETUP_BEGIN@, SETUP_END@),
    ensures
        occurrences(r, SETUP_BEGIN@) == 1,
        matches_at(r, block, x.len() as int),
        replaced_text(r, SETUP_BEGIN@, SETUP_END@, block) is Some,
{
    let b = SETUP_BEGIN@;
    lemma_marker_only_in_block(x, block, y, b);
    crate::occurrences::lemma_occurrences_one(r, b, x.len() as int);
    assert(r.subrange(x.len() as int, (x.len() + block.len()) as int) =~= block);
    assert forall|j: int| 0 <= j < x.len() implies !matches_at(x + block + y, b, j) by {
        assert(j != x.len());
    }
    lemma_marked_block_found(x, block, y, b, SETUP_END@);
}

/// The managed block goes into a WezTerm configuration once: taking a block
/// that starts with the begin marker, ends with the end marker and holds each
/// of them once into a configuration that holds no begin marker, or exactly
/// one with an end marker after it, leaves exactly one begin marker. The
/// result holds the block and ends with a line feed, and running setup on it
/// again gives a configuration that further runs leave as it is; where the
/// configuration already held the marked block, the result itself stays as
/// it is.
pub proof fn lemma_upsert_keeps_one_block(current: Seq<char>, block: Seq<char>)
    requires
        starts_with(block, SETUP_BEGIN@),
        ends_with(block, SETUP_END@),
        occurrences(block, SETUP_BEGIN@) == 1,
        occurrences(block, SETUP_END@) == 1,
        occurrences(current, SETUP_BEGIN@) == 0 || (occurrences(current, SETUP_BEGIN@) == 1
            && marked_range(current, SETUP_BEGIN@, SETUP_END@) is Some),
    ensures
        occurrences(upserted_lua_text(current, block), SETUP_BEGIN@) == 1,
        exists|i: int| #[trigger] matches_at(upserted_lua_text(current, block), block, i),
        upserted_lua_text(current, block).len() > 0,
        upserted_lua_text(current, block).last() == '\n',
        upserted_lua_text(upserted_lua_text(upserted_lua_text(current, block), block), block)
            == upserted_lua_text(upserted_lua_text(current, block), block),
        marked_range(current, SETUP_BEGIN@, SETUP_END@) is Some ==> upserted_lua_text(
            upserted_lua_text(current, block),
            block,
        ) == upserted_lua_text(current, block),
{
    let b = SETUP_BEGIN@;
    let e = SETUP_END@;
    let nl = seq!['\n'];
    let empty = Seq::<char>::empty();
    lemma_markers_single_line();
    reveal_strlit("-- wezterm-git-status-bridge setup begin");
    reveal_strlit("-- wezterm-git-status-bridge setup end");
    assert(b.len() > 0);
    assert(e.len() > 0);
    assert(lacks(b, '\n'));
    crate::occurrences::lemma_absent_empty(b);
    // The block holds each marker once, where it belongs.
    crate::occurrences::lemma_occurrences_one(block, b, 0);
    let k_end = block.len() - e.len();
    crate::occurrences::lemma_occurrences_one(block, e, k_end);
    assert forall|j: int| 0 <= j < k_end implies !matches_at(block, e, j) by {
        assert(j != k_end);
    }
    crate::text::lemma_find_from_first(block, e, 0, k_end);
    assert(well_marked(block, b, e));
    let r = upserted_lua_text(current, block);
    if marked_range(current, b, e) is Some {
        let (s, en) = marked_range(current, b, e)->0;
        crate::text::lemma_find_from_result(current, b, 0);
        crate::text::lemma_find_from_result(current, e, s);
        crate::occurrences::lemma_occurrences_none(current, b);
        crate::occurrences::lemma_occurrences_one(current, b, s);
        let h = trim_end_char(current.take(s), '\n');
        lemma_trim_end_char_shape(current.take(s), '\n');
        assert(current.take(s).take(h.len() as int) =~= current.take(h.len() as int));
        let rest = current.skip(en);
        let xx = trim_start_char(rest, '\n');
        lemma_trim_start_char_suffix(rest, '\n');
        let d = rest.len() - xx.len();
        assert forall|j: int| !#[trigger] matches_at(h, b, j) by {
            if matches_at(h, b, j) {
                assert(current.subrange(j, j + b.len()) =~= h.subrange(j, j + b.len()));
                assert(matches_at(current, b, j));
            }
        }
        assert forall|j: int| !#[trigger] matches_at(xx, b, j) by {
            if matches_at(xx, b, j) {
                let at = en + d + j;
                assert(current.subrange(at, at + b.len()) =~= xx.subrange(j, j + b.len()));
                assert(matches_at(current, b, at));
            }
        }
        let head = if h.len() > 0 {
            h.push('\n')
        } else {
            empty
        };
        let tail_x = if xx.len() > 0 {
            nl + xx
        } else {
            empty
        };
        let body = head + block + tail_x;
        assert(spliced(h, block, xx) == body);
        let y = if body.len() > 0 && body.last() == '\n' {
            tail_x
        } else {
            tail_x.push('\n')
        };
        assert(r =~= head + block + y);
        if h.len() > 0 {
            crate::occurrences::lemma_absent_around(h, '\n', empty, b);
            assert(h + nl + empty =~= head);
        }
        if xx.len() > 0 {
            crate::occurrences::lemma_absent_around(empty, '\n', xx, b);
            assert(empty + nl + xx =~= tail_x);
        }
        if !(body.len() > 0 && body.last() == '\n') {
            crate::occurrences::lemma_absent_around(tail_x, '\n', empty, b);
            assert(tail_x + nl + empty =~= y);
        }
        lemma_block_between(r, head, block, y);
        lemma_rerun_keeps_file(current, b, e, block);
    } else {
        crate::occurrences::lemma_occurrences_none(current, b);
        let ls = lines(current);
        crate::occurrences::lemma_lines_absent(current, b);
        let k = insert_position(ls);
        lemma_last_return_bounds(ls, ls.len() as int);
        let pre = ls.take(k);
        let post = ls.skip(k);
        let mid = seq![block] + post;
        assert(ls.insert(k, block) =~= pre + mid);
        assert forall|i: int| 0 <= i < pre.len() implies absent(#[trigger] pre[i], b) by {
            assert(pre[i] == ls[i]);
        }
        assert forall|i: int| 0 <= i < post.len() implies absent(#[trigger] post[i], b) by {
            assert(post[i] == ls[k + i]);
        }
        crate::occurrences::lemma_join_absent(pre, '\n', b);
        crate::occurrences::lemma_join_absent(post, '\n', b);
        let x = if k > 0 {
            join(pre, nl) + nl
        } else {
            empty
        };
        let y0 = if post.len() > 0 {
            nl + join(post, nl)
        } else {
            empty
        };
        assert(join(seq![block], nl) == block);
        if post.len() > 0 {
            crate::occurrences::lemma_join_append(seq![block], post, nl);
        } else {
            assert(mid =~= seq![block]);
        }
        assert(join(mid, nl) =~= block + y0);
        if k > 0 {
            crate::occurrences::lemma_join_append(pre, mid, nl);
        } else {
            assert(pre + mid =~= mid);
        }
        assert(join(ls.insert(k, block), nl) =~= x + block + y0);
        let y = y0.push('\n');
        assert(r =~= x + block + y);
        if k > 0 {
            crate::occurrences::lemma_absent_around(join(pre, nl), '\n', empty, b);
            assert(join(pre, nl) + nl + empty =~= x);
        }
        if post.len() > 0 {
            crate::occurrences::lemma_absent_around(empty, '\n', join(post, nl), b);
            assert(empty + nl + join(post, nl) =~= y0);
        }
        crate::occurrences::lemma_absent_around(y0, '\n', empty, b);
        assert(y0 + nl + empty =~= y);
        lemma_block_between(r, x, block, y);
    }
    lemma_rerun_keeps_file(r, b, e, block);
}

} // verus!

//! The options a user wrote into the managed `git_status.setup({..})` call,
//! which a new setup keeps: every line of the table except the top-level
//! `auto_update` and `binary_path` entries that setup writes itself.
use vstd::prelude::*;

use vstd::slice::slice_subrange;

use crate::lua::{is_ascii_alpha, is_ident, nesting_after, LuaNesting};
use crate::text::{
    char_views, chars_of, find, lines, lines_of, same_text, string_of, trim, trim_bounds,
    trim_start, trim_start_index, views,
};

verus! {

// ---------------------------------------------------------------------------
// Option keys
// ---------------------------------------------------------------------------
/// The number of Lua name characters in a row from `i`.
pub open spec fn ident_run(s: Seq<char>, i: int) -> nat
    decreases s.len() - i,
{
    if 0 <= i < s.len() && is_ident(s[i]) {
        1 + ident_run(s, i + 1)
    } else {
        0
    }
}

/// The key of a `key = value` line: the Lua name that starts it (after white
/// space), when an `=` follows it (after white space).
pub open spec fn option_key(line: Seq<char>) -> Option<Seq<char>> {
    let t = trim_start(line);
    if t.len() == 0 || !(t[0] == '_' || is_ascii_alpha(t[0])) {
        None
    } else {
        let k = ident_run(t, 0);
        let rest = trim_start(t.skip(k as int));
        if rest.len() > 0 && rest[0] == '=' {
            Some(t.take(k as int))
        } else {
            None
        }
    }
}

/// The key of the `key = value` line `line`, if it is one.
pub fn top_level_option_key(line: &str) -> (r: Option<String>)
    ensures
        match option_key(line@) {
            Some(k) => r is Some && r->0@ == k,
            None => r is None,
        },
{
    let s = chars_of(line);
    let start = trim_start_index(s.as_slice());
    let n = s.len();
    let ghost t = s@.skip(start as int);
    if start == n {
        return None;
    }
    let first = s[start];
    assert(t[0] == first);
    if !(first == '_' || ('a' <= first && first <= 'z') || ('A' <= first && first <= 'Z')) {
        return None;
    }
    let mut end = start;
    while end < n && (s[end] == '_' || ('a' <= s[end] && s[end] <= 'z') || ('A' <= s[end] && s[end]
        <= 'Z') || ('0' <= s[end] && s[end] <= '9'))
        invariant
            n == s@.len(),
            start <= end <= n,
            t == s@.skip(start as int),
            ident_run(t, 0) == (end - start) + ident_run(t, end - start),
        decreases n - end,
    {
        assert(t[end - start] == s@[end as int]);
        end = end + 1;
    }
    proof {
        if end < n {
            assert(t[end - start] == s@[end as int]);
        }
    }
    let rest_vec = slice_subrange(s.as_slice(), end, n);
    let rest_start = trim_start_index(rest_vec);
    assert(rest_vec@ =~= t.skip(ident_run(t, 0) as int));
    if rest_start < rest_vec.len() && rest_vec[rest_start] == '=' {
        let key = string_of(slice_subrange(s.as_slice(), start, end));
        assert(key@ =~= t.take(ident_run(t, 0) as int));
        Some(key)
    } else {
        None
    }
}

/// A line that sets one of the options that setup writes itself.
pub open spec fn is_managed(line: Seq<char>) -> bool {
    option_key(line) == Some("auto_update"@) || option_key(line) == Some("binary_path"@)
}

/// Whether `line` sets `auto_update` or `binary_path`.
pub fn is_managed_setup_option(line: &str) -> (r: bool)
    ensures
        r == is_managed(line@),
{
    match top_level_option_key(line) {
        Some(key) => {
            let auto_update = "auto_update".to_owned();
            let binary_path = "binary_path".to_owned();
            same_text(&key, &auto_update) || same_text(&key, &binary_path)
        },
        None => false,
    }
}

/// Setup manages two options only: a line that sets `auto_update` or
/// `binary_path` is managed, and a line that sets any other option, or sets
/// none, is not.
pub proof fn lemma_only_two_options_managed(line: Seq<char>)
    ensures
        (option_key(line) == Some("auto_update"@) || option_key(line) == Some("binary_path"@))
            ==> is_managed(line),
        (option_key(line) matches Some(k) && k != "auto_update"@ && k != "binary_path"@)
            ==> !is_managed(line),
        option_key(line) is None ==> !is_managed(line),
{
}

/// A line of the setup table that sets neither `auto_update` nor
/// `binary_path`.
pub open spec fn sets_user_option(line: Seq<char>) -> bool {
    match option_key(line) {
        Some(k) => k != "auto_update"@ && k != "binary_path"@,
        None => true,
    }
}

/// A rerun keeps every line of a setup table in which no line sets
/// `auto_update` or `binary_path`, in order, whatever the nesting.
pub proof fn lemma_user_lines_kept(lines: Seq<Seq<char>>, i: int, end: int, n: LuaNesting)
    requires
        0 <= i <= end <= lines.len(),
        forall|j: int| i <= j < end ==> sets_user_option(#[trigger] lines[j]),
    ensures
        kept_from(lines, i, end, n) == lines.subrange(i, end),
    decreases end - i,
{
    if i < end {
        lemma_only_two_options_managed(lines[i]);
        assert(sets_user_option(lines[i]));
        lemma_user_lines_kept(lines, i + 1, end, nesting_after(n, lines[i]));
        assert(lines.subrange(i, end) =~= seq![lines[i]] + lines.subrange(i + 1, end));
    } else {
        assert(lines.subrange(i, end) =~= Seq::<Seq<char>>::empty());
    }
}

/// At the top level of the setup table, a line that sets a managed option
/// is dropped and one that sets another option is kept.
pub proof fn lemma_top_level_line(lines: Seq<Seq<char>>, i: int, end: int, n: LuaNesting)
    requires
        0 <= i < end,
        i < lines.len(),
        n.top_level(),
    ensures
        sets_user_option(lines[i]) ==> kept_from(lines, i, end, n) == seq![lines[i]] + kept_from(
            lines,
            i + 1,
            end,
            nesting_after(n, lines[i]),
        ),
        !sets_user_option(lines[i]) ==> kept_from(lines, i, end, n) == kept_from(lines, i + 1, end, n),
{
    lemma_only_two_options_managed(lines[i]);
}

// ---------------------------------------------------------------------------
// The setup table
// ---------------------------------------------------------------------------
/// Inside the setup table: one table open, nothing else.
pub open spec fn in_setup_table() -> LuaNesting {
    LuaNesting { table_depth: 1, function_depth: 0, long_bracket_equals: None }
}

/// The first line from `i` on that closes the table, following the nesting
/// `n` line by line.
pub open spec fn table_end_from(lines: Seq<Seq<char>>, i: int, n: LuaNesting) -> Option<int>
    decreases lines.len() - i,
{
    if i < 0 || i >= lines.len() {
        None
    } else {
        let m = nesting_after(n, lines[i]);
        if m.closed() {
            Some(i)
        } else {
            table_end_from(lines, i + 1, m)
        }
    }
}

/// The line that closes the setup table opened on line `setup_start`.
pub fn setup_table_end(lines: &Vec<String>, setup_start: usize) -> (r: Option<usize>)
    ensures
        match table_end_from(views(lines@), setup_start + 1, in_setup_table()) {
            Some(e) => r == Some(e as usize),
            None => r is None,
        },
{
    let mut nesting = LuaNesting::setup_table();
    let n = lines.len();
    if setup_start >= n {
        return None;
    }
    let mut index = setup_start + 1;
    while index < n
        invariant
            n == lines@.len(),
            setup_start < index <= n,
            table_end_from(views(lines@), setup_start + 1, in_setup_table()) == table_end_from(
                views(lines@),
                index as int,
                nesting,
            ),
        decreases n - index,
    {
        nesting.update(lines[index].as_str());
        if nesting.is_setup_table_closed() {
            return Some(index);
        }
        index = index + 1;
    }
    None
}

/// The first line from `i` on that holds `pat`.
pub open spec fn first_line_with(lines: Seq<Seq<char>>, pat: Seq<char>, i: int) -> Option<int>
    decreases lines.len() - i,
{
    if i < 0 || i >= lines.len() {
        None
    } else if find(lines[i], pat) is Some {
        Some(i)
    } else {
        first_line_with(lines, pat, i + 1)
    }
}

/// The lines of the table between `i` and `end` that a new setup keeps,
/// following the nesting `n`: all but the top-level managed options.
pub open spec fn kept_from(lines: Seq<Seq<char>>, i: int, end: int, n: LuaNesting) -> Seq<
    Seq<char>,
>
    decreases end - i,
{
    if i < 0 || i >= end || i >= lines.len() {
        Seq::empty()
    } else if n.top_level() && is_managed(lines[i]) {
        kept_from(lines, i + 1, end, n)
    } else {
        seq![lines[i]] + kept_from(lines, i + 1, end, nesting_after(n, lines[i]))
    }
}

/// A line of white space only.
pub open spec fn is_blank(l: Seq<char>) -> bool {
    trim(l).len() == 0
}

pub open spec fn drop_blank_front(ls: Seq<Seq<char>>) -> Seq<Seq<char>>
    decreases ls.len(),
{
    if ls.len() > 0 && is_blank(ls[0]) {
        drop_blank_front(ls.drop_first())
    } else {
        ls
    }
}

pub open spec fn drop_blank_back(ls: Seq<Seq<char>>) -> Seq<Seq<char>>
    decreases ls.len(),
{
    if ls.len() > 0 && is_blank(ls.last()) {
        drop_blank_back(ls.drop_last())
    } else {
        ls
    }
}

/// `ls` without the blank lines at its start and at its end.
pub open spec fn trim_blank(ls: Seq<Seq<char>>) -> Seq<Seq<char>> {
    drop_blank_back(drop_blank_front(ls))
}

/// The marker of the setup call.
pub open spec fn setup_call() -> Seq<char> {
    "git_status.setup({"@
}

/// The options a new setup keeps from the setup block `block`: the lines of
/// its setup table but the managed ones, without blank lines at either end;
/// `None` when the block has no setup call or its table is not closed.
pub open spec fn preserved_options(block: Seq<char>) -> Option<Seq<Seq<char>>> {
    let ls = lines(block);
    match first_line_with(ls, setup_call(), 0) {
        None => None,
        Some(start) => match table_end_from(ls, start + 1, in_setup_table()) {
            None => None,
            Some(end) => Some(trim_blank(kept_from(ls, start + 1, end, in_setup_table()))),
        },
    }
}

fn is_blank_line(line: &String) -> (r: bool)
    ensures
        r == is_blank(line@),
{
    let cs = chars_of(line.as_str());
    let (a, b) = trim_bounds(cs.as_slice());
    a == b
}

/// Drops the blank lines at the start and at the end of `lines`.
pub fn trim_blank_edges(lines: &mut Vec<String>)
    ensures
        views(final(lines)@) == trim_blank(views(old(lines)@)),
{
    while lines.len() > 0 && is_blank_line(&lines[0])
        invariant
            drop_blank_front(views(old(lines)@)) == drop_blank_front(views(lines@)),
        decreases lines@.len(),
    {
        let ghost before = views(lines@);
        lines.remove(0);
        assert(views(lines@) =~= before.drop_first());
    }
    let ghost front = views(lines@);
    assert(drop_blank_front(front) == front);
    while lines.len() > 0 && is_blank_line(&lines[lines.len() - 1])
        invariant
            trim_blank(views(old(lines)@)) == drop_blank_back(views(lines@)),
        decreases lines@.len(),
    {
        let ghost before = views(lines@);
        lines.pop();
        assert(views(lines@) =~= before.drop_last());
    }
}

/// The options a new setup keeps from the setup block `block`.
pub fn preserved_setup_options(block: &str) -> (r: Option<Vec<String>>)
    ensures
        match preserved_options(block@) {
            Some(o) => r is Some && views(r->0@) == o,
            None => r is None,
        },
{
    let cs = chars_of(block);
    let char_lines = lines_of(cs.as_slice());
    let n = char_lines.len();
    let mut block_lines: Vec<String> = Vec::new();
    let mut i: usize = 0;
    while i < n
        invariant
            n == char_lines@.len(),
            i <= n,
            views(block_lines@) == char_views(char_lines@).take(i as int),
        decreases n - i,
    {
        let ghost before = block_lines@;
        let line = string_of(char_lines[i].as_slice());
        block_lines.push(line);
        assert(block_lines@ == before.push(line));
        assert(views(block_lines@) =~= views(before).push(line@));
        assert(char_views(char_lines@).take(i + 1) =~= char_views(char_lines@).take(i as int).push(
            char_lines@[i as int]@,
        ));
        i = i + 1;
    }
    assert(char_views(char_lines@).take(n as int) =~= lines(block@));
    let ghost ls = views(block_lines@);
    let marker = chars_of("git_status.setup({");
    let mut start: usize = 0;
    while start < n && crate::text::find_from_exec(
        chars_of(block_lines[start].as_str()).as_slice(),
        marker.as_slice(),
        0,
    ).is_none()
        invariant
            n == block_lines@.len(),
            ls == views(block_lines@),
            start <= n,
            marker@ == setup_call(),
            first_line_with(ls, setup_call(), 0) == first_line_with(ls, setup_call(), start as int),
        decreases n - start,
    {
        start = start + 1;
    }
    if start == n {
        return None;
    }
    proof {
        lemma_table_end_after(ls, start + 1, in_setup_table());
    }
    let end = match setup_table_end(&block_lines, start) {
        Some(e) => e,
        None => return None,
    };
    proof {
        assert(table_end_from(ls, start + 1, in_setup_table()) == Some(end as int));
    }
    let mut preserved: Vec<String> = Vec::new();
    let mut nesting = LuaNesting::setup_table();
    let mut k = start + 1;
    let ghost goal = kept_from(ls, start + 1, end as int, in_setup_table());
    while k < end
        invariant
            n == block_lines@.len(),
            ls == views(block_lines@),
            start < k <= end < n,
            goal == views(preserved@) + kept_from(ls, k as int, end as int, nesting),
        decreases end - k,
    {
        if nesting.is_setup_table_top_level() && is_managed_setup_option(block_lines[k].as_str()) {
            k = k + 1;
            continue;
        }
        let ghost before = views(preserved@);
        let ghost nest_before = nesting;
        preserved.push(block_lines[k].clone());
        nesting.update(block_lines[k].as_str());
        assert(views(preserved@) =~= before.push(ls[k as int]));
        assert(goal =~= views(preserved@) + kept_from(ls, k + 1, end as int, nesting));
        k = k + 1;
    }
    assert(kept_from(ls, k as int, end as int, nesting) =~= Seq::<Seq<char>>::empty());
    assert(views(preserved@) =~= goal);
    trim_blank_edges(&mut preserved);
    Some(preserved)
}

/// Where the table ends, it ends after the line it starts from.
proof fn lemma_table_end_after(lines: Seq<Seq<char>>, i: int, n: LuaNesting)
    ensures
        table_end_from(lines, i, n) matches Some(e) ==> i <= e < lines.len(),
    decreases lines.len() - i,
{
    if 0 <= i < lines.len() && !nesting_after(n, lines[i]).closed() {
        lemma_table_end_after(lines, i + 1, nesting_after(n, lines[i]));
    }
}

} // verus!

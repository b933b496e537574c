//! Rerunning setup on a configuration it wrote: the options kept from the
//! managed block come back out of the block it writes.
use vstd::prelude::*;

use crate::lua::{
    count_char, count_equal, count_word, is_ident, lemma_short_end, name_parts, nesting_after,
    scan, short_end, LuaNesting,
};
use crate::options::{
    first_line_with, in_setup_table, is_managed, kept_from, option_key, preserved_options,
    setup_call, table_end_from, trim_blank,
};
use crate::setup::{
    lemma_latest_block_wins, lemma_replaced_marks_block, lines_with_newlines, lua_escaped,
    lua_quoted, marked_text, replaced_text, single_line, well_marked, wezterm_block_text,
    wezterm_config_text, SETUP_BEGIN, SETUP_END,
};
use crate::text::{
    find_from, lemma_find_from_first, lemma_find_from_none, lemma_split_char_concat,
    lemma_split_char_none, lines, matches_at, split_char, trim_start,
};

verus! {

// ---------------------------------------------------------------------------
// The lines of the managed block
// ---------------------------------------------------------------------------
pub open spec fn line_require() -> Seq<char> {
    "local git_status = require(\"right-status\")"@
}

pub open spec fn line_auto() -> Seq<char> {
    "  auto_update = false,"@
}

pub open spec fn binary_prefix() -> Seq<char> {
    "  binary_path = "@
}

pub open spec fn line_binary(binary_path: Seq<char>) -> Seq<char> {
    binary_prefix() + lua_quoted(binary_path) + seq![',']
}

pub open spec fn line_close() -> Seq<char> {
    "})"@
}

/// The lines of the managed block, in order.
pub open spec fn block_lines(herdr: bool, binary_path: Seq<char>, options: Seq<Seq<char>>) -> Seq<
    Seq<char>,
> {
    seq![SETUP_BEGIN@, line_require(), setup_call()] + (if herdr {
        seq![line_auto()]
    } else {
        Seq::empty()
    }) + seq![line_binary(binary_path)] + options + seq![line_close(), SETUP_END@]
}

/// A line that `str::lines` gives back unchanged: no line feed in it, and no
/// carriage return at its end.
pub open spec fn clean_line(l: Seq<char>) -> bool {
    single_line(l) && !(l.len() > 0 && l.last() == '\r')
}

proof fn lemma_fixed_lines()
    ensures
        clean_line(SETUP_BEGIN@),
        clean_line(line_require()),
        clean_line(setup_call()),
        clean_line(line_auto()),
        clean_line(binary_prefix()),
        clean_line(line_close()),
        clean_line(SETUP_END@),
        SETUP_END@.len() > 0,
{
    reveal_strlit("-- wezterm-git-status-bridge setup begin");
    reveal_strlit("-- wezterm-git-status-bridge setup end");
    reveal_strlit("local git_status = require(\"right-status\")");
    reveal_strlit("git_status.setup({");
    reveal_strlit("  auto_update = false,");
    reveal_strlit("  binary_path = ");
    reveal_strlit("})");
}

/// The managed block is its lines, each followed by a line feed but the last.
proof fn lemma_block_text_shape(herdr: bool, binary_path: Seq<char>, options: Seq<Seq<char>>)
    ensures
        wezterm_block_text(herdr, binary_path, options) == SETUP_BEGIN@ + seq!['\n'] + (line_require()
            + seq!['\n'] + (setup_call() + seq!['\n'] + ((if herdr {
            line_auto() + seq!['\n']
        } else {
            Seq::empty()
        }) + (line_binary(binary_path) + seq!['\n'] + (lines_with_newlines(options) + (
        line_close() + seq!['\n'] + SETUP_END@)))))),
{
    reveal_strlit("\nlocal git_status = require(\"right-status\")\ngit_status.setup({\n");
    reveal_strlit("local git_status = require(\"right-status\")");
    reveal_strlit("git_status.setup({");
    reveal_strlit("  auto_update = false,\n");
    reveal_strlit("  auto_update = false,");
    reveal_strlit("  binary_path = ");
    reveal_strlit(",\n");
    reveal_strlit("})\n");
    reveal_strlit("})");
    let a = "\nlocal git_status = require(\"right-status\")\ngit_status.setup({\n"@;
    assert(a =~= seq!['\n'] + line_require() + seq!['\n'] + setup_call() + seq!['\n']);
    assert("  auto_update = false,\n"@ =~= line_auto() + seq!['\n']);
    assert(",\n"@ =~= seq![',', '\n']);
    assert("})\n"@ =~= line_close() + seq!['\n']);
    assert(wezterm_block_text(herdr, binary_path, options) =~= SETUP_BEGIN@ + seq!['\n'] + (
    line_require() + seq!['\n'] + (setup_call() + seq!['\n'] + ((if herdr {
        line_auto() + seq!['\n']
    } else {
        Seq::empty()
    }) + (line_binary(binary_path) + seq!['\n'] + (lines_with_newlines(options) + (line_close()
        + seq!['\n'] + SETUP_END@)))))));
}

/// Splitting at line feeds after a run of lines, each followed by one.
proof fn lemma_split_lines_with_newlines(options: Seq<Seq<char>>, rest: Seq<char>)
    requires
        forall|k: int| 0 <= k < options.len() ==> single_line(#[trigger] options[k]),
    ensures
        split_char(lines_with_newlines(options) + rest, '\n') == options + split_char(rest, '\n'),
    decreases options.len(),
{
    if options.len() > 0 {
        let init = options.drop_last();
        let last = options.last();
        let rest2 = last + seq!['\n'] + rest;
        assert(lines_with_newlines(options) + rest =~= lines_with_newlines(init) + rest2);
        assert forall|k: int| 0 <= k < init.len() implies single_line(#[trigger] init[k]) by {
            assert(init[k] == options[k]);
        }
        lemma_split_lines_with_newlines(init, rest2);
        lemma_split_char_concat(last, rest, '\n');
        lemma_split_char_none(last, '\n');
        assert(init + (seq![last] + split_char(rest, '\n')) =~= options + split_char(rest, '\n'));
    } else {
        assert(lines_with_newlines(options) + rest =~= rest);
        assert(options + split_char(rest, '\n') =~= split_char(rest, '\n'));
    }
}

/// `line + LF + rest` splits into `line` and the pieces of `rest`.
proof fn lemma_split_one(line: Seq<char>, rest: Seq<char>)
    requires
        single_line(line),
    ensures
        split_char(line + seq!['\n'] + rest, '\n') == seq![line] + split_char(rest, '\n'),
{
    lemma_split_char_concat(line, rest, '\n');
    lemma_split_char_none(line, '\n');
}

pub proof fn lemma_lua_escaped_single_line(s: Seq<char>)
    requires
        single_line(s),
    ensures
        single_line(lua_escaped(s)),
    decreases s.len(),
{
    if s.len() > 0 {
        lemma_lua_escaped_single_line(s.drop_last());
        assert(s.last() != '\n');
    }
}

/// The lines of the managed block, as `str::lines` reads them back.
proof fn lemma_block_lines(herdr: bool, binary_path: Seq<char>, options: Seq<Seq<char>>)
    requires
        single_line(binary_path),
        forall|k: int| 0 <= k < options.len() ==> clean_line(#[trigger] options[k]),
    ensures
        lines(wezterm_block_text(herdr, binary_path, options)) == block_lines(
            herdr,
            binary_path,
            options,
        ),
{
    lemma_fixed_lines();
    lemma_block_text_shape(herdr, binary_path, options);
    lemma_lua_escaped_single_line(binary_path);
    let bin = line_binary(binary_path);
    assert(clean_line(bin)) by {
        let q = lua_quoted(binary_path);
        assert forall|i: int| 0 <= i < bin.len() implies bin[i] != '\n' by {
            if i < binary_prefix().len() {
                assert(bin[i] == binary_prefix()[i]);
            } else if i < binary_prefix().len() + q.len() {
                let j = i - binary_prefix().len();
                assert(bin[i] == q[j]);
                if 0 < j < q.len() - 1 {
                    assert(q[j] == lua_escaped(binary_path)[j - 1]);
                }
            }
        }
    }
    assert forall|k: int| 0 <= k < options.len() implies single_line(#[trigger] options[k]) by {}
    let tail = line_close() + seq!['\n'] + SETUP_END@;
    lemma_split_one(line_close(), SETUP_END@);
    lemma_split_char_none(SETUP_END@, '\n');
    let after_bin = lines_with_newlines(options) + tail;
    lemma_split_lines_with_newlines(options, tail);
    lemma_split_one(bin, after_bin);
    let after_setup = (if herdr {
        line_auto() + seq!['\n']
    } else {
        Seq::empty()
    }) + (bin + seq!['\n'] + after_bin);
    if herdr {
        assert(after_setup =~= line_auto() + seq!['\n'] + (bin + seq!['\n'] + after_bin));
        lemma_split_one(line_auto(), bin + seq!['\n'] + after_bin);
    } else {
        assert(after_setup =~= bin + seq!['\n'] + after_bin);
    }
    lemma_split_one(setup_call(), after_setup);
    lemma_split_one(line_require(), setup_call() + seq!['\n'] + after_setup);
    lemma_split_one(
        SETUP_BEGIN@,
        line_require() + seq!['\n'] + (setup_call() + seq!['\n'] + after_setup),
    );
    let parts = split_char(wezterm_block_text(herdr, binary_path, options), '\n');
    let expected = block_lines(herdr, binary_path, options);
    assert(parts =~= expected);
    let l = lines(wezterm_block_text(herdr, binary_path, options));
    assert(l.len() == expected.len());
    assert forall|k: int| 0 <= k < l.len() implies l[k] == expected[k] by {
        if k < expected.len() - 1 {
            assert(clean_line(expected[k])) by {
                let o = if herdr {
                    4int
                } else {
                    3int
                };
                if k >= o + 1 && k < o + 1 + options.len() {
                    assert(expected[k] == options[k - o - 1]);
                }
            }
        }
    }
    assert(l =~= expected);
}

// ---------------------------------------------------------------------------
// How the managed lines nest
// ---------------------------------------------------------------------------
/// A character that the Lua scanner copies as it is, outside long brackets.
pub open spec fn plain_code(c: char) -> bool {
    c != '-' && c != '\'' && c != '"' && c != '['
}

proof fn lemma_scan_copies(s: Seq<char>, i: int, k: int)
    requires
        0 <= i <= k <= s.len(),
        forall|j: int| i <= j < k ==> plain_code(#[trigger] s[j]),
    ensures
        scan(s, i, None) == (s.subrange(i, k) + scan(s, k, None).0, scan(s, k, None).1),
    decreases k - i,
{
    if i < k {
        lemma_scan_copies(s, i + 1, k);
        assert(s.subrange(i, k) =~= seq![s[i]] + s.subrange(i + 1, k));
    } else {
        assert(s.subrange(i, k) =~= Seq::<char>::empty());
    }
}

/// The escape of one character.
pub open spec fn escape_one(c: char) -> Seq<char> {
    if c == '\\' {
        seq!['\\', '\\']
    } else if c == '"' {
        seq!['\\', '"']
    } else {
        seq![c]
    }
}

proof fn lemma_lua_escaped_cons(c: char, rest: Seq<char>)
    ensures
        lua_escaped(seq![c] + rest) == escape_one(c) + lua_escaped(rest),
    decreases rest.len(),
{
    let s = seq![c] + rest;
    if rest.len() == 0 {
        assert(s.drop_last() =~= Seq::<char>::empty());
        assert(rest =~= Seq::<char>::empty());
    } else {
        assert(s.drop_last() =~= seq![c] + rest.drop_last());
        lemma_lua_escaped_cons(c, rest.drop_last());
    }
}

/// An escaped string runs to the quote after its escaped text.
proof fn lemma_short_end_escaped(s: Seq<char>, i: int, b: Seq<char>)
    requires
        0 <= i,
        i + lua_escaped(b).len() < s.len(),
        s.subrange(i, i + lua_escaped(b).len()) == lua_escaped(b),
        s[i + lua_escaped(b).len()] == '"',
    ensures
        short_end(s, i, '"') == i + lua_escaped(b).len() + 1,
    decreases b.len(),
{
    let e = lua_escaped(b);
    if b.len() == 0 {
        assert(e.len() == 0);
    } else {
        let c = b[0];
        let rest = b.drop_first();
        assert(b =~= seq![c] + rest);
        lemma_lua_escaped_cons(c, rest);
        let one = escape_one(c);
        let er = lua_escaped(rest);
        assert(s[i] == e[0]) by {
            assert(s.subrange(i, i + e.len())[0] == s[i]);
        }
        assert(s.subrange(i + one.len(), i + one.len() + er.len()) =~= er) by {
            assert forall|j: int| 0 <= j < er.len() implies s.subrange(
                i + one.len(),
                i + one.len() + er.len(),
            )[j] == er[j] by {
                assert(s.subrange(i, i + e.len())[one.len() + j] == e[one.len() + j]);
            }
        }
        if c == '\\' || c == '"' {
            lemma_short_end_escaped(s, i + 2, rest);
        } else {
            lemma_short_end_escaped(s, i + 1, rest);
        }
    }
}

/// The number of `c` in a text without `c` is zero.
proof fn lemma_count_char_absent(s: Seq<char>, c: char)
    requires
        forall|i: int| 0 <= i < s.len() ==> s[i] != c,
    ensures
        count_char(s, c) == 0,
    decreases s.len(),
{
    if s.len() > 0 {
        lemma_count_char_absent(s.drop_last(), c);
    }
}

proof fn lemma_name_parts_absent(s: Seq<char>, c: char)
    requires
        forall|i: int| 0 <= i < s.len() ==> s[i] != c,
    ensures
        forall|k: int, j: int|
            0 <= k < name_parts(s).len() && 0 <= j < name_parts(s)[k].len() ==> name_parts(s)[k][j]
                != c,
    decreases s.len(),
{
    if s.len() > 0 {
        let init = s.drop_last();
        lemma_name_parts_absent(init, c);
        crate::lua::lemma_name_parts_len(init);
        let rest = name_parts(init);
        let parts = name_parts(s);
        assert(s.last() == s[s.len() - 1]);
        assert forall|k: int, j: int|
            0 <= k < parts.len() && 0 <= j < parts[k].len() implies parts[k][j] != c by {
            if is_ident(s.last()) {
                if k < rest.len() - 1 {
                    assert(parts[k] == rest[k]);
                } else {
                    assert(parts[k] == rest.last().push(s.last()));
                    if j < rest.last().len() {
                        assert(parts[k][j] == rest[rest.len() - 1][j]);
                    }
                }
            } else {
                if k < rest.len() {
                    assert(parts[k] == rest[k]);
                }
            }
        }
    }
}

proof fn lemma_count_equal_absent(parts: Seq<Seq<char>>, w: Seq<char>, k: int)
    requires
        0 <= k < w.len(),
        forall|p: int, j: int| 0 <= p < parts.len() && 0 <= j < parts[p].len() ==> parts[p][j] != w[k],
    ensures
        count_equal(parts, w) == 0,
    decreases parts.len(),
{
    if parts.len() > 0 {
        lemma_count_equal_absent(parts.drop_last(), w, k);
        if parts.last() == w {
            assert(parts[parts.len() - 1][k] == w[k]);
        }
    }
}

/// A word holding a character that a text lacks does not stand in it.
proof fn lemma_count_word_absent(s: Seq<char>, w: Seq<char>, k: int)
    requires
        0 <= k < w.len(),
        forall|i: int| 0 <= i < s.len() ==> s[i] != w[k],
    ensures
        count_word(s, w) == 0,
{
    lemma_name_parts_absent(s, w[k]);
    lemma_count_equal_absent(name_parts(s), w, k);
}

/// A line whose code holds no brace and no `function` leaves the nesting at
/// the top of the setup table as it is.
proof fn lemma_nesting_unchanged(line: Seq<char>, code: Seq<char>)
    requires
        scan(line, 0, None) == (code, None::<nat>),
        forall|i: int| 0 <= i < code.len() ==> code[i] != '{' && code[i] != '}' && code[i] != 'c',
    ensures
        nesting_after(in_setup_table(), line) == in_setup_table(),
{
    lemma_count_char_absent(code, '{');
    lemma_count_char_absent(code, '}');
    reveal_strlit("function");
    assert("function"@[3] == 'c');
    lemma_count_word_absent(code, "function"@, 3);
}

proof fn lemma_auto_line_nesting()
    ensures
        nesting_after(in_setup_table(), line_auto()) == in_setup_table(),
{
    reveal_strlit("  auto_update = false,");
    let l = line_auto();
    lemma_scan_copies(l, 0, l.len() as int);
    assert(l.subrange(0, l.len() as int) =~= l);
    lemma_nesting_unchanged(l, l);
}

proof fn lemma_binary_line_nesting(binary_path: Seq<char>)
    ensures
        nesting_after(in_setup_table(), line_binary(binary_path)) == in_setup_table(),
{
    reveal_strlit("  binary_path = ");
    let p = binary_prefix();
    let e = lua_escaped(binary_path);
    let l = line_binary(binary_path);
    assert(l =~= p + seq!['"'] + e + seq!['"'] + seq![',']);
    let q = p.len() as int;
    lemma_scan_copies(l, 0, q);
    assert(l.subrange(0, q) =~= p);
    assert(l[q] == '"');
    lemma_short_end(l, q + 1, '"');
    assert(l.subrange(q + 1, q + 1 + e.len()) =~= e);
    lemma_short_end_escaped(l, q + 1, binary_path);
    let after = q + 1 + e.len() + 1;
    assert(l[after] == ',');
    lemma_scan_copies(l, after, l.len() as int);
    assert(l.subrange(after, l.len() as int) =~= seq![',']);
    let code = p + seq![' '] + seq![','];
    assert(scan(l, 0, None).0 =~= code);
    lemma_nesting_unchanged(l, code);
}

// ---------------------------------------------------------------------------
// Which lines are managed
// ---------------------------------------------------------------------------
proof fn lemma_ident_run(t: Seq<char>, i: int, k: int)
    requires
        0 <= i <= k < t.len(),
        forall|j: int| i <= j < k ==> is_ident(#[trigger] t[j]),
        !is_ident(t[k]),
    ensures
        crate::options::ident_run(t, i) == k - i,
    decreases k - i,
{
    if i < k {
        lemma_ident_run(t, i + 1, k);
    }
}

/// A line of two spaces, the key `key`, a space, `=` and more sets `key`.
proof fn lemma_option_key(line: Seq<char>, key: Seq<char>)
    requires
        line.len() > key.len() + 3,
        line[0] == ' ' && line[1] == ' ',
        line.subrange(2, 2 + key.len() as int) == key,
        key.len() > 0,
        key[0] == '_' || crate::lua::is_ascii_alpha(key[0]),
        forall|j: int| 0 <= j < key.len() ==> is_ident(#[trigger] key[j]),
        line[2 + key.len() as int] == ' ',
        line[3 + key.len() as int] == '=',
    ensures
        option_key(line) == Some(key),
{
    crate::text::lemma_trim_start_skip(line, 2);
    let t = line.skip(2);
    assert(t[0] == key[0]);
    assert(trim_start(line) == t);
    assert forall|j: int| 0 <= j < key.len() implies is_ident(#[trigger] t[j]) by {
        assert(t[j] == line.subrange(2, 2 + key.len() as int)[j]);
    }
    lemma_ident_run(t, 0, key.len() as int);
    let u = t.skip(key.len() as int);
    crate::text::lemma_trim_start_skip(u, 1);
    assert(u.skip(1)[0] == '=');
    assert(trim_start(u) == u.skip(1));
    assert(t.take(key.len() as int) =~= key);
}

proof fn lemma_auto_line_managed()
    ensures
        is_managed(line_auto()),
{
    reveal_strlit("  auto_update = false,");
    reveal_strlit("auto_update");
    let l = line_auto();
    assert(l.subrange(2, 13) =~= "auto_update"@);
    lemma_option_key(l, "auto_update"@);
}

proof fn lemma_binary_line_managed(binary_path: Seq<char>)
    ensures
        is_managed(line_binary(binary_path)),
{
    reveal_strlit("  binary_path = ");
    reveal_strlit("binary_path");
    let l = line_binary(binary_path);
    assert(l.subrange(2, 13) =~= "binary_path"@);
    assert(l[13] == ' ' && l[14] == '=');
    lemma_option_key(l, "binary_path"@);
}

// ---------------------------------------------------------------------------
// The kept options come back
// ---------------------------------------------------------------------------
/// Options that stay inside the setup table, entered with the nesting `n`:
/// no line closes it or is a managed option at its top level, and the `})`
/// after them closes it.
pub open spec fn stays_inside(options: Seq<Seq<char>>, n: LuaNesting) -> bool
    decreases options.len(),
{
    if options.len() == 0 {
        nesting_after(n, line_close()).closed()
    } else {
        let m = nesting_after(n, options[0]);
        &&& !m.closed()
        &&& !(n.top_level() && is_managed(options[0]))
        &&& stays_inside(options.drop_first(), m)
    }
}

proof fn lemma_table_end_through(ls: Seq<Seq<char>>, i: int, n: LuaNesting, options: Seq<Seq<char>>)
    requires
        0 <= i,
        i + options.len() < ls.len(),
        ls.subrange(i, i + options.len()) == options,
        ls[i + options.len()] == line_close(),
        stays_inside(options, n),
    ensures
        table_end_from(ls, i, n) == Some(i + options.len()),
    decreases options.len(),
{
    if options.len() > 0 {
        assert(ls[i] == ls.subrange(i, i + options.len())[0]);
        let rest = options.drop_first();
        assert(ls.subrange(i + 1, i + 1 + rest.len()) =~= rest);
        lemma_table_end_through(ls, i + 1, nesting_after(n, options[0]), rest);
    }
}

proof fn lemma_kept_through(ls: Seq<Seq<char>>, i: int, end: int, n: LuaNesting, options: Seq<Seq<char>>)
    requires
        0 <= i,
        end == i + options.len(),
        end <= ls.len(),
        ls.subrange(i, end) == options,
        stays_inside(options, n),
    ensures
        kept_from(ls, i, end, n) == options,
    decreases options.len(),
{
    if options.len() > 0 {
        assert(ls[i] == ls.subrange(i, end)[0]);
        let rest = options.drop_first();
        assert(ls.subrange(i + 1, end) =~= rest);
        lemma_kept_through(ls, i + 1, end, nesting_after(n, options[0]), rest);
        assert(options =~= seq![options[0]] + rest);
    } else {
        assert(options =~= Seq::<Seq<char>>::empty());
    }
}

/// A pattern with a character that a text lacks is not found in it.
proof fn lemma_not_found(s: Seq<char>, p: Seq<char>, k: int)
    requires
        0 <= k < p.len(),
        forall|i: int| 0 <= i < s.len() ==> s[i] != p[k],
    ensures
        find_from(s, p, 0) is None,
{
    assert forall|j: int| 0 <= j && j + p.len() <= s.len() implies !matches_at(s, p, j) by {
        if matches_at(s, p, j) {
            assert(s.subrange(j, j + p.len())[k] == s[j + k]);
        }
    }
    lemma_find_from_none(s, p, 0);
}

proof fn lemma_setup_line_found(herdr: bool, binary_path: Seq<char>, options: Seq<Seq<char>>)
    ensures
        first_line_with(block_lines(herdr, binary_path, options), setup_call(), 0) == Some(2int),
{
    reveal_strlit("-- wezterm-git-status-bridge setup begin");
    reveal_strlit("local git_status = require(\"right-status\")");
    reveal_strlit("git_status.setup({");
    let ls = block_lines(herdr, binary_path, options);
    let p = setup_call();
    assert(p[17] == '{');
    assert(ls[0] == SETUP_BEGIN@);
    assert(ls[1] == line_require());
    assert(ls[2] == p);
    lemma_not_found(SETUP_BEGIN@, p, 17);
    lemma_not_found(line_require(), p, 17);
    assert(matches_at(p, p, 0)) by {
        assert(p.subrange(0, p.len() as int) =~= p);
    }
    lemma_find_from_first(p, p, 0, 0);
    assert(first_line_with(ls, p, 2) == Some(2int));
    assert(first_line_with(ls, p, 1) == Some(2int));
}

/// Where the managed block's lines start after the setup call line.
pub open spec fn options_start(herdr: bool) -> int {
    if herdr {
        5
    } else {
        4
    }
}

proof fn lemma_block_table_end(herdr: bool, binary_path: Seq<char>, options: Seq<Seq<char>>)
    requires
        stays_inside(options, in_setup_table()),
    ensures
        table_end_from(block_lines(herdr, binary_path, options), 3, in_setup_table()) == Some(
            options_start(herdr) + options.len(),
        ),
{
    lemma_auto_line_nesting();
    lemma_binary_line_nesting(binary_path);
    let ls = block_lines(herdr, binary_path, options);
    let n0 = in_setup_table();
    let first = options_start(herdr);
    let end = first + options.len();
    assert(ls.subrange(first, end) =~= options);
    assert(ls[end] == line_close());
    lemma_table_end_through(ls, first, n0, options);
    assert(ls[first - 1] == line_binary(binary_path));
    assert(table_end_from(ls, first - 1, n0) == Some(end));
    if herdr {
        assert(ls[3] == line_auto());
    }
}

proof fn lemma_block_kept(herdr: bool, binary_path: Seq<char>, options: Seq<Seq<char>>)
    requires
        stays_inside(options, in_setup_table()),
    ensures
        kept_from(
            block_lines(herdr, binary_path, options),
            3,
            options_start(herdr) + options.len(),
            in_setup_table(),
        ) == options,
{
    lemma_auto_line_managed();
    lemma_binary_line_managed(binary_path);
    let ls = block_lines(herdr, binary_path, options);
    let n0 = in_setup_table();
    let first = options_start(herdr);
    let end = first + options.len();
    assert(ls.subrange(first, end) =~= options);
    lemma_kept_through(ls, first, end, n0, options);
    assert(ls[first - 1] == line_binary(binary_path));
    assert(kept_from(ls, first - 1, end, n0) == options);
    if herdr {
        assert(ls[3] == line_auto());
    }
}

/// Rerunning setup keeps the options it kept before: the options a new setup
/// keeps from a managed block are the options that block was written with,
/// for any Herdr choice and binary path, when the options are lines that stay
/// inside the setup table (no line closes it or sets `auto_update` or
/// `binary_path` at its top level, and it is closed by the `})` after them),
/// with no blank line at either end, and no line feed in the binary path.
pub proof fn lemma_rerun_keeps_options(herdr: bool, binary_path: Seq<char>, options: Seq<Seq<char>>)
    requires
        single_line(binary_path),
        forall|k: int| 0 <= k < options.len() ==> clean_line(#[trigger] options[k]),
        stays_inside(options, in_setup_table()),
        trim_blank(options) == options,
    ensures
        preserved_options(wezterm_block_text(herdr, binary_path, options)) == Some(options),
{
    lemma_block_lines(herdr, binary_path, options);
    lemma_setup_line_found(herdr, binary_path, options);
    lemma_block_table_end(herdr, binary_path, options);
    lemma_block_kept(herdr, binary_path, options);
}

/// Running the WezTerm setup twice on a configuration that holds a managed
/// block gives what running it once, with the second run's Herdr choice and
/// binary path, gives: the managed settings are refreshed and the options the
/// user added to the setup call are kept. This holds when those options stay
/// inside the setup table, have no blank line at either end, and the block
/// that the first run writes is well marked (no end marker inside it), and
/// when no binary path holds a line feed.
pub proof fn lemma_wezterm_setup_rerun(
    current: Seq<char>,
    options: Seq<Seq<char>>,
    first_herdr: bool,
    first_binary: Seq<char>,
    second_herdr: bool,
    second_binary: Seq<char>,
)
    requires
        marked_text(current, SETUP_BEGIN@, SETUP_END@) matches Some(block) && preserved_options(
            block,
        ) == Some(options),
        forall|k: int| 0 <= k < options.len() ==> clean_line(#[trigger] options[k]),
        stays_inside(options, in_setup_table()),
        trim_blank(options) == options,
        single_line(first_binary),
        single_line(second_binary),
        well_marked(
            wezterm_block_text(first_herdr, first_binary, options),
            SETUP_BEGIN@,
            SETUP_END@,
        ),
    ensures
        wezterm_config_text(
            Some(wezterm_config_text(Some(current), first_herdr, first_binary)),
            second_herdr,
            second_binary,
        ) == wezterm_config_text(Some(current), second_herdr, second_binary),
{
    lemma_fixed_lines();
    let first_block = wezterm_block_text(first_herdr, first_binary, options);
    let second_block = wezterm_block_text(second_herdr, second_binary, options);
    assert(replaced_text(current, SETUP_BEGIN@, SETUP_END@, first_block) is Some);
    let t = replaced_text(current, SETUP_BEGIN@, SETUP_END@, first_block)->0;
    assert(wezterm_config_text(Some(current), first_herdr, first_binary) == t);
    lemma_replaced_marks_block(current, SETUP_BEGIN@, SETUP_END@, first_block);
    lemma_rerun_keeps_options(first_herdr, first_binary, options);
    lemma_latest_block_wins(current, SETUP_BEGIN@, SETUP_END@, first_block, second_block);
    assert(replaced_text(t, SETUP_BEGIN@, SETUP_END@, second_block) is Some);
}

} // verus!

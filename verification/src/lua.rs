//! Just enough Lua lexing to follow the nesting of the `git_status.setup({..})`
//! table line by line: strings and comments are blanked out, long brackets
//! (`[[..]]`, `[==[..]==]`) may span lines, and braces and `function`/`end`
//! are counted in what is left.
use vstd::prelude::*;

use crate::text::{chars_of, push_char};

verus! {

// ---------------------------------------------------------------------------
// Lexing one line
// ---------------------------------------------------------------------------
pub open spec fn is_ascii_alpha(c: char) -> bool {
    ('a' <= c && c <= 'z') || ('A' <= c && c <= 'Z')
}

pub open spec fn is_ascii_alnum(c: char) -> bool {
    is_ascii_alpha(c) || ('0' <= c && c <= '9')
}

/// A character of a Lua name.
pub open spec fn is_ident(c: char) -> bool {
    c == '_' || is_ascii_alnum(c)
}

/// The number of `=` in a row from `i`.
pub open spec fn eq_run(s: Seq<char>, i: int) -> nat
    decreases s.len() - i,
{
    if 0 <= i < s.len() && s[i] == '=' {
        1 + eq_run(s, i + 1)
    } else {
        0
    }
}

/// A long bracket `[`, `=`*k, `[` opening at `i`: its level `k` and the
/// position after it.
pub open spec fn open_end(s: Seq<char>, i: int) -> Option<(nat, int)> {
    if 0 <= i < s.len() && s[i] == '[' {
        let k = eq_run(s, i + 1);
        let c = i + 1 + k;
        if c < s.len() && s[c] == '[' {
            Some((k, c + 1))
        } else {
            None
        }
    } else {
        None
    }
}

/// A long bracket `]`, `=`*eq, `]` closing at `i`: the position after it.
pub open spec fn close_end(s: Seq<char>, i: int, eq: nat) -> Option<int> {
    if 0 <= i && i + 1 + eq < s.len() && s[i] == ']' && (forall|j: int|
        i + 1 <= j < i + 1 + eq ==> s[j] == '=') && s[i + 1 + eq] == ']' {
        Some(i + eq + 2)
    } else {
        None
    }
}

/// The position after the quote `q` that ends a short string whose text
/// starts at `i`; a backslash escapes the next character. An unterminated
/// string runs to the end of the line.
pub open spec fn short_end(s: Seq<char>, i: int, q: char) -> int
    decreases s.len() + 1 - i,
{
    if i < 0 || i >= s.len() {
        s.len() as int
    } else if s[i] == '\\' {
        short_end(s, i + 2, q)
    } else if s[i] == q {
        i + 1
    } else {
        short_end(s, i + 1, q)
    }
}

pub proof fn lemma_short_end(s: Seq<char>, i: int, q: char)
    requires
        0 <= i <= s.len(),
    ensures
        i <= short_end(s, i, q) <= s.len(),
        i < s.len() ==> i < short_end(s, i, q),
    decreases s.len() + 1 - i,
{
    if i < s.len() {
        if s[i] == '\\' {
            if i + 2 <= s.len() {
                lemma_short_end(s, i + 2, q);
            }
        } else if s[i] != q {
            lemma_short_end(s, i + 1, q);
        }
    }
}

/// The code of `s` from `i` on, for counting nesting, and the long bracket
/// level open at its end. `st` is the level of the long bracket (string or
/// comment) open at `i`, if any. Comments are dropped; strings and long
/// brackets become one space each; everything else is kept.
pub open spec fn scan(s: Seq<char>, i: int, st: Option<nat>) -> (Seq<char>, Option<nat>)
    decreases s.len() - i,
{
    if i < 0 || i >= s.len() {
        (Seq::empty(), st)
    } else {
        match st {
            Some(eq) => match close_end(s, i, eq) {
                Some(ce) => scan(s, ce, None),
                None => scan(s, i + 1, st),
            },
            None => if s[i] == '-' && i + 1 < s.len() && s[i + 1] == '-' {
                match open_end(s, i + 2) {
                    Some((eq, oe)) => scan(s, oe, Some(eq)),
                    None => (Seq::empty(), None),
                }
            } else if s[i] == '\'' || s[i] == '"' {
                proof {
                    lemma_short_end(s, i + 1, s[i]);
                }
                let r = scan(s, short_end(s, i + 1, s[i]), None);
                (seq![' '] + r.0, r.1)
            } else {
                match open_end(s, i) {
                    Some((eq, oe)) => {
                        let r = scan(s, oe, Some(eq));
                        (seq![' '] + r.0, r.1)
                    },
                    None => {
                        let r = scan(s, i + 1, None);
                        (seq![s[i]] + r.0, r.1)
                    },
                }
            },
        }
    }
}

pub open spec fn level(o: Option<usize>) -> Option<nat> {
    match o {
        Some(k) => Some(k as nat),
        None => None,
    }
}

proof fn lemma_eq_run_bound(s: Seq<char>, i: int)
    requires
        0 <= i,
    ensures
        i + eq_run(s, i) <= (if i <= s.len() {
            s.len() as int
        } else {
            i
        }),
        forall|j: int| i <= j < i + eq_run(s, i) ==> s[j] == '=',
        i + eq_run(s, i) < s.len() ==> s[i + eq_run(s, i)] != '=',
    decreases s.len() - i,
{
    if 0 <= i < s.len() && s[i] == '=' {
        lemma_eq_run_bound(s, i + 1);
    }
}

/// The long bracket opening at `index`: its level and the position after it.
fn long_bracket_open_end(s: &[char], index: usize) -> (r: Option<(usize, usize)>)
    ensures
        match open_end(s@, index as int) {
            Some((k, e)) => r == Some((k as usize, e as usize)) && e <= s@.len(),
            None => r is None,
        },
{
    let n = s.len();
    if index >= n || s[index] != '[' {
        return None;
    }
    let mut cursor = index + 1;
    while cursor < n && s[cursor] == '='
        invariant
            n == s@.len(),
            index < cursor <= n,
            eq_run(s@, index + 1) == (cursor - index - 1) + eq_run(s@, cursor as int),
        decreases n - cursor,
    {
        cursor = cursor + 1;
    }
    if cursor < n && s[cursor] == '[' {
        Some((cursor - index - 1, cursor + 1))
    } else {
        None
    }
}

/// The end of the long bracket of level `equals` closing at `index`.
fn long_bracket_close_end(s: &[char], index: usize, equals: usize) -> (r: Option<usize>)
    ensures
        match close_end(s@, index as int, equals as nat) {
            Some(e) => r == Some(e as usize) && e <= s@.len(),
            None => r is None,
        },
{
    let n = s.len();
    if index >= n || s[index] != ']' {
        return None;
    }
    let mut cursor = index + 1;
    let mut k: usize = 0;
    while k < equals
        invariant
            n == s@.len(),
            index < n,
            cursor == index + 1 + k,
            k <= equals,
            forall|j: int| index + 1 <= j < cursor ==> s@[j] == '=',
        decreases equals - k,
    {
        if cursor >= n || s[cursor] != '=' {
            return None;
        }
        cursor = cursor + 1;
        k = k + 1;
    }
    if cursor < n && s[cursor] == ']' {
        Some(cursor + 1)
    } else {
        None
    }
}

/// The position after the quote that ends the short string from `index`.
fn short_string_end(s: &[char], index: usize, quote: char) -> (r: usize)
    requires
        index <= s@.len(),
    ensures
        r as int == short_end(s@, index as int, quote),
{
    let n = s.len();
    let mut i = index;
    while i < n
        invariant
            n == s@.len(),
            short_end(s@, index as int, quote) == short_end(s@, i as int, quote),
        decreases n + 1 - i,
    {
        if s[i] == '\\' {
            let j = i.saturating_add(2);
            assert(short_end(s@, i as int, quote) == short_end(s@, i + 2, quote));
            assert(short_end(s@, i + 2, quote) == short_end(s@, j as int, quote));
            i = j;
        } else if s[i] == quote {
            return i + 1;
        } else {
            i = i + 1;
        }
    }
    n
}

/// The code of one line, for counting nesting: comments dropped, strings and
/// long brackets blanked, with the long bracket level carried over from the
/// line before in `long_bracket_equals` and left there for the next line.
pub fn lua_code_for_nesting(line: &str, long_bracket_equals: &mut Option<usize>) -> (r: String)
    ensures
        (r@, level(*final(long_bracket_equals))) == scan(line@, 0, level(*old(long_bracket_equals))),
{
    let s = chars_of(line);
    let n = s.len();
    let mut code = String::new();
    let mut index: usize = 0;
    let ghost goal = scan(s@, 0, level(*long_bracket_equals));
    let mut done = false;
    while index < n && !done
        invariant
            n == s@.len(),
            s@ == line@,
            index <= n,
            goal == scan(s@, 0, level(*old(long_bracket_equals))),
            goal.0 == code@ + scan(s@, index as int, level(*long_bracket_equals)).0,
            goal.1 == scan(s@, index as int, level(*long_bracket_equals)).1,
            done ==> scan(s@, index as int, level(*long_bracket_equals)) == (
                Seq::<char>::empty(),
                None::<nat>,
            ),
            done ==> *long_bracket_equals is None,
        decreases n - index, (if done {
            0int
        } else {
            1int
        }),
    {
        if let Some(equals) = *long_bracket_equals {
            match long_bracket_close_end(s.as_slice(), index, equals) {
                Some(close_end) => {
                    *long_bracket_equals = None;
                    index = close_end;
                },
                None => {
                    index = index + 1;
                },
            }
            continue;
        }
        if s[index] == '-' && index + 1 < n && s[index + 1] == '-' {
            match long_bracket_open_end(s.as_slice(), index + 2) {
                Some((equals, open_end)) => {
                    proof {
                        lemma_eq_run_bound(s@, index + 3);
                    }
                    *long_bracket_equals = Some(equals);
                    index = open_end;
                    continue;
                },
                None => {
                    done = true;
                    continue;
                },
            }
        }
        if s[index] == '\'' || s[index] == '"' {
            proof {
                lemma_short_end(s@, index + 1, s@[index as int]);
            }
            index = short_string_end(s.as_slice(), index + 1, s[index]);
            let ghost before = code@;
            push_char(&mut code, ' ');
            assert(code@ + scan(s@, index as int, None).0 =~= before + (seq![' '] + scan(
                s@,
                index as int,
                None,
            ).0));
            continue;
        }
        match long_bracket_open_end(s.as_slice(), index) {
            Some((equals, open_end)) => {
                proof {
                    lemma_eq_run_bound(s@, index + 1);
                }
                *long_bracket_equals = Some(equals);
                let ghost before = code@;
                index = open_end;
                push_char(&mut code, ' ');
                assert(code@ + scan(s@, index as int, Some(equals as nat)).0 =~= before + (seq![
                    ' ',
                ] + scan(s@, index as int, Some(equals as nat)).0));
            },
            None => {
                let c = s[index];
                let ghost before = code@;
                index = index + 1;
                push_char(&mut code, c);
                assert(code@ + scan(s@, index as int, None).0 =~= before + (seq![c] + scan(
                    s@,
                    index as int,
                    None,
                ).0));
            },
        }
    }
    assert(code@ =~= goal.0);
    code
}

// ---------------------------------------------------------------------------
// Counting
// ---------------------------------------------------------------------------
/// The number of `c` in `s`.
pub open spec fn count_char(s: Seq<char>, c: char) -> nat
    decreases s.len(),
{
    if s.len() == 0 {
        0
    } else {
        count_char(s.drop_last(), c) + (if s.last() == c {
            1nat
        } else {
            0nat
        })
    }
}

/// `s` cut at every character that is not part of a Lua name.
pub open spec fn name_parts(s: Seq<char>) -> Seq<Seq<char>>
    decreases s.len(),
{
    if s.len() == 0 {
        seq![Seq::<char>::empty()]
    } else {
        let rest = name_parts(s.drop_last());
        if is_ident(s.last()) {
            rest.update(rest.len() - 1, rest.last().push(s.last()))
        } else {
            rest.push(Seq::<char>::empty())
        }
    }
}

/// The number of parts equal to `w`.
pub open spec fn count_equal(parts: Seq<Seq<char>>, w: Seq<char>) -> nat
    decreases parts.len(),
{
    if parts.len() == 0 {
        0
    } else {
        count_equal(parts.drop_last(), w) + (if parts.last() == w {
            1nat
        } else {
            0nat
        })
    }
}

/// The number of times `w` stands in `s` as a whole word.
pub open spec fn count_word(s: Seq<char>, w: Seq<char>) -> nat {
    count_equal(name_parts(s), w)
}

pub proof fn lemma_name_parts_len(s: Seq<char>)
    ensures
        name_parts(s).len() >= 1,
        name_parts(s).len() <= s.len() + 1,
    decreases s.len(),
{
    if s.len() > 0 {
        lemma_name_parts_len(s.drop_last());
    }
}

fn is_ident_char(c: char) -> (r: bool)
    ensures
        r == is_ident(c),
{
    c == '_' || ('a' <= c && c <= 'z') || ('A' <= c && c <= 'Z') || ('0' <= c && c <= '9')
}

/// The number of `c` in `s`.
fn count_char_in(s: &[char], c: char) -> (r: usize)
    ensures
        r == count_char(s@, c),
{
    let n = s.len();
    let mut count: usize = 0;
    let mut i: usize = 0;
    while i < n
        invariant
            n == s@.len(),
            i <= n,
            count == count_char(s@.take(i as int), c),
            count <= i,
        decreases n - i,
    {
        assert(s@.take(i + 1).drop_last() =~= s@.take(i as int));
        if s[i] == c {
            count = count + 1;
        }
        i = i + 1;
    }
    assert(s@.take(n as int) =~= s@);
    count
}

/// The number of times `word` stands in `value` as a whole Lua word.
pub fn count_lua_word(value: &str, word: &str) -> (r: usize)
    ensures
        r == min(count_word(value@, word@), usize::MAX as nat),
{
    let s = chars_of(value);
    let w = chars_of(word);
    let n = s.len();
    let mut count: usize = 0;
    let mut cur: Vec<char> = Vec::new();
    let mut i: usize = 0;
    assert(s@.take(0) =~= Seq::<char>::empty());
    while i < n
        invariant
            n == s@.len(),
            i <= n,
            name_parts(s@.take(i as int)).len() >= 1,
            count == min(count_equal(name_parts(s@.take(i as int)).drop_last(), w@), usize::MAX as nat),
            cur@ == name_parts(s@.take(i as int)).last(),
        decreases n - i,
    {
        let ghost prev = s@.take(i as int);
        let ghost parts = name_parts(prev);
        assert(s@.take(i + 1).drop_last() =~= prev);
        let c = s[i];
        if is_ident_char(c) {
            cur.push(c);
            assert(name_parts(s@.take(i + 1)).drop_last() =~= parts.drop_last());
        } else {
            if crate::text::same_chars(cur.as_slice(), w.as_slice()) {
                count = count.saturating_add(1);
            }
            cur = Vec::new();
            proof {
                let next = name_parts(s@.take(i + 1));
                assert(next.drop_last() =~= parts);
                assert(parts.drop_last() =~= parts.drop_last());
            }
        }
        i = i + 1;
    }
    assert(s@.take(n as int) =~= s@);
    if crate::text::same_chars(cur.as_slice(), w.as_slice()) {
        count = count.saturating_add(1);
    }
    proof {
        let parts = name_parts(s@);
        assert(parts.drop_last() =~= parts.drop_last());
    }
    count
}

// ---------------------------------------------------------------------------
// Nesting across lines
// ---------------------------------------------------------------------------
/// How deep the lines read so far leave the text: open tables, open
/// `function` bodies, and the level of a long bracket still open.
#[derive(Clone, Copy, Debug)]
pub struct LuaNesting {
    pub table_depth: usize,
    pub function_depth: usize,
    pub long_bracket_equals: Option<usize>,
}

pub open spec fn min(a: nat, b: nat) -> nat {
    if a < b {
        a
    } else {
        b
    }
}

pub open spec fn sat_add(a: usize, b: nat) -> usize {
    if a + b > usize::MAX {
        usize::MAX
    } else {
        (a + b) as usize
    }
}

pub open spec fn sat_sub(a: usize, b: nat) -> usize {
    if a < b {
        0
    } else {
        (a - b) as usize
    }
}

pub open spec fn to_level(o: Option<nat>) -> Option<usize> {
    match o {
        Some(k) => Some(k as usize),
        None => None,
    }
}

/// The nesting after the line `line`: braces and the words `function` and
/// `end` in its code move the depths, never below zero.
pub open spec fn nesting_after(n: LuaNesting, line: Seq<char>) -> LuaNesting {
    let (code, st) = scan(line, 0, level(n.long_bracket_equals));
    LuaNesting {
        table_depth: sat_sub(sat_add(n.table_depth, count_char(code, '{')), count_char(code, '}')),
        function_depth: sat_sub(
            sat_add(n.function_depth, count_word(code, "function"@)),
            count_word(code, "end"@),
        ),
        long_bracket_equals: to_level(st),
    }
}

impl LuaNesting {
    /// Inside the setup table: one table open.
    pub fn setup_table() -> (r: Self)
        ensures
            r.table_depth == 1 && r.function_depth == 0 && r.long_bracket_equals is None,
    {
        LuaNesting { table_depth: 1, function_depth: 0, long_bracket_equals: None }
    }

    pub open spec fn top_level(self) -> bool {
        self.table_depth == 1 && self.function_depth == 0 && self.long_bracket_equals is None
    }

    pub open spec fn closed(self) -> bool {
        self.table_depth == 0 && self.function_depth == 0 && self.long_bracket_equals is None
    }

    /// At the top level of the setup table, outside any function or long bracket.
    pub fn is_setup_table_top_level(&self) -> (r: bool)
        ensures
            r == self.top_level(),
    {
        self.table_depth == 1 && self.function_depth == 0 && self.long_bracket_equals.is_none()
    }

    /// The setup table has been closed, outside any function or long bracket.
    pub fn is_setup_table_closed(&self) -> (r: bool)
        ensures
            r == self.closed(),
    {
        self.table_depth == 0 && self.function_depth == 0 && self.long_bracket_equals.is_none()
    }

    /// Follows the nesting through one more line.
    pub fn update(&mut self, line: &str)
        ensures
            *final(self) == nesting_after(*old(self), line@),
    {
        let code = lua_code_for_nesting(line, &mut self.long_bracket_equals);
        let cs = chars_of(code.as_str());
        let opens = count_char_in(cs.as_slice(), '{');
        let closes = count_char_in(cs.as_slice(), '}');
        self.table_depth = self.table_depth.saturating_add(opens).saturating_sub(closes);
        let functions = count_lua_word(code.as_str(), "function");
        let ends = count_lua_word(code.as_str(), "end");
        self.function_depth = self.function_depth.saturating_add(functions).saturating_sub(ends);
        proof {
            let (c, st) = scan(line@, 0, level(old(self).long_bracket_equals));
            assert(level(self.long_bracket_equals) == st);
            if let Some(k) = st {
                assert(self.long_bracket_equals == Some(k as usize));
            }
        }
    }
}

} // verus!

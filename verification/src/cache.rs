//! The cache that the terminal adapters read: where it lives, the file name
//! that each pane and each directory gets, and how the focused entry is read
//! back.
use vstd::prelude::*;

use crate::path::{join_path, path_join};
use crate::payload::{decimal, payload_line, payload_tag, Payload};
use crate::text::{
    char_views, chars_of, find_from, lemma_find_from_result, lemma_split_char_concat,
    lemma_split_char_none, lemma_split_char_pieces, lines, lines_of, matches_at, push_char,
    same_chars, split_char, split_chars, string_of, strip_cr,
};

verus! {

// ---------------------------------------------------------------------------
// Cache directory
// ---------------------------------------------------------------------------
/// `$XDG_CACHE_HOME/wezterm`, else `$HOME/.cache/wezterm`, else `./wezterm`.
pub open spec fn cache_dir(xdg_cache_home: Option<Seq<char>>, home: Option<Seq<char>>) -> Seq<
    char,
> {
    let base = match xdg_cache_home {
        Some(x) => x,
        None => match home {
            Some(h) => path_join(h, ".cache"@),
            None => seq!['.'],
        },
    };
    path_join(base, "wezterm"@)
}

/// The cache directory for the given `XDG_CACHE_HOME` and `HOME`, each as
/// found in the environment (set or not).
pub fn default_cache_dir_from(xdg_cache_home: Option<&str>, home: Option<&str>) -> (r: String)
    ensures
        r@ == cache_dir(
            match xdg_cache_home {
                Some(x) => Some(x@),
                None => None,
            },
            match home {
                Some(h) => Some(h@),
                None => None,
            },
        ),
{
    let base = match xdg_cache_home {
        Some(x) => x.to_owned(),
        None => match home {
            Some(h) => join_path(h, ".cache"),
            None => {
                let mut dot = String::new();
                push_char(&mut dot, '.');
                dot
            },
        },
    };
    join_path(base.as_str(), "wezterm")
}

// ---------------------------------------------------------------------------
// Per-pane file names
// ---------------------------------------------------------------------------
/// `s` with each `/` turned into `_`.
pub open spec fn slashes_replaced(s: Seq<char>) -> Seq<char> {
    s.map_values(|c: char| if c == '/' { '_' } else { c })
}

/// `s` is empty or made of dots only (`""`, `.`, `..`, ...).
pub open spec fn dots_only(s: Seq<char>) -> bool {
    forall|i: int| 0 <= i < s.len() ==> s[i] == '.'
}

/// The file name for a pane's cache entry: the pane id with `/` turned into
/// `_`, or `_` where that would be empty or dots only.
pub open spec fn sanitized_pane_id(pane_id: Seq<char>) -> Seq<char> {
    let r = slashes_replaced(pane_id);
    if dots_only(r) {
        seq!['_']
    } else {
        r
    }
}

/// A pane's file name is always one safe name: not empty, without `/`, and
/// not made of dots only; a pane id that is already such a name is its own
/// file name, and otherwise each `/` becomes `_`, or a dots-only result
/// becomes `_`.
pub proof fn lemma_sanitized_name(pane_id: Seq<char>)
    ensures
        sanitized_pane_id(pane_id).len() > 0,
        forall|i: int| 0 <= i < sanitized_pane_id(pane_id).len() ==> #[trigger] sanitized_pane_id(pane_id)[i] != '/',
        !dots_only(sanitized_pane_id(pane_id)),
        ((forall|i: int| 0 <= i < pane_id.len() ==> pane_id[i] != '/') && !dots_only(pane_id))
            ==> sanitized_pane_id(pane_id) == pane_id,
        !dots_only(slashes_replaced(pane_id)) ==> sanitized_pane_id(pane_id).len() == pane_id.len()
            && forall|i: int| 0 <= i < pane_id.len() && #[trigger] pane_id[i] != '/'
                ==> sanitized_pane_id(pane_id)[i] == pane_id[i],
{
    let r = slashes_replaced(pane_id);
    if !dots_only(r) {
        assert forall|i: int| 0 <= i < r.len() implies #[trigger] r[i] != '/' by {}
    } else {
        assert(seq!['_'][0] == '_');
        assert(!dots_only(seq!['_']));
    }
    if (forall|i: int| 0 <= i < pane_id.len() ==> pane_id[i] != '/') && !dots_only(pane_id) {
        assert(r =~= pane_id);
    }
}

/// The file name under which a pane's status is cached. It is always a single
/// ordinary file name: not empty, without `/`, and not made of dots only.
pub fn sanitize_pane_id(pane_id: &str) -> (r: String)
    ensures
        r@ == sanitized_pane_id(pane_id@),
        r@.len() > 0,
        forall|i: int| 0 <= i < r@.len() ==> r@[i] != '/',
        !dots_only(r@),
{
    let cs = chars_of(pane_id);
    let n = cs.len();
    let mut out: Vec<char> = Vec::new();
    let mut only_dots = true;
    let mut i: usize = 0;
    while i < n
        invariant
            n == cs@.len(),
            i <= n,
            out@ == slashes_replaced(cs@.take(i as int)),
            only_dots == dots_only(out@),
        decreases n - i,
    {
        let c = cs[i];
        let d = if c == '/' {
            '_'
        } else {
            c
        };
        let ghost old_out = out@;
        if d != '.' {
            only_dots = false;
        }
        out.push(d);
        proof {
            assert(slashes_replaced(cs@.take(i + 1)) =~= slashes_replaced(cs@.take(i as int)).push(
                d,
            ));
            if dots_only(old_out) && d == '.' {
                assert forall|k: int| 0 <= k < out@.len() implies out@[k] == '.' by {
                    if k < old_out.len() {
                        assert(out@[k] == old_out[k]);
                    }
                }
            } else if !dots_only(old_out) {
                let j = choose|j: int| 0 <= j < old_out.len() && old_out[j] != '.';
                assert(out@[j] == old_out[j]);
            } else {
                assert(out@[old_out.len() as int] == d);
            }
        }
        i = i + 1;
    }
    assert(cs@.take(n as int) =~= cs@);
    if only_dots {
        let mut r = String::new();
        push_char(&mut r, '_');
        assert(!dots_only(r@)) by {
            assert(r@[0] == '_');
        }
        r
    } else {
        let r = string_of(out.as_slice());
        r
    }
}

// ---------------------------------------------------------------------------
// Per-directory file names
// ---------------------------------------------------------------------------
/// The FNV-1a 32-bit hash of `bytes`.
pub open spec fn fnv1a32(bytes: Seq<u8>) -> u32
    decreases bytes.len(),
{
    if bytes.len() == 0 {
        2166136261u32
    } else {
        (((fnv1a32(bytes.drop_last()) ^ (bytes.last() as u32)) as nat * 16777619nat)
            % 0x1_0000_0000nat) as u32
    }
}

/// The per-directory key is the FNV-1a fold over every byte of the path: it
/// starts from the offset basis, and each byte is mixed in by xor and then
/// multiplied by the FNV prime modulo 2^32, so the key depends on every byte
/// and on their order.
pub proof fn lemma_fnv1a32_fold(b: Seq<u8>, x: u8)
    ensures
        fnv1a32(Seq::<u8>::empty()) == 2166136261u32,
        fnv1a32(b.push(x)) as int == ((fnv1a32(b) ^ (x as u32)) as int * 16777619) % 0x1_0000_0000,
{
    assert(b.push(x).drop_last() =~= b);
}

/// The lower-case hexadecimal digit for `d < 16`.
pub open spec fn hex_char(d: nat) -> char {
    if d < 10 {
        crate::payload::digit_char(d)
    } else if d == 10 {
        'a'
    } else if d == 11 {
        'b'
    } else if d == 12 {
        'c'
    } else if d == 13 {
        'd'
    } else if d == 14 {
        'e'
    } else {
        'f'
    }
}

/// The last `count` hexadecimal digits of `n`, zero-padded.
pub open spec fn hex_digits(n: nat, count: nat) -> Seq<char>
    decreases count,
{
    if count == 0 {
        Seq::empty()
    } else {
        hex_digits(n / 16, (count - 1) as nat).push(hex_char(n % 16))
    }
}

/// `c` is a lower-case hexadecimal digit.
pub open spec fn is_lower_hex(c: char) -> bool {
    ('0' <= c && c <= '9') || ('a' <= c && c <= 'f')
}

proof fn lemma_hex_digits(n: nat, count: nat)
    ensures
        hex_digits(n, count).len() == count,
        forall|i: int| 0 <= i < count ==> is_lower_hex(#[trigger] hex_digits(n, count)[i]),
    decreases count,
{
    if count > 0 {
        lemma_hex_digits(n / 16, (count - 1) as nat);
    }
}

fn hex_digit(d: u32) -> (c: char)
    requires
        d < 16,
    ensures
        c == hex_char(d as nat),
{
    if d == 0 {
        '0'
    } else if d == 1 {
        '1'
    } else if d == 2 {
        '2'
    } else if d == 3 {
        '3'
    } else if d == 4 {
        '4'
    } else if d == 5 {
        '5'
    } else if d == 6 {
        '6'
    } else if d == 7 {
        '7'
    } else if d == 8 {
        '8'
    } else if d == 9 {
        '9'
    } else if d == 10 {
        'a'
    } else if d == 11 {
        'b'
    } else if d == 12 {
        'c'
    } else if d == 13 {
        'd'
    } else if d == 14 {
        'e'
    } else {
        'f'
    }
}

fn push_hex(out: &mut String, n: u32, count: u32)
    ensures
        final(out)@ == old(out)@ + hex_digits(n as nat, count as nat),
    decreases count,
{
    if count > 0 {
        push_hex(out, n / 16, count - 1);
        push_char(out, hex_digit(n % 16));
    }
}

/// The FNV-1a hash of the UTF-8 bytes of `value`, as eight lower-case
/// hexadecimal digits.
pub fn fnv1a32_hex(value: &str) -> (r: String)
    ensures
        r@ == hex_digits(fnv1a32(vstd::utf8::encode_utf8(value@)) as nat, 8),
{
    let bytes = value.as_bytes();
    let n = bytes.len();
    let mut hash: u32 = 2166136261;
    let mut i: usize = 0;
    while i < n
        invariant
            n == bytes@.len(),
            i <= n,
            hash == fnv1a32(bytes@.take(i as int)),
        decreases n - i,
    {
        assert(bytes@.take(i + 1).drop_last() =~= bytes@.take(i as int));
        hash = hash ^ (bytes[i] as u32);
        hash = hash.wrapping_mul(16777619);
        i = i + 1;
    }
    assert(bytes@.take(n as int) =~= bytes@);
    let mut out = String::new();
    push_hex(&mut out, hash, 8);
    out
}

/// The file name under which a directory's status is cached: the same for the
/// same path in every writer and reader, always eight lower-case hexadecimal
/// digits.
pub fn cwd_cache_key(cwd: &str) -> (r: String)
    ensures
        r@ == hex_digits(fnv1a32(vstd::utf8::encode_utf8(cwd@)) as nat, 8),
        r@.len() == 8,
        forall|i: int| 0 <= i < 8 ==> is_lower_hex(#[trigger] r@[i]),
{
    let r = fnv1a32_hex(cwd);
    proof {
        lemma_hex_digits(fnv1a32(vstd::utf8::encode_utf8(cwd@)) as nat, 8);
    }
    r
}

// ---------------------------------------------------------------------------
// Cache files
// ---------------------------------------------------------------------------
/// The file that holds the status of the pane updated last.
pub const GLOBAL_FILE: &'static str = "herdr-git-info";

/// The directory of the files kept per pane.
pub const BY_PANE_DIR: &'static str = "herdr-git-info-by-pane";

/// The directory of the files kept per working directory.
pub const BY_CWD_DIR: &'static str = "herdr-git-info-by-cwd";

/// The file that holds the status of the pane that Herdr has focused.
pub const FOCUSED_FILE: &'static str = "herdr-git-info-focused";

/// The name of a directory's cache file: eight lower-case hexadecimal digits
/// of the FNV-1a hash of its path's UTF-8 bytes.
pub open spec fn cwd_key(cwd: Seq<char>) -> Seq<char> {
    hex_digits(fnv1a32(vstd::utf8::encode_utf8(cwd)) as nat, 8)
}

/// The cache file of pane `pane_id` under `cache_dir`.
pub open spec fn pane_file(cache_dir: Seq<char>, pane_id: Seq<char>) -> Seq<char> {
    path_join(path_join(cache_dir, BY_PANE_DIR@), sanitized_pane_id(pane_id))
}

/// The cache file of the directory `cwd` under `cache_dir`.
pub open spec fn cwd_file(cache_dir: Seq<char>, cwd: Seq<char>) -> Seq<char> {
    path_join(path_join(cache_dir, BY_CWD_DIR@), cwd_key(cwd))
}

/// Where an update's payload line goes under a cache directory.
pub struct CacheFiles {
    /// The file of the pane updated last.
    pub global: String,
    /// The directory of the per-pane files.
    pub pane_dir: String,
    /// The file of the updated pane.
    pub pane: String,
    /// The directory of the per-directory files.
    pub cwd_dir: String,
    /// The file of the updated pane's directory.
    pub cwd: String,
    /// The file of the focused pane.
    pub focused: String,
}

/// The focused pane's cache file under `cache_dir`.
pub fn focused_file(cache_dir: &str) -> (r: String)
    ensures
        r@ == path_join(cache_dir@, FOCUSED_FILE@),
{
    join_path(cache_dir, FOCUSED_FILE)
}

/// The cache files under `cache_dir` for an update of pane `pane_id` in the
/// directory `cwd`.
pub fn cache_files(cache_dir: &str, pane_id: &str, cwd: &str) -> (r: CacheFiles)
    ensures
        r.global@ == path_join(cache_dir@, GLOBAL_FILE@),
        r.pane_dir@ == path_join(cache_dir@, BY_PANE_DIR@),
        r.pane@ == pane_file(cache_dir@, pane_id@),
        r.cwd_dir@ == path_join(cache_dir@, BY_CWD_DIR@),
        r.cwd@ == cwd_file(cache_dir@, cwd@),
        r.focused@ == path_join(cache_dir@, FOCUSED_FILE@),
{
    let pane_dir = join_path(cache_dir, BY_PANE_DIR);
    let pane = join_path(pane_dir.as_str(), sanitize_pane_id(pane_id).as_str());
    let cwd_dir = join_path(cache_dir, BY_CWD_DIR);
    let cwd_file = join_path(cwd_dir.as_str(), cwd_cache_key(cwd).as_str());
    CacheFiles {
        global: join_path(cache_dir, GLOBAL_FILE),
        pane_dir,
        pane,
        cwd_dir,
        cwd: cwd_file,
        focused: focused_file(cache_dir),
    }
}

/// A pane's cache file name is one name of its own: not empty, and not
/// starting with `/`.
proof fn lemma_sanitized_is_relative(pane_id: Seq<char>)
    ensures
        sanitized_pane_id(pane_id).len() > 0,
        sanitized_pane_id(pane_id)[0] != '/',
{
    let r = slashes_replaced(pane_id);
    if !dots_only(r) {
        assert(r.len() > 0);
        assert(r[0] == (if pane_id[0] == '/' { '_' } else { pane_id[0] }));
    }
}

/// Joining one base with names that do not start with `/` gives the same
/// path only for the same name.
proof fn lemma_join_relative_injective(base: Seq<char>, a: Seq<char>, b: Seq<char>)
    requires
        a.len() > 0 && a[0] != '/',
        b.len() > 0 && b[0] != '/',
        path_join(base, a) == path_join(base, b),
    ensures
        a == b,
{
    let ja = path_join(base, a);
    let jb = path_join(base, b);
    let n = ja.len() - a.len();
    assert(ja.skip(n) =~= a);
    assert(jb.skip(n) =~= b);
}

/// Two panes in one directory share that directory's cache file, and each
/// keeps a file of its own exactly when their cleaned ids differ.
pub proof fn lemma_panes_in_one_directory(cache_dir: Seq<char>, pane_a: Seq<char>, pane_b: Seq<char>, cwd: Seq<char>)
    ensures
        cwd_file(cache_dir, cwd) == path_join(path_join(cache_dir, BY_CWD_DIR@), cwd_key(cwd)),
        (pane_file(cache_dir, pane_a) != pane_file(cache_dir, pane_b)) == (sanitized_pane_id(pane_a)
            != sanitized_pane_id(pane_b)),
{
    lemma_sanitized_is_relative(pane_a);
    lemma_sanitized_is_relative(pane_b);
    if pane_file(cache_dir, pane_a) == pane_file(cache_dir, pane_b) {
        lemma_join_relative_injective(
            path_join(cache_dir, BY_PANE_DIR@),
            sanitized_pane_id(pane_a),
            sanitized_pane_id(pane_b),
        );
    }
}

// ---------------------------------------------------------------------------
// Reading the focused entry back
// ---------------------------------------------------------------------------
/// The pane id that a cache file names: the third tab-separated field of its
/// first line, when that line starts with the payload tag.
pub open spec fn payload_pane_id(contents: Seq<char>) -> Option<Seq<char>> {
    let ls = lines(contents);
    if ls.len() == 0 {
        None
    } else {
        let fields = split_char(ls[0], '\t');
        if fields[0] == payload_tag() && fields.len() > 2 {
            Some(fields[2])
        } else {
            None
        }
    }
}

/// The pane id that the focused cache file names, given its contents.
pub fn focused_pane_id_in(contents: &str) -> (r: Option<String>)
    ensures
        match payload_pane_id(contents@) {
            Some(p) => r is Some && r->0@ == p,
            None => r is None,
        },
{
    let cs = chars_of(contents);
    let ls = lines_of(cs.as_slice());
    if ls.len() == 0 {
        return None;
    }
    let fields = split_chars(ls[0].as_slice(), '\t');
    proof {
        crate::text::lemma_split_char_pieces(ls@[0]@, '\t');
        assert(char_views(ls@)[0] == ls@[0]@);
        assert(char_views(fields@)[0] == fields@[0]@);
    }
    let tag = ['h', 'e', 'r', 'd', 'r', 'g', 'i', 't', '1'];
    assert(tag@ == payload_tag());
    if same_chars(fields[0].as_slice(), &tag) && fields.len() > 2 {
        assert(char_views(fields@)[2] == fields@[2]@);
        Some(string_of(fields[2].as_slice()))
    } else {
        None
    }
}

/// Whether the focused cache, given its contents if the file exists, names
/// the pane `pane_id`: then an update of that pane refreshes it too.
pub fn focused_matches(focused_contents: Option<&str>, pane_id: &str) -> (r: bool)
    ensures
        r == match focused_contents {
            Some(c) => payload_pane_id(c@) == Some(pane_id@),
            None => false,
        },
{
    match focused_contents {
        None => false,
        Some(c) => match focused_pane_id_in(c) {
            Some(id) => {
                let p = pane_id.to_owned();
                crate::text::same_text(&id, &p)
            },
            None => false,
        },
    }
}

// ---------------------------------------------------------------------------
// What an update writes, the focused cache reads back
// ---------------------------------------------------------------------------
/// The first piece that `split_char` cuts is the text up to the first
/// separator.
proof fn lemma_first_piece(s: Seq<char>, sep: char, k: int)
    requires
        0 <= k <= s.len(),
        forall|j: int| 0 <= j < k ==> s[j] != sep,
        k < s.len() ==> s[k] == sep,
    ensures
        split_char(s, sep)[0] == s.take(k),
        k < s.len() ==> split_char(s, sep).len() >= 2,
{
    if k == s.len() {
        assert(s.take(k) =~= s);
        lemma_split_char_none(s, sep);
    } else {
        let a = s.take(k);
        let b = s.skip(k + 1);
        assert(s =~= a + seq![sep] + b);
        lemma_split_char_concat(a, b, sep);
        lemma_split_char_none(a, sep);
        lemma_split_char_pieces(b, sep);
    }
}

proof fn lemma_decimal_digits(n: nat)
    ensures
        forall|i: int| 0 <= i < decimal(n).len() ==> '0' <= #[trigger] decimal(n)[i] <= '9',
    decreases n,
{
    if n >= 10 {
        lemma_decimal_digits(n / 10);
        let d = decimal(n / 10);
        assert forall|i: int| 0 <= i < decimal(n).len() implies '0' <= #[trigger] decimal(n)[i]
            <= '9' by {
            if i < d.len() {
                assert(decimal(n)[i] == d[i]);
            }
        }
    }
}

/// `a` holds neither tab nor line feed.
pub open spec fn plain_field(a: Seq<char>) -> bool {
    forall|i: int| 0 <= i < a.len() ==> a[i] != '\t' && a[i] != '\n'
}

/// The first line of a text that ends with a line feed and starts with
/// `prefix`, which holds no line feed, starts with `prefix` too.
proof fn lemma_first_line(s: Seq<char>, prefix: Seq<char>) -> (q: Seq<char>)
    requires
        s.len() > prefix.len(),
        s.take(prefix.len() as int) == prefix,
        s.last() == '\n',
        prefix.len() > 0 && prefix.last() != '\r',
        forall|i: int| 0 <= i < prefix.len() ==> prefix[i] != '\n',
    ensures
        lines(s).len() > 0,
        lines(s)[0] == prefix + q,
{
    let nl = seq!['\n'];
    assert(matches_at(s, nl, s.len() - 1)) by {
        assert(s.subrange(s.len() - 1, s.len() as int) =~= nl);
    }
    lemma_find_from_result(s, nl, 0);
    let k = find_from(s, nl, 0)->0;
    assert(s[k] == '\n') by {
        assert(s.subrange(k, k + 1)[0] == s[k]);
    }
    assert forall|j: int| 0 <= j < k implies s[j] != '\n' by {
        if s[j] == '\n' {
            assert(s.subrange(j, j + 1) =~= nl);
            assert(matches_at(s, nl, j));
        }
    }
    assert(k >= prefix.len()) by {
        if k < prefix.len() {
            assert(prefix[k] == s[k]);
        }
    }
    lemma_first_piece(s, '\n', k);
    let line0 = lines(s)[0];
    let t = s.take(k);
    assert(line0 == strip_cr(t));
    assert(t.take(prefix.len() as int) =~= prefix);
    if k == prefix.len() {
        assert(t =~= prefix);
        assert(line0 == t);
    } else if t.last() == '\r' {
        assert(line0 == t.drop_last());
        assert(line0.take(prefix.len() as int) =~= prefix);
    } else {
        assert(line0 == t);
    }
    assert(line0.len() >= prefix.len());
    assert(line0.take(prefix.len() as int) =~= prefix);
    let q = line0.skip(prefix.len() as int);
    assert(line0 =~= line0.take(prefix.len() as int) + q);
    q
}

/// The first three tab-separated fields of `a TAB b TAB c TAB q`, when none
/// of `a`, `b`, `c` holds a tab.
proof fn lemma_three_fields(a: Seq<char>, b: Seq<char>, c: Seq<char>, q: Seq<char>)
    requires
        plain_field(a),
        plain_field(b),
        plain_field(c),
    ensures
        split_char(a + seq!['\t'] + b + seq!['\t'] + c + seq!['\t'] + q, '\t').len() >= 3,
        split_char(a + seq!['\t'] + b + seq!['\t'] + c + seq!['\t'] + q, '\t')[0] == a,
        split_char(a + seq!['\t'] + b + seq!['\t'] + c + seq!['\t'] + q, '\t')[2] == c,
{
    let after_a = b + seq!['\t'] + c + seq!['\t'] + q;
    let after_b = c + seq!['\t'] + q;
    assert(a + seq!['\t'] + b + seq!['\t'] + c + seq!['\t'] + q =~= a + seq!['\t'] + after_a);
    assert(after_a =~= b + seq!['\t'] + after_b);
    lemma_split_char_concat(a, after_a, '\t');
    lemma_split_char_concat(b, after_b, '\t');
    lemma_split_char_concat(c, q, '\t');
    lemma_split_char_none(a, '\t');
    lemma_split_char_none(b, '\t');
    lemma_split_char_none(c, '\t');
    lemma_split_char_pieces(q, '\t');
}

/// The focused cache file that an update writes names that update's pane:
/// reading back the line of a payload gives its pane id, whenever the pane id
/// holds neither a tab nor a line feed.
pub proof fn lemma_payload_pane_id_round_trip(p: Payload)
    requires
        plain_field(p.pane_id@),
    ensures
        payload_pane_id(payload_line(p)) == Some(p.pane_id@),
{
    let s = payload_line(p);
    let tag = payload_tag();
    let dec = decimal(p.at as nat);
    let pane = p.pane_id@;
    let prefix = tag + seq!['\t'] + dec + seq!['\t'] + pane + seq!['\t'];
    lemma_decimal_digits(p.at as nat);
    assert(tag =~= seq!['h', 'e', 'r', 'd', 'r', 'g', 'i', 't', '1']);
    assert(plain_field(dec)) by {
        assert forall|i: int| 0 <= i < dec.len() implies dec[i] != '\t' && dec[i] != '\n' by {
            assert('0' <= dec[i] <= '9');
        }
    }
    assert(plain_field(tag));
    assert(s.take(prefix.len() as int) =~= prefix);
    assert forall|i: int| 0 <= i < prefix.len() implies prefix[i] != '\n' by {
        if i < tag.len() {
            assert(prefix[i] == tag[i]);
        } else if i == tag.len() {
        } else if i < tag.len() + 1 + dec.len() {
            assert(prefix[i] == dec[i - tag.len() - 1]);
        } else if i == tag.len() + 1 + dec.len() {
        } else if i < tag.len() + 2 + dec.len() + pane.len() {
            assert(prefix[i] == pane[i - tag.len() - 2 - dec.len()]);
        }
    }
    let q = lemma_first_line(s, prefix);
    lemma_three_fields(tag, dec, pane, q);
    assert(lines(s)[0] =~= tag + seq!['\t'] + dec + seq!['\t'] + pane + seq!['\t'] + q);
}

/// An update refreshes the focused cache exactly when that file names the
/// updated pane: for a focused file written from payload `p`, the pane `q`
/// matches it when `q` is `p`'s pane.
pub proof fn lemma_focused_match_after_write(p: Payload, q: Seq<char>)
    requires
        plain_field(p.pane_id@),
    ensures
        (payload_pane_id(payload_line(p)) == Some(q)) <==> q == p.pane_id@,
{
    lemma_payload_pane_id_round_trip(p);
}

/// The eight fields of a payload line, in wire order.
pub open spec fn payload_fields(p: Payload) -> Seq<Seq<char>> {
    match p.repository {
        Some(status) => seq![
            payload_tag(),
            decimal(p.at as nat),
            p.pane_id@,
            p.cwd@,
            seq!['1'],
            status.repo@,
            status.ref_name@,
            status.flags.letters(),
        ],
        None => seq![
            payload_tag(),
            decimal(p.at as nat),
            p.pane_id@,
            p.cwd@,
            seq!['0'],
            Seq::<char>::empty(),
            Seq::<char>::empty(),
            Seq::<char>::empty(),
        ],
    }
}

/// The text fields of a payload hold neither tab nor line feed.
pub open spec fn plain_payload(p: Payload) -> bool {
    &&& plain_field(p.pane_id@)
    &&& plain_field(p.cwd@)
    &&& match p.repository {
        Some(status) => plain_field(status.repo@) && plain_field(status.ref_name@),
        None => true,
    }
}

proof fn lemma_split_fields(fields: Seq<Seq<char>>)
    requires
        fields.len() >= 1,
        forall|k: int| 0 <= k < fields.len() ==> plain_field(#[trigger] fields[k]),
    ensures
        split_char(crate::text::join(fields, seq!['\t']), '\t') == fields,
    decreases fields.len(),
{
    if fields.len() == 1 {
        assert(crate::text::join(fields, seq!['\t']) == fields[0]);
        lemma_split_char_none(fields[0], '\t');
        assert(fields =~= seq![fields[0]]);
    } else {
        let init = fields.drop_last();
        lemma_split_fields(init);
        let last = fields.last();
        lemma_split_char_concat(crate::text::join(init, seq!['\t']), last, '\t');
        lemma_split_char_none(last, '\t');
        assert(init.push(last) =~= fields);
    }
}

/// A payload is one line: a single line feed ends it, and the tabs of the line
/// cut it into exactly its eight fields, whenever its text fields hold neither
/// tab nor line feed. This is the wire format the terminal adapters read.
pub proof fn lemma_payload_line_fields(p: Payload)
    requires
        plain_payload(p),
    ensures
        payload_line(p).last() == '\n',
        split_char(payload_line(p).drop_last(), '\t') == payload_fields(p),
        forall|i: int| 0 <= i < payload_line(p).len() - 1 ==> payload_line(p)[i] != '\n',
{
    let fields = payload_fields(p);
    let line = payload_line(p);
    lemma_decimal_digits(p.at as nat);
    let dec = decimal(p.at as nat);
    assert(plain_field(dec)) by {
        assert forall|i: int| 0 <= i < dec.len() implies dec[i] != '\t' && dec[i] != '\n' by {
            assert('0' <= dec[i] <= '9');
        }
    }
    assert(plain_field(payload_tag()));
    if let Some(status) = p.repository {
        let l = status.flags.letters();
        assert(plain_field(l)) by {
            assert forall|i: int| 0 <= i < l.len() implies l[i] != '\t' && l[i] != '\n' by {
                let a = if status.flags.spec_detached() { seq!['D'] } else { Seq::<char>::empty() };
                let b = if status.flags.spec_dirty() { seq!['d'] } else { Seq::<char>::empty() };
                let c = if status.flags.spec_worktree() { seq!['w'] } else { Seq::<char>::empty() };
                let d = if status.flags.spec_rebase() { seq!['R'] } else { Seq::<char>::empty() };
                let e = if status.flags.spec_cherry_pick() { seq!['C'] } else { Seq::<char>::empty() };
                assert(l == a + b + c + d + e);
            }
        }
        assert(plain_field(seq!['1']));
    } else {
        assert(plain_field(seq!['0']));
        assert(plain_field(Seq::<char>::empty()));
    }
    assert forall|k: int| 0 <= k < fields.len() implies plain_field(#[trigger] fields[k]) by {}
    lemma_split_fields(fields);
    let tab = seq!['\t'];
    let j = crate::text::join(fields, tab);
    assert(j =~= fields[0] + tab + fields[1] + tab + fields[2] + tab + fields[3] + tab + fields[4]
        + tab + fields[5] + tab + fields[6] + tab + fields[7]) by {
        reveal_with_fuel(crate::text::join, 8);
    }
    assert(line =~= j.push('\n'));
    assert(line.drop_last() =~= j);
    assert forall|i: int| 0 <= i < line.len() - 1 implies line[i] != '\n' by {
        assert(line[i] == j[i]);
        if j[i] == '\n' {
            lemma_split_char_pieces(j, '\t');
            lemma_no_newline_in_join(fields, i);
        }
    }
}

proof fn lemma_no_newline_in_join(fields: Seq<Seq<char>>, i: int)
    requires
        forall|k: int| 0 <= k < fields.len() ==> plain_field(#[trigger] fields[k]),
        0 <= i < crate::text::join(fields, seq!['\t']).len(),
    ensures
        crate::text::join(fields, seq!['\t'])[i] != '\n',
    decreases fields.len(),
{
    if fields.len() == 1 {
    } else if fields.len() > 1 {
        let init = fields.drop_last();
        let ji = crate::text::join(init, seq!['\t']);
        if i < ji.len() {
            assert forall|k: int| 0 <= k < init.len() implies plain_field(#[trigger] init[k]) by {
                assert(init[k] == fields[k]);
            }
            lemma_no_newline_in_join(init, i);
        } else if i > ji.len() {
            assert(plain_field(fields[fields.len() - 1]));
        }
    }
}

} // verus!

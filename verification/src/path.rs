//! Paths as text, with the Unix rules that `std::path` applies to them.
use vstd::prelude::*;

use crate::text::{char_views, chars_of, push_char, same_chars, split_char, split_chars};

verus! {

/// `base` extended by `rel`, as `PathBuf::push` does it on Unix: an absolute
/// `rel` replaces `base`; otherwise a separator goes between them unless
/// `base` is empty or already ends with one.
pub open spec fn path_join(base: Seq<char>, rel: Seq<char>) -> Seq<char> {
    if rel.len() > 0 && rel[0] == '/' {
        rel
    } else if base.len() == 0 || base.last() == '/' {
        base + rel
    } else {
        base + seq!['/'] + rel
    }
}

/// `base` joined with `rel` (`Path::join`).
pub fn join_path(base: &str, rel: &str) -> (r: String)
    ensures
        r@ == path_join(base@, rel@),
{
    let b = chars_of(base);
    let rc = chars_of(rel);
    if rc.len() > 0 && rc[0] == '/' {
        return rel.to_owned();
    }
    let mut out = base.to_owned();
    if b.len() > 0 && b[b.len() - 1] != '/' {
        push_char(&mut out, '/');
    }
    out.append(rel);
    out
}

/// Whether a piece between separators names no component of its own: the
/// empty piece that a repeated or final `/` leaves, and `.`.
pub open spec fn is_skipped_piece(piece: Seq<char>) -> bool {
    piece.len() == 0 || piece == seq!['.']
}

/// The pieces of a path that are components of their own, in order: all but
/// the empty ones and `.`; `..` stays.
pub open spec fn normal_segments(parts: Seq<Seq<char>>) -> Seq<Seq<char>>
    decreases parts.len(),
{
    if parts.len() == 0 {
        Seq::empty()
    } else {
        let rest = normal_segments(parts.drop_last());
        if is_skipped_piece(parts.last()) {
            rest
        } else {
            rest.push(parts.last())
        }
    }
}

/// The components of a path as `Path::components` yields them on Unix, which
/// is what `==` on paths compares: whether it starts at the root, whether it
/// starts with a `.` of its own (only a relative path does), and its other
/// components, with repeated separators, a final separator and inner `.`
/// ignored.
pub open spec fn path_components(p: Seq<char>) -> (bool, bool, Seq<Seq<char>>) {
    let root = p.len() > 0 && p[0] == '/';
    let cur = !root && p.len() > 0 && p[0] == '.' && (p.len() == 1 || p[1] == '/');
    (root, cur, normal_segments(split_char(p, '/')))
}

/// The components of `p` after any root or leading `.`.
fn segments_of(p: &[char]) -> (r: Vec<Vec<char>>)
    ensures
        char_views(r@) == normal_segments(split_char(p@, '/')),
{
    let parts = split_chars(p, '/');
    let ghost pv = char_views(parts@);
    let mut out: Vec<Vec<char>> = Vec::new();
    let mut i: usize = 0;
    assert(pv.take(0) =~= Seq::<Seq<char>>::empty());
    while i < parts.len()
        invariant
            pv == char_views(parts@),
            i <= parts.len(),
            char_views(out@) == normal_segments(pv.take(i as int)),
        decreases parts.len() - i,
    {
        let piece = &parts[i];
        assert(pv.take(i + 1).drop_last() =~= pv.take(i as int));
        assert(pv.take(i + 1).last() == piece@);
        let skip = piece.len() == 0 || (piece.len() == 1 && piece[0] == '.');
        proof {
            if piece@.len() == 1 && piece@[0] == '.' {
                assert(piece@ =~= seq!['.']);
            }
            if piece@ == seq!['.'] {
                assert(piece@[0] == '.');
            }
        }
        if !skip {
            let ghost before = char_views(out@);
            out.push(piece.clone());
            assert(char_views(out@) =~= before.push(piece@));
        }
        i = i + 1;
    }
    assert(pv.take(parts.len() as int) =~= pv);
    out
}

/// Whether two paths are equal as paths (`==` on `Path`): they have the same
/// components, so `/r/.git/`, `/r//.git` and `/r/./.git` are all `/r/.git`.
pub fn same_path(a: &str, b: &str) -> (r: bool)
    ensures
        r == (path_components(a@) == path_components(b@)),
{
    let ac = chars_of(a);
    let bc = chars_of(b);
    let a_root = ac.len() > 0 && ac[0] == '/';
    let b_root = bc.len() > 0 && bc[0] == '/';
    let a_cur = !a_root && ac.len() > 0 && ac[0] == '.' && (ac.len() == 1 || ac[1] == '/');
    let b_cur = !b_root && bc.len() > 0 && bc[0] == '.' && (bc.len() == 1 || bc[1] == '/');
    let sa = segments_of(ac.as_slice());
    let sb = segments_of(bc.as_slice());
    if a_root != b_root || a_cur != b_cur || sa.len() != sb.len() {
        assert(char_views(sa@).len() == sa@.len());
        assert(char_views(sb@).len() == sb@.len());
        return false;
    }
    let mut i: usize = 0;
    while i < sa.len()
        invariant
            sa.len() == sb.len(),
            char_views(sa@) == path_components(a@).2,
            char_views(sb@) == path_components(b@).2,
            i <= sa.len(),
            forall|j: int| 0 <= j < i ==> sa@[j]@ == sb@[j]@,
        decreases sa.len() - i,
    {
        if !same_chars(sa[i].as_slice(), sb[i].as_slice()) {
            assert(char_views(sa@)[i as int] == sa@[i as int]@);
            assert(char_views(sb@)[i as int] == sb@[i as int]@);
            assert(path_components(a@).2[i as int] != path_components(b@).2[i as int]);
            return false;
        }
        i = i + 1;
    }
    assert(char_views(sa@) =~= char_views(sb@));
    true
}

/// What `Path::parent` gives for a path: the path without its last
/// component, `None` for a root, a prefix or the empty path.
pub uninterp spec fn path_parent(p: Seq<char>) -> Option<Seq<char>>;

/// What `Path::file_name` gives for a path: its last component, `None` when
/// the path ends in `..` or is a root.
pub uninterp spec fn path_file_name(p: Seq<char>) -> Option<Seq<char>>;

/// Calls `Path::parent`. Claimed: the result, as text, is `path_parent` of the
/// path (the parent of a path that is valid text is a slice of it at a `/`, so
/// valid text too).
#[verifier::external_body]
fn parent_of(p: &str) -> (r: Option<String>)
    ensures
        r matches Some(q) ==> path_parent(p@) == Some(q@),
        r is None ==> path_parent(p@) is None,
{
    std::path::Path::new(p).parent().map(|q| q.to_string_lossy().into_owned())
}

/// Calls `Path::file_name`. Claimed: the result, as text, is `path_file_name`
/// of the path (a component of valid text is valid text).
#[verifier::external_body]
fn file_name_of(p: &str) -> (r: Option<String>)
    ensures
        r matches Some(q) ==> path_file_name(p@) == Some(q@),
        r is None ==> path_file_name(p@) is None,
{
    std::path::Path::new(p).file_name().map(|q| q.to_string_lossy().into_owned())
}

/// The directory that holds a file, given what `Path::parent` said of it: an
/// empty parent (a bare file name) is the current directory `.`.
pub fn parent_or_current(parent: Option<String>) -> (r: Option<String>)
    ensures
        match parent {
            Some(q) => r is Some && r->0@ == (if q@.len() == 0 {
                seq!['.']
            } else {
                q@
            }),
            None => r is None,
        },
{
    match parent {
        Some(q) => {
            if q.as_str().is_empty() {
                let mut dot = String::new();
                push_char(&mut dot, '.');
                Some(dot)
            } else {
                Some(q)
            }
        },
        None => None,
    }
}

/// The directory that holds the file at `path`: its parent, or `.` for a bare
/// file name; `None` for a root or an empty path.
pub fn config_parent(path: &str) -> (r: Option<String>)
    ensures
        match path_parent(path@) {
            Some(q) => r is Some && r->0@ == (if q.len() == 0 {
                seq!['.']
            } else {
                q
            }),
            None => r is None,
        },
{
    let parent = parent_of(path);
    parent_or_current(parent)
}

/// A repository's name, given what `Path::file_name` said of its root: that
/// name, or the root itself where there is none.
pub fn repo_name_from(root: &str, file_name: Option<String>) -> (r: String)
    ensures
        r@ == match file_name {
            Some(n) => n@,
            None => root@,
        },
{
    match file_name {
        Some(n) => n,
        None => root.to_owned(),
    }
}

/// A repository's name: the last component of its root directory.
pub fn repo_name(root: &str) -> (r: String)
    ensures
        r@ == match path_file_name(root@) {
            Some(n) => n,
            None => root@,
        },
{
    let name = file_name_of(root);
    repo_name_from(root, name)
}

} // verus!

//! Counting where a text occurs in another, and the facts that carry its
//! absence through slicing, splitting, and joining on a separator.
use vstd::prelude::*;

use crate::text::{join, lines, matches_at, split_char, strip_cr};

verus! {

/// How many times `p` occurs in `s`: the number of places where a copy of it
/// starts. For a `p` that cannot overlap itself this is what
/// `s.matches(p).count()` gives.
pub open spec fn occurrences(s: Seq<char>, p: Seq<char>) -> nat
    decreases s.len(),
{
    if s.len() == 0 {
        0
    } else {
        occurrences(s.drop_last(), p) + if p.len() > 0 && matches_at(s, p, s.len() - p.len()) {
            1nat
        } else {
            0nat
        }
    }
}

/// `p` occurs nowhere in `s`.
pub open spec fn absent(s: Seq<char>, p: Seq<char>) -> bool {
    forall|j: int| !#[trigger] matches_at(s, p, j)
}

/// `c` is not one of the characters of `p`.
pub open spec fn lacks(p: Seq<char>, c: char) -> bool {
    forall|i: int| 0 <= i < p.len() ==> p[i] != c
}

/// A match in `s` without its last character is a match in `s` that ends
/// before that character.
proof fn lemma_match_without_last(s: Seq<char>, p: Seq<char>, j: int)
    requires
        s.len() > 0,
    ensures
        matches_at(s.drop_last(), p, j) == (matches_at(s, p, j) && j + p.len() < s.len()),
{
    if 0 <= j && j + p.len() < s.len() {
        assert(s.drop_last().subrange(j, j + p.len()) =~= s.subrange(j, j + p.len()));
    }
}

/// `p` occurs in `s` no times exactly when it is absent from it.
pub proof fn lemma_occurrences_none(s: Seq<char>, p: Seq<char>)
    requires
        p.len() > 0,
    ensures
        occurrences(s, p) == 0 <==> absent(s, p),
    decreases s.len(),
{
    if s.len() == 0 {
        assert forall|j: int| !#[trigger] matches_at(s, p, j) by {}
    } else {
        let t = s.drop_last();
        let last = s.len() - p.len();
        lemma_occurrences_none(t, p);
        if occurrences(s, p) == 0 {
            assert forall|j: int| !#[trigger] matches_at(s, p, j) by {
                lemma_match_without_last(s, p, j);
            }
        }
        if absent(s, p) {
            assert(!matches_at(s, p, last));
            assert forall|j: int| !#[trigger] matches_at(t, p, j) by {
                lemma_match_without_last(s, p, j);
            }
        }
    }
}

/// Where `p` occurs in `s` at `k`, it occurs there once exactly when it
/// occurs nowhere else.
pub proof fn lemma_occurrences_one(s: Seq<char>, p: Seq<char>, k: int)
    requires
        p.len() > 0,
        matches_at(s, p, k),
    ensures
        occurrences(s, p) == 1 <==> forall|j: int| j != k ==> !#[trigger] matches_at(s, p, j),
    decreases s.len(),
{
    let t = s.drop_last();
    let last = s.len() - p.len();
    lemma_occurrences_none(t, p);
    if k == last {
        assert(occurrences(s, p) == occurrences(t, p) + 1);
        if occurrences(s, p) == 1 {
            assert forall|j: int| j != k implies !#[trigger] matches_at(s, p, j) by {
                lemma_match_without_last(s, p, j);
                assert(!matches_at(t, p, j));
            }
        }
        if forall|j: int| j != k ==> !#[trigger] matches_at(s, p, j) {
            assert forall|j: int| !#[trigger] matches_at(t, p, j) by {
                lemma_match_without_last(s, p, j);
            }
        }
    } else {
        lemma_match_without_last(s, p, k);
        lemma_occurrences_one(t, p, k);
        if occurrences(s, p) == 1 {
            assert(!absent(t, p));
            assert(!matches_at(s, p, last));
            assert forall|j: int| j != k implies !#[trigger] matches_at(s, p, j) by {
                lemma_match_without_last(s, p, j);
                if j != last {
                    assert(!matches_at(t, p, j));
                }
            }
        }
        if forall|j: int| j != k ==> !#[trigger] matches_at(s, p, j) {
            assert(!matches_at(s, p, last));
            assert forall|j: int| j != k implies !#[trigger] matches_at(t, p, j) by {
                lemma_match_without_last(s, p, j);
            }
        }
    }
}

/// A part of a text that `p` is absent from lacks `p` too.
pub proof fn lemma_absent_subrange(s: Seq<char>, p: Seq<char>, a: int, b: int)
    requires
        absent(s, p),
        0 <= a <= b <= s.len(),
    ensures
        absent(s.subrange(a, b), p),
{
    let u = s.subrange(a, b);
    assert forall|j: int| !#[trigger] matches_at(u, p, j) by {
        if matches_at(u, p, j) {
            assert(s.subrange(a + j, a + j + p.len()) =~= u.subrange(j, j + p.len()));
            assert(matches_at(s, p, a + j));
        }
    }
}

/// Joining two texts that lack `p` with a character that `p` lacks gives a
/// text that lacks `p`.
pub proof fn lemma_absent_around(a: Seq<char>, c: char, b: Seq<char>, p: Seq<char>)
    requires
        p.len() > 0,
        lacks(p, c),
        absent(a, p),
        absent(b, p),
    ensures
        absent(a + seq![c] + b, p),
{
    let t = a + seq![c] + b;
    assert forall|j: int| !#[trigger] matches_at(t, p, j) by {
        if matches_at(t, p, j) {
            if j + p.len() <= a.len() {
                assert(a.subrange(j, j + p.len()) =~= t.subrange(j, j + p.len()));
                assert(matches_at(a, p, j));
            } else if j > a.len() {
                let jb = j - a.len() - 1;
                assert(b.subrange(jb, jb + p.len()) =~= t.subrange(j, j + p.len()));
                assert(matches_at(b, p, jb));
            } else {
                assert(t.subrange(j, j + p.len())[a.len() - j] == t[a.len() as int]);
                assert(p[a.len() - j] == c);
            }
        }
    }
}

/// `p` is absent from the empty text, when it is not empty itself.
pub proof fn lemma_absent_empty(p: Seq<char>)
    requires
        p.len() > 0,
    ensures
        absent(Seq::<char>::empty(), p),
{
    assert forall|j: int| !#[trigger] matches_at(Seq::<char>::empty(), p, j) by {}
}

/// The pieces of a text that `p` is absent from lack `p`, and the last piece
/// is the end of the text.
proof fn lemma_split_absent(s: Seq<char>, sep: char, p: Seq<char>)
    requires
        absent(s, p),
    ensures
        split_char(s, sep).len() >= 1,
        split_char(s, sep).last().len() <= s.len(),
        split_char(s, sep).last() == s.skip(s.len() - split_char(s, sep).last().len()),
        forall|k: int| 0 <= k < split_char(s, sep).len() ==> absent(#[trigger] split_char(s, sep)[k], p),
    decreases s.len(),
{
    if s.len() == 0 {
        assert(split_char(s, sep)[0] =~= s);
        assert(s.skip(0) =~= s);
    } else {
        let t = s.drop_last();
        lemma_absent_subrange(s, p, 0, s.len() - 1);
        assert(s.subrange(0, s.len() - 1) =~= t);
        lemma_split_absent(t, sep, p);
        let rest = split_char(t, sep);
        if s.last() == sep {
            assert(s.skip(s.len() as int) =~= Seq::<char>::empty());
            assert forall|j: int| !#[trigger] matches_at(Seq::<char>::empty(), p, j) by {
                if matches_at(Seq::<char>::empty(), p, j) {
                    assert(s.subrange(s.len() as int, s.len() as int) =~= Seq::<char>::empty());
                    lemma_absent_subrange(s, p, s.len() as int, s.len() as int);
                    assert(!matches_at(s.subrange(s.len() as int, s.len() as int), p, j));
                }
            }
        } else {
            let piece = rest.last().push(s.last());
            let n = piece.len();
            assert(piece =~= s.skip(s.len() - n)) by {
                assert(rest.last() =~= t.skip(t.len() - rest.last().len()));
            }
            lemma_absent_subrange(s, p, s.len() - n, s.len() as int);
            assert(s.subrange(s.len() - n, s.len() as int) =~= s.skip(s.len() - n));
            let parts = split_char(s, sep);
            assert forall|k: int| 0 <= k < parts.len() implies absent(#[trigger] parts[k], p) by {
                if k < parts.len() - 1 {
                    assert(parts[k] == rest[k]);
                }
            }
        }
    }
}

/// The lines of a text that `p` is absent from lack `p`.
pub proof fn lemma_lines_absent(s: Seq<char>, p: Seq<char>)
    requires
        absent(s, p),
    ensures
        forall|i: int| 0 <= i < lines(s).len() ==> absent(#[trigger] lines(s)[i], p),
{
    let parts = split_char(s, '\n');
    lemma_split_absent(s, '\n', p);
    assert forall|i: int| 0 <= i < lines(s).len() implies absent(#[trigger] lines(s)[i], p) by {
        let piece = parts[i];
        assert(absent(piece, p));
        if i < parts.len() - 1 {
            lemma_absent_subrange(piece, p, 0, strip_cr(piece).len() as int);
            assert(piece.subrange(0, strip_cr(piece).len() as int) =~= strip_cr(piece));
        }
    }
}

/// Joining pieces that lack `p` with a character that `p` lacks gives a
/// text that lacks `p`.
pub proof fn lemma_join_absent(xs: Seq<Seq<char>>, c: char, p: Seq<char>)
    requires
        p.len() > 0,
        lacks(p, c),
        forall|i: int| 0 <= i < xs.len() ==> absent(#[trigger] xs[i], p),
    ensures
        absent(join(xs, seq![c]), p),
    decreases xs.len(),
{
    if xs.len() == 0 {
        lemma_absent_empty(p);
    } else if xs.len() == 1 {
        assert(absent(xs[0], p));
    } else {
        let init = xs.drop_last();
        assert forall|i: int| 0 <= i < init.len() implies absent(#[trigger] init[i], p) by {
            assert(init[i] == xs[i]);
        }
        lemma_join_absent(init, c, p);
        assert(absent(xs[xs.len() - 1], p));
        lemma_absent_around(join(init, seq![c]), c, xs.last(), p);
    }
}

/// Joining two nonempty runs of pieces joins the two joins.
pub proof fn lemma_join_append(a: Seq<Seq<char>>, b: Seq<Seq<char>>, sep: Seq<char>)
    requires
        a.len() > 0,
        b.len() > 0,
    ensures
        join(a + b, sep) == join(a, sep) + sep + join(b, sep),
    decreases b.len(),
{
    let ab = a + b;
    assert(ab.last() == b.last());
    if b.len() == 1 {
        assert(ab.drop_last() =~= a);
    } else {
        assert(ab.drop_last() =~= a + b.drop_last());
        lemma_join_append(a, b.drop_last(), sep);
        assert(join(a, sep) + sep + join(b.drop_last(), sep) + sep + b.last() =~= join(a, sep)
            + sep + (join(b.drop_last(), sep) + sep + b.last()));
    }
}

} // verus!

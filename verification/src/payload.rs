//! The status payload that the bridge writes for the terminal adapters: a
//! compact flag set and the one-line, tab-separated wire format.
use vstd::prelude::*;

use crate::text::{push_char, push_chars};

verus! {

pub const DETACHED: u8 = 1;

pub const DIRTY: u8 = 2;

pub const WORKTREE: u8 = 4;

pub const REBASE: u8 = 8;

pub const CHERRY_PICK: u8 = 16;

/// The five repository states, one bit each.
#[derive(Clone, Copy, Debug, PartialEq, Eq, Structural)]
pub struct StatusFlags {
    bits: u8,
}

/// `flag` is one of the five single bits.
pub open spec fn is_flag_bit(flag: u8) -> bool {
    flag == 1 || flag == 2 || flag == 4 || flag == 8 || flag == 16
}

/// Setting or clearing one bit keeps every other bit.
proof fn lemma_set_bit(bits: u8, flag: u8, other: u8)
    by (bit_vector)
    requires
        flag == 1 || flag == 2 || flag == 4 || flag == 8 || flag == 16,
        other == 1 || other == 2 || other == 4 || other == 8 || other == 16,
    ensures
        (bits | flag) & flag != 0,
        (bits & !flag) & flag == 0,
        other != flag ==> (((bits | flag) & other != 0) == (bits & other != 0)),
        other != flag ==> (((bits & !flag) & other != 0) == (bits & other != 0)),
{
}

impl StatusFlags {
    /// Whether the bit `flag` is set.
    pub closed spec fn has(self, flag: u8) -> bool {
        self.bits & flag != 0
    }

    pub open spec fn spec_detached(self) -> bool {
        self.has(DETACHED)
    }

    pub open spec fn spec_dirty(self) -> bool {
        self.has(DIRTY)
    }

    pub open spec fn spec_worktree(self) -> bool {
        self.has(WORKTREE)
    }

    pub open spec fn spec_rebase(self) -> bool {
        self.has(REBASE)
    }

    pub open spec fn spec_cherry_pick(self) -> bool {
        self.has(CHERRY_PICK)
    }

    /// The flags as five booleans, in wire order.
    pub open spec fn flags(self) -> (bool, bool, bool, bool, bool) {
        (
            self.spec_detached(),
            self.spec_dirty(),
            self.spec_worktree(),
            self.spec_rebase(),
            self.spec_cherry_pick(),
        )
    }

    /// No flag set.
    pub fn new() -> (r: Self)
        ensures
            r.flags() == (false, false, false, false, false),
    {
        let b: u8 = 0;
        assert(b & 1 == 0 && b & 2 == 0 && b & 4 == 0 && b & 8 == 0 && b & 16 == 0) by (bit_vector)
            requires
                b == 0,
        ;
        StatusFlags { bits: b }
    }

    fn set(&mut self, flag: u8, enabled: bool)
        requires
            is_flag_bit(flag),
        ensures
            final(self).has(flag) == enabled,
            forall|other: u8|
                is_flag_bit(other) && other != flag ==> #[trigger] final(self).has(other) == old(
                    self,
                ).has(other),
    {
        let old_bits = self.bits;
        if enabled {
            self.bits = self.bits | flag;
        } else {
            self.bits = self.bits & !flag;
        }
        proof {
            lemma_set_bit(old_bits, flag, 1);
            assert forall|other: u8| is_flag_bit(other) && other != flag implies self.has(other)
                == old(self).has(other) by {
                lemma_set_bit(old_bits, flag, other);
            }
        }
    }

    fn contains(self, flag: u8) -> (r: bool)
        ensures
            r == self.has(flag),
    {
        self.bits & flag != 0
    }

    /// Marks the checkout as a detached HEAD, or not.
    pub fn set_detached(&mut self, enabled: bool)
        ensures
            final(self).flags() == (
                enabled,
                old(self).spec_dirty(),
                old(self).spec_worktree(),
                old(self).spec_rebase(),
                old(self).spec_cherry_pick(),
            ),
    {
        self.set(DETACHED, enabled);
    }

    /// Marks the working tree as dirty, or not.
    pub fn set_dirty(&mut self, enabled: bool)
        ensures
            final(self).flags() == (
                old(self).spec_detached(),
                enabled,
                old(self).spec_worktree(),
                old(self).spec_rebase(),
                old(self).spec_cherry_pick(),
            ),
    {
        self.set(DIRTY, enabled);
    }

    /// Marks the checkout as a linked worktree, or not.
    pub fn set_worktree(&mut self, enabled: bool)
        ensures
            final(self).flags() == (
                old(self).spec_detached(),
                old(self).spec_dirty(),
                enabled,
                old(self).spec_rebase(),
                old(self).spec_cherry_pick(),
            ),
    {
        self.set(WORKTREE, enabled);
    }

    /// Marks a rebase in progress, or not.
    pub fn set_rebase(&mut self, enabled: bool)
        ensures
            final(self).flags() == (
                old(self).spec_detached(),
                old(self).spec_dirty(),
                old(self).spec_worktree(),
                enabled,
                old(self).spec_cherry_pick(),
            ),
    {
        self.set(REBASE, enabled);
    }

    /// Marks a cherry-pick in progress, or not.
    pub fn set_cherry_pick(&mut self, enabled: bool)
        ensures
            final(self).flags() == (
                old(self).spec_detached(),
                old(self).spec_dirty(),
                old(self).spec_worktree(),
                old(self).spec_rebase(),
                enabled,
            ),
    {
        self.set(CHERRY_PICK, enabled);
    }

    pub fn detached(self) -> (r: bool)
        ensures
            r == self.spec_detached(),
    {
        self.contains(DETACHED)
    }

    pub fn dirty(self) -> (r: bool)
        ensures
            r == self.spec_dirty(),
    {
        self.contains(DIRTY)
    }

    pub fn worktree(self) -> (r: bool)
        ensures
            r == self.spec_worktree(),
    {
        self.contains(WORKTREE)
    }

    pub fn rebase(self) -> (r: bool)
        ensures
            r == self.spec_rebase(),
    {
        self.contains(REBASE)
    }

    pub fn cherry_pick(self) -> (r: bool)
        ensures
            r == self.spec_cherry_pick(),
    {
        self.contains(CHERRY_PICK)
    }

    /// The compact letters of the set flags, in the fixed order `DdwRC`.
    pub open spec fn letters(self) -> Seq<char> {
        (if self.spec_detached() {
            seq!['D']
        } else {
            Seq::empty()
        }) + (if self.spec_dirty() {
            seq!['d']
        } else {
            Seq::empty()
        }) + (if self.spec_worktree() {
            seq!['w']
        } else {
            Seq::empty()
        }) + (if self.spec_rebase() {
            seq!['R']
        } else {
            Seq::empty()
        }) + (if self.spec_cherry_pick() {
            seq!['C']
        } else {
            Seq::empty()
        })
    }

    /// The compact letters of the set flags, such as `dw` for a dirty worktree.
    pub fn to_string(&self) -> (r: String)
        ensures
            r@ == self.letters(),
    {
        let mut out = String::new();
        if self.detached() {
            push_char(&mut out, 'D');
        }
        if self.dirty() {
            push_char(&mut out, 'd');
        }
        if self.worktree() {
            push_char(&mut out, 'w');
        }
        if self.rebase() {
            push_char(&mut out, 'R');
        }
        if self.cherry_pick() {
            push_char(&mut out, 'C');
        }
        assert(out@ =~= self.letters());
        out
    }
}

impl Default for StatusFlags {
    fn default() -> (r: Self)
        ensures
            r.flags() == (false, false, false, false, false),
    {
        StatusFlags::new()
    }
}

/// Where the status of a repository stands.
#[derive(Clone, Debug, PartialEq, Eq)]
pub struct RepositoryStatus {
    pub repo: String,
    pub ref_name: String,
    pub flags: StatusFlags,
}

/// One status update: when, for which pane and directory, and the repository
/// found there, if any.
#[derive(Clone, Debug, PartialEq, Eq)]
pub struct Payload {
    pub at: u64,
    pub pane_id: String,
    pub cwd: String,
    pub repository: Option<RepositoryStatus>,
}

/// The digit character for `d < 10`.
pub open spec fn digit_char(d: nat) -> char {
    if d == 0 {
        '0'
    } else if d == 1 {
        '1'
    } else if d == 2 {
        '2'
    } else if d == 3 {
        '3'
    } else if d == 4 {
        '4'
    } else if d == 5 {
        '5'
    } else if d == 6 {
        '6'
    } else if d == 7 {
        '7'
    } else if d == 8 {
        '8'
    } else {
        '9'
    }
}

/// The decimal numeral of `n`, without leading zeros.
pub open spec fn decimal(n: nat) -> Seq<char>
    decreases n,
{
    if n < 10 {
        seq![digit_char(n)]
    } else {
        decimal(n / 10).push(digit_char(n % 10))
    }
}

fn digit(d: u64) -> (c: char)
    requires
        d < 10,
    ensures
        c == digit_char(d as nat),
{
    if d == 0 {
        '0'
    } else if d == 1 {
        '1'
    } else if d == 2 {
        '2'
    } else if d == 3 {
        '3'
    } else if d == 4 {
        '4'
    } else if d == 5 {
        '5'
    } else if d == 6 {
        '6'
    } else if d == 7 {
        '7'
    } else if d == 8 {
        '8'
    } else {
        '9'
    }
}

/// Appends the decimal numeral of `n` to `out`.
pub fn push_decimal(out: &mut String, n: u64)
    ensures
        final(out)@ == old(out)@ + decimal(n as nat),
    decreases n,
{
    if n >= 10 {
        push_decimal(out, n / 10);
    }
    push_char(out, digit(n % 10));
}

/// The tag that starts every payload line.
pub open spec fn payload_tag() -> Seq<char> {
    seq!['h', 'e', 'r', 'd', 'r', 'g', 'i', 't', '1']
}

/// The line `herdrgit1 TAB at TAB pane TAB cwd TAB present TAB repo TAB ref TAB
/// flags LF`, with `0` and three empty fields when no repository was found.
pub open spec fn payload_line(p: Payload) -> Seq<char> {
    let (present, repo, ref_name, flags) = match p.repository {
        Some(status) => (seq!['1'], status.repo@, status.ref_name@, status.flags.letters()),
        None => (seq!['0'], Seq::<char>::empty(), Seq::<char>::empty(), Seq::<char>::empty()),
    };
    payload_tag() + seq!['\t'] + decimal(p.at as nat) + seq!['\t'] + p.pane_id@ + seq!['\t']
        + p.cwd@ + seq!['\t'] + present + seq!['\t'] + repo + seq!['\t'] + ref_name + seq!['\t']
        + flags + seq!['\n']
}

impl Payload {
    /// The payload as one line of the cache wire format.
    pub fn encode_line(&self) -> (r: String)
        ensures
            r@ == payload_line(*self),
    {
        let mut out = String::new();
        push_chars(&mut out, &['h', 'e', 'r', 'd', 'r', 'g', 'i', 't', '1', '\t']);
        push_decimal(&mut out, self.at);
        push_char(&mut out, '\t');
        out.append(self.pane_id.as_str());
        push_char(&mut out, '\t');
        out.append(self.cwd.as_str());
        push_char(&mut out, '\t');
        match &self.repository {
            Some(status) => {
                push_char(&mut out, '1');
                push_char(&mut out, '\t');
                out.append(status.repo.as_str());
                push_char(&mut out, '\t');
                out.append(status.ref_name.as_str());
                push_char(&mut out, '\t');
                let letters = status.flags.to_string();
                out.append(letters.as_str());
            },
            None => {
                push_char(&mut out, '0');
                push_char(&mut out, '\t');
                push_char(&mut out, '\t');
                push_char(&mut out, '\t');
            },
        }
        push_char(&mut out, '\n');
        assert(out@ =~= payload_line(*self));
        out
    }
}

} // verus!

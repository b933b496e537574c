//! Collecting the status of the repository around a directory, as a machine
//! that asks for one `git` command (or one look at the git directory) at a
//! time and decides from each answer what to ask next.
use vstd::prelude::*;

use crate::path::{join_path, path_components, path_file_name, path_join, repo_name, same_path};
use crate::payload::{RepositoryStatus, StatusFlags};
use crate::text::{chars_of, string_of, trim, trim_bounds};

verus! {

/// The `git` commands the collection runs, each in the directory in question.
#[derive(Clone, Copy, Debug, PartialEq, Eq, Structural)]
pub enum GitQuery {
    /// `git rev-parse --show-toplevel`
    ShowToplevel,
    /// `git rev-parse --path-format=absolute --git-dir`
    GitDir,
    /// `git rev-parse --path-format=absolute --git-common-dir`
    CommonDir,
    /// `git symbolic-ref --short HEAD`
    SymbolicRef,
    /// `git rev-parse --short HEAD`
    ShortHead,
    /// `git diff --quiet`
    DiffQuiet,
    /// `git diff --quiet --cached`
    DiffCachedQuiet,
    /// `git ls-files --others --exclude-standard --directory --no-empty-directory`
    Untracked,
}

/// The arguments to `git` for each query.
pub open spec fn query_args(q: GitQuery) -> Seq<Seq<char>> {
    match q {
        GitQuery::ShowToplevel => seq!["rev-parse"@, "--show-toplevel"@],
        GitQuery::GitDir => seq!["rev-parse"@, "--path-format=absolute"@, "--git-dir"@],
        GitQuery::CommonDir => seq!["rev-parse"@, "--path-format=absolute"@, "--git-common-dir"@],
        GitQuery::SymbolicRef => seq!["symbolic-ref"@, "--short"@, "HEAD"@],
        GitQuery::ShortHead => seq!["rev-parse"@, "--short"@, "HEAD"@],
        GitQuery::DiffQuiet => seq!["diff"@, "--quiet"@],
        GitQuery::DiffCachedQuiet => seq!["diff"@, "--quiet"@, "--cached"@],
        GitQuery::Untracked => seq![
            "ls-files"@,
            "--others"@,
            "--exclude-standard"@,
            "--directory"@,
            "--no-empty-directory"@,
        ],
    }
}

impl GitQuery {
    /// The arguments to `git`.
    pub fn args(&self) -> (r: Vec<&'static str>)
        ensures
            r@.map_values(|a: &str| a@) == query_args(*self),
    {
        let r = self.args_list();
        assert(r@.map_values(|a: &str| a@) =~= query_args(*self));
        r
    }

    fn args_list(&self) -> (r: Vec<&'static str>)
        ensures
            r@.len() == query_args(*self).len(),
            forall|i: int| 0 <= i < r@.len() ==> #[trigger] r@[i]@ == query_args(*self)[i],
    {
        match self {
            GitQuery::ShowToplevel => vec!["rev-parse", "--show-toplevel"],
            GitQuery::GitDir => vec!["rev-parse", "--path-format=absolute", "--git-dir"],
            GitQuery::CommonDir => vec!["rev-parse", "--path-format=absolute", "--git-common-dir"],
            GitQuery::SymbolicRef => vec!["symbolic-ref", "--short", "HEAD"],
            GitQuery::ShortHead => vec!["rev-parse", "--short", "HEAD"],
            GitQuery::DiffQuiet => vec!["diff", "--quiet"],
            GitQuery::DiffCachedQuiet => vec!["diff", "--quiet", "--cached"],
            GitQuery::Untracked => vec![
                "ls-files",
                "--others",
                "--exclude-standard",
                "--directory",
                "--no-empty-directory",
            ],
        }
    }

    pub open spec fn status_only(self) -> bool {
        self == GitQuery::DiffQuiet || self == GitQuery::DiffCachedQuiet
    }

    /// Whether only the exit status of the command matters; its output then
    /// goes to the terminal as it would for the command run by hand.
    pub fn is_status_only(&self) -> (r: bool)
        ensures
            r == self.status_only(),
    {
        match self {
            GitQuery::DiffQuiet | GitQuery::DiffCachedQuiet => true,
            _ => false,
        }
    }
}

/// The directories of a repository, as git reports them.
#[derive(Clone, Debug)]
pub struct GitDirs {
    pub root: String,
    pub git_dir: String,
    pub common_dir: String,
}

/// The directories and the checked-out ref.
#[derive(Clone, Debug)]
pub struct HeadState {
    pub dirs: GitDirs,
    pub ref_name: String,
    pub detached: bool,
}

/// Where the collection stands: what it has learnt, and what it waits for.
#[derive(Clone, Debug)]
pub enum Collector {
    AwaitToplevel,
    AwaitGitDir(String),
    AwaitCommonDir(String, String),
    AwaitSymbolicRef(GitDirs),
    AwaitShortHead(GitDirs),
    AwaitDiff(HeadState),
    AwaitDiffCached(HeadState),
    AwaitUntracked(HeadState),
    AwaitGitDirState(HeadState, bool),
    Done,
}

/// What the collection asks for next.
#[derive(Debug)]
pub enum CollectStep {
    /// Run `git` with the query's arguments in the directory.
    Run(GitQuery),
    /// Look into the git directory: the canonical forms of the git directory
    /// and the common directory, whether `rebase_merge` and `rebase_apply`
    /// are directories and whether `cherry_pick_head` is a file.
    Inspect {
        git_dir: String,
        common_dir: String,
        rebase_merge: String,
        rebase_apply: String,
        cherry_pick_head: String,
    },
    /// The collection is over: the repository's status, or none when the
    /// directory is not in a repository or has no commit checked out.
    Finish(Option<RepositoryStatus>),
}

/// What was found out for the collection.
#[derive(Debug)]
pub enum CollectEvent {
    /// A `git` command ran: whether it succeeded, and its output.
    Output { success: bool, stdout: String },
    /// The git directory was looked into.
    GitDirState {
        git_dir_canonical: String,
        common_dir_canonical: String,
        rebase_merge_is_dir: bool,
        rebase_apply_is_dir: bool,
        cherry_pick_head_is_file: bool,
    },
}

/// The value of a command's output: its trimmed text, when the command
/// succeeded and that text is not empty.
pub open spec fn output_value(success: bool, stdout: Seq<char>) -> Option<Seq<char>> {
    if !success || trim(stdout).len() == 0 {
        None
    } else {
        Some(trim(stdout))
    }
}

/// The value of a command's output: its trimmed text, when the command
/// succeeded and that text is not empty.
pub fn command_output_value(success: bool, stdout: &str) -> (r: Option<String>)
    ensures
        match output_value(success, stdout@) {
            Some(v) => r is Some && r->0@ == v,
            None => r is None,
        },
{
    if !success {
        return None;
    }
    let cs = chars_of(stdout);
    let (a, b) = trim_bounds(cs.as_slice());
    if a == b {
        None
    } else {
        Some(string_of(vstd::slice::slice_subrange(cs.as_slice(), a, b)))
    }
}

impl Collector {
    /// The collector waits for the output of a command (not for a look into
    /// the git directory).
    pub open spec fn awaits_output(self) -> bool {
        !(self is AwaitGitDirState) && !(self is Done)
    }

    /// The query that the collector waits for the answer to.
    pub open spec fn pending(self) -> GitQuery {
        match self {
            Collector::AwaitToplevel => GitQuery::ShowToplevel,
            Collector::AwaitGitDir(_) => GitQuery::GitDir,
            Collector::AwaitCommonDir(_, _) => GitQuery::CommonDir,
            Collector::AwaitSymbolicRef(_) => GitQuery::SymbolicRef,
            Collector::AwaitShortHead(_) => GitQuery::ShortHead,
            Collector::AwaitDiff(_) => GitQuery::DiffQuiet,
            Collector::AwaitDiffCached(_) => GitQuery::DiffCachedQuiet,
            _ => GitQuery::Untracked,
        }
    }

    /// How many answers the collector can still take at most: every step
    /// moves it closer to `Done`, so a collection always finishes.
    pub open spec fn rank(self) -> nat {
        match self {
            Collector::AwaitToplevel => 9,
            Collector::AwaitGitDir(_) => 8,
            Collector::AwaitCommonDir(_, _) => 7,
            Collector::AwaitSymbolicRef(_) => 6,
            Collector::AwaitShortHead(_) => 5,
            Collector::AwaitDiff(_) => 4,
            Collector::AwaitDiffCached(_) => 3,
            Collector::AwaitUntracked(_) => 2,
            Collector::AwaitGitDirState(_, _) => 1,
            Collector::Done => 0,
        }
    }

    /// A collection begins by asking for the top level of the work tree.
    pub fn start() -> (r: (Collector, CollectStep))
        ensures
            r.0 is AwaitToplevel,
            r.0.awaits_output() && r.0.pending() == GitQuery::ShowToplevel,
            r.1 matches CollectStep::Run(q) && q == GitQuery::ShowToplevel,
    {
        (Collector::AwaitToplevel, CollectStep::Run(GitQuery::ShowToplevel))
    }
}

/// The flags of a repository with a `detached` head, a `dirty` work tree, a
/// git directory that is not the common one (a linked worktree), a rebase and
/// a cherry-pick in progress.
pub open spec fn flags_are(f: StatusFlags, detached: bool, dirty: bool, worktree: bool, rebase: bool, cherry_pick: bool) -> bool {
    f.flags() == (detached, dirty, worktree, rebase, cherry_pick)
}

/// `r` is the step and state after the answer `value` to a command, for the
/// collector `c` that waits for it.
pub open spec fn after_output(c: Collector, success: bool, value: Option<Seq<char>>, next: Collector, step: CollectStep) -> bool {
    match c {
        Collector::AwaitToplevel => match value {
            None => next is Done && step matches CollectStep::Finish(None),
            Some(root) => next matches Collector::AwaitGitDir(r) && r@ == root
                && step matches CollectStep::Run(GitQuery::GitDir),
        },
        Collector::AwaitGitDir(root) => match value {
            None => next is Done && step matches CollectStep::Finish(None),
            Some(g) => next matches Collector::AwaitCommonDir(r, gd) && r@ == root@ && gd@ == g
                && step matches CollectStep::Run(GitQuery::CommonDir),
        },
        Collector::AwaitCommonDir(root, git_dir) => match value {
            None => next is Done && step matches CollectStep::Finish(None),
            Some(cd) => next matches Collector::AwaitSymbolicRef(d) && d.root@ == root@
                && d.git_dir@ == git_dir@ && d.common_dir@ == cd
                && step matches CollectStep::Run(GitQuery::SymbolicRef),
        },
        Collector::AwaitSymbolicRef(dirs) => match value {
            Some(r) => next matches Collector::AwaitDiff(h) && h.dirs.root@ == dirs.root@
                && h.dirs.git_dir@ == dirs.git_dir@ && h.dirs.common_dir@ == dirs.common_dir@
                && h.ref_name@ == r && !h.detached
                && step matches CollectStep::Run(GitQuery::DiffQuiet),
            None => next matches Collector::AwaitShortHead(d) && d.root@ == dirs.root@
                && d.git_dir@ == dirs.git_dir@ && d.common_dir@ == dirs.common_dir@
                && step matches CollectStep::Run(GitQuery::ShortHead),
        },
        Collector::AwaitShortHead(dirs) => match value {
            Some(r) => next matches Collector::AwaitDiff(h) && h.dirs.root@ == dirs.root@
                && h.dirs.git_dir@ == dirs.git_dir@ && h.dirs.common_dir@ == dirs.common_dir@
                && h.ref_name@ == r && h.detached
                && step matches CollectStep::Run(GitQuery::DiffQuiet),
            None => next is Done && step matches CollectStep::Finish(None),
        },
        Collector::AwaitDiff(head) => if success {
            next matches Collector::AwaitDiffCached(h) && same_head(h, head)
                && step matches CollectStep::Run(GitQuery::DiffCachedQuiet)
        } else {
            inspecting(next, step, head, true)
        },
        Collector::AwaitDiffCached(head) => if success {
            next matches Collector::AwaitUntracked(h) && same_head(h, head)
                && step matches CollectStep::Run(GitQuery::Untracked)
        } else {
            inspecting(next, step, head, true)
        },
        Collector::AwaitUntracked(head) => inspecting(next, step, head, value is Some),
        _ => false,
    }
}

pub open spec fn same_head(a: HeadState, b: HeadState) -> bool {
    &&& a.dirs.root@ == b.dirs.root@
    &&& a.dirs.git_dir@ == b.dirs.git_dir@
    &&& a.dirs.common_dir@ == b.dirs.common_dir@
    &&& a.ref_name@ == b.ref_name@
    &&& a.detached == b.detached
}

/// The collector goes on to look into the git directory of `head`, knowing
/// whether the work tree is `dirty`.
pub open spec fn inspecting(next: Collector, step: CollectStep, head: HeadState, dirty: bool) -> bool {
    &&& next matches Collector::AwaitGitDirState(h, d) && same_head(h, head) && d == dirty
    &&& step matches CollectStep::Inspect { git_dir, common_dir, rebase_merge, rebase_apply, cherry_pick_head }
        && git_dir@ == head.dirs.git_dir@ && common_dir@ == head.dirs.common_dir@
        && rebase_merge@ == path_join(head.dirs.git_dir@, "rebase-merge"@)
        && rebase_apply@ == path_join(head.dirs.git_dir@, "rebase-apply"@)
        && cherry_pick_head@ == path_join(head.dirs.git_dir@, "CHERRY_PICK_HEAD"@)
}

/// The status that the collection reports for `head` once the git directory
/// has been looked into.
pub open spec fn final_status(s: RepositoryStatus, head: HeadState, dirty: bool, git_dir_canonical: Seq<char>, common_dir_canonical: Seq<char>, rebase_merge: bool, rebase_apply: bool, cherry_pick: bool) -> bool {
    &&& s.repo@ == match path_file_name(head.dirs.root@) {
        Some(n) => n,
        None => head.dirs.root@,
    }
    &&& s.ref_name@ == head.ref_name@
    &&& flags_are(
        s.flags,
        head.detached,
        dirty,
        path_components(git_dir_canonical) != path_components(common_dir_canonical),
        rebase_merge || rebase_apply,
        cherry_pick,
    )
}

fn inspect_step(head: HeadState, dirty: bool) -> (r: (Collector, CollectStep))
    ensures
        inspecting(r.0, r.1, head, dirty),
{
    let git_dir = head.dirs.git_dir.clone();
    let common_dir = head.dirs.common_dir.clone();
    let rebase_merge = join_path(git_dir.as_str(), "rebase-merge");
    let rebase_apply = join_path(git_dir.as_str(), "rebase-apply");
    let cherry_pick_head = join_path(git_dir.as_str(), "CHERRY_PICK_HEAD");
    (
        Collector::AwaitGitDirState(head, dirty),
        CollectStep::Inspect { git_dir, common_dir, rebase_merge, rebase_apply, cherry_pick_head },
    )
}

impl Collector {
    /// Takes in the answer to what the collector asked for, and says what to
    /// ask for next.
    pub fn step(self, event: CollectEvent) -> (r: (Collector, CollectStep))
        requires
            !(self is Done),
            self.awaits_output() <==> event is Output,
        ensures
            r.0.rank() < self.rank(),
            r.0 is Done <==> r.1 is Finish,
            r.1 matches CollectStep::Run(q) ==> r.0.awaits_output() && r.0.pending() == q,
            r.1 is Inspect ==> r.0 is AwaitGitDirState,
            match event {
                CollectEvent::Output { success, stdout } => after_output(
                    self,
                    success,
                    output_value(success, stdout@),
                    r.0,
                    r.1,
                ),
                CollectEvent::GitDirState {
                    git_dir_canonical,
                    common_dir_canonical,
                    rebase_merge_is_dir,
                    rebase_apply_is_dir,
                    cherry_pick_head_is_file,
                } => r.0 is Done && match self {
                    Collector::AwaitGitDirState(head, dirty) => r.1 matches CollectStep::Finish(
                        Some(s),
                    ) && final_status(
                        s,
                        head,
                        dirty,
                        git_dir_canonical@,
                        common_dir_canonical@,
                        rebase_merge_is_dir,
                        rebase_apply_is_dir,
                        cherry_pick_head_is_file,
                    ),
                    _ => false,
                },
            },
    {
        match event {
            CollectEvent::Output { success, stdout } => {
                let value = command_output_value(success, stdout.as_str());
                match self {
                    Collector::AwaitToplevel => match value {
                        None => (Collector::Done, CollectStep::Finish(None)),
                        Some(root) => (Collector::AwaitGitDir(root), CollectStep::Run(GitQuery::GitDir)),
                    },
                    Collector::AwaitGitDir(root) => match value {
                        None => (Collector::Done, CollectStep::Finish(None)),
                        Some(git_dir) => (
                            Collector::AwaitCommonDir(root, git_dir),
                            CollectStep::Run(GitQuery::CommonDir),
                        ),
                    },
                    Collector::AwaitCommonDir(root, git_dir) => match value {
                        None => (Collector::Done, CollectStep::Finish(None)),
                        Some(common_dir) => (
                            Collector::AwaitSymbolicRef(GitDirs { root, git_dir, common_dir }),
                            CollectStep::Run(GitQuery::SymbolicRef),
                        ),
                    },
                    Collector::AwaitSymbolicRef(dirs) => match value {
                        Some(ref_name) => (
                            Collector::AwaitDiff(HeadState { dirs, ref_name, detached: false }),
                            CollectStep::Run(GitQuery::DiffQuiet),
                        ),
                        None => (Collector::AwaitShortHead(dirs), CollectStep::Run(GitQuery::ShortHead)),
                    },
                    Collector::AwaitShortHead(dirs) => match value {
                        Some(ref_name) => (
                            Collector::AwaitDiff(HeadState { dirs, ref_name, detached: true }),
                            CollectStep::Run(GitQuery::DiffQuiet),
                        ),
                        None => (Collector::Done, CollectStep::Finish(None)),
                    },
                    Collector::AwaitDiff(head) => {
                        if success {
                            (Collector::AwaitDiffCached(head), CollectStep::Run(GitQuery::DiffCachedQuiet))
                        } else {
                            inspect_step(head, true)
                        }
                    },
                    Collector::AwaitDiffCached(head) => {
                        if success {
                            (Collector::AwaitUntracked(head), CollectStep::Run(GitQuery::Untracked))
                        } else {
                            inspect_step(head, true)
                        }
                    },
                    Collector::AwaitUntracked(head) => {
                        let dirty = match value {
                            Some(untracked) => !untracked.as_str().is_empty(),
                            None => false,
                        };
                        inspect_step(head, dirty)
                    },
                    _ => (Collector::Done, CollectStep::Finish(None)),
                }
            },
            CollectEvent::GitDirState {
                git_dir_canonical,
                common_dir_canonical,
                rebase_merge_is_dir,
                rebase_apply_is_dir,
                cherry_pick_head_is_file,
            } => match self {
                Collector::AwaitGitDirState(head, dirty) => {
                    let mut flags = StatusFlags::new();
                    flags.set_detached(head.detached);
                    flags.set_dirty(dirty);
                    flags.set_worktree(
                        !same_path(git_dir_canonical.as_str(), common_dir_canonical.as_str()),
                    );
                    flags.set_rebase(rebase_merge_is_dir || rebase_apply_is_dir);
                    flags.set_cherry_pick(cherry_pick_head_is_file);
                    let status = RepositoryStatus {
                        repo: repo_name(head.dirs.root.as_str()),
                        ref_name: head.ref_name,
                        flags,
                    };
                    (Collector::Done, CollectStep::Finish(Some(status)))
                },
                _ => (Collector::Done, CollectStep::Finish(None)),
            },
        }
    }
}

// ---------------------------------------------------------------------------
// What the answers about the work tree decide
// ---------------------------------------------------------------------------
/// A failing `git diff --quiet` (unstaged changes) or `git diff --quiet
/// --cached` (staged changes) makes the work tree dirty: the collector goes
/// on to look into the git directory with the dirty flag set, whatever the
/// command printed.
pub proof fn lemma_failed_diff_is_dirty(
    c: Collector,
    value: Option<Seq<char>>,
    next: Collector,
    step: CollectStep,
)
    requires
        c is AwaitDiff || c is AwaitDiffCached,
        after_output(c, false, value, next, step),
    ensures
        next matches Collector::AwaitGitDirState(_, dirty) && dirty,
        step is Inspect,
{
}

/// A succeeding diff decides nothing yet: after `git diff --quiet` comes the
/// staged diff, and after that the untracked files.
pub proof fn lemma_clean_diff_goes_on(
    c: Collector,
    value: Option<Seq<char>>,
    next: Collector,
    step: CollectStep,
)
    requires
        c is AwaitDiff || c is AwaitDiffCached,
        after_output(c, true, value, next, step),
    ensures
        c is AwaitDiff ==> next is AwaitDiffCached && step == CollectStep::Run(GitQuery::DiffCachedQuiet),
        c is AwaitDiffCached ==> next is AwaitUntracked && step == CollectStep::Run(GitQuery::Untracked),
{
}

/// After both diffs succeeded, the tree is dirty exactly when the listing of
/// untracked files succeeded and printed more than white space.
pub proof fn lemma_untracked_files_decide(
    c: Collector,
    success: bool,
    stdout: Seq<char>,
    next: Collector,
    step: CollectStep,
)
    requires
        c is AwaitUntracked,
        after_output(c, success, output_value(success, stdout), next, step),
    ensures
        next matches Collector::AwaitGitDirState(_, dirty) && dirty == (success && trim(stdout).len() > 0),
        step is Inspect,
{
}

/// The reported status carries what was found out: the dirty flag is the one
/// the collector carried into the look at the git directory, the detached
/// flag is whether the head was a commit rather than a branch, a rebase is
/// either kind of rebase directory, and the reference is the head's.
pub proof fn lemma_final_flags(
    s: RepositoryStatus,
    head: HeadState,
    dirty: bool,
    git_dir_canonical: Seq<char>,
    common_dir_canonical: Seq<char>,
    rebase_merge: bool,
    rebase_apply: bool,
    cherry_pick: bool,
)
    requires
        final_status(
            s,
            head,
            dirty,
            git_dir_canonical,
            common_dir_canonical,
            rebase_merge,
            rebase_apply,
            cherry_pick,
        ),
    ensures
        s.flags.flags().0 == head.detached,
        s.flags.flags().1 == dirty,
        s.flags.flags().2 == !same_components(git_dir_canonical, common_dir_canonical),
        s.flags.flags().3 == (rebase_merge || rebase_apply),
        s.flags.flags().4 == cherry_pick,
        s.ref_name@ == head.ref_name@,
{
}

/// Two paths with the same root, the same leading `.` and the same
/// components.
pub open spec fn same_components(a: Seq<char>, b: Seq<char>) -> bool {
    path_components(a) == path_components(b)
}

} // verus!

use wezterm_git_status_bridge::git_status::{
    command_output_value, CollectEvent, CollectStep, Collector, GitQuery,
};

fn output(success: bool, stdout: &str) -> CollectEvent {
    CollectEvent::Output { success, stdout: stdout.to_owned() }
}

fn expect_run(step: &CollectStep, query: GitQuery) {
    match step {
        CollectStep::Run(q) => assert_eq!(*q, query),
        other => panic!("expected {query:?}, got {other:?}"),
    }
}

#[test]
fn trims_command_output() {
    assert_eq!(command_output_value(true, "  main\n"), Some("main".to_owned()));
    assert_eq!(command_output_value(true, " \n"), None);
    assert_eq!(command_output_value(false, "main"), None);
}

#[test]
fn collects_a_clean_branch_checkout() {
    let (c, step) = Collector::start();
    expect_run(&step, GitQuery::ShowToplevel);
    let (c, step) = c.step(output(true, "/work/project\n"));
    expect_run(&step, GitQuery::GitDir);
    let (c, step) = c.step(output(true, "/work/project/.git\n"));
    expect_run(&step, GitQuery::CommonDir);
    let (c, step) = c.step(output(true, "/work/project/.git\n"));
    expect_run(&step, GitQuery::SymbolicRef);
    let (c, step) = c.step(output(true, "main\n"));
    expect_run(&step, GitQuery::DiffQuiet);
    let (c, step) = c.step(output(true, ""));
    expect_run(&step, GitQuery::DiffCachedQuiet);
    let (c, step) = c.step(output(true, ""));
    expect_run(&step, GitQuery::Untracked);
    let (c, step) = c.step(output(true, "\n"));
    match &step {
        CollectStep::Inspect { git_dir, rebase_merge, rebase_apply, cherry_pick_head, .. } => {
            assert_eq!(git_dir, "/work/project/.git");
            assert_eq!(rebase_merge, "/work/project/.git/rebase-merge");
            assert_eq!(rebase_apply, "/work/project/.git/rebase-apply");
            assert_eq!(cherry_pick_head, "/work/project/.git/CHERRY_PICK_HEAD");
        }
        other => panic!("expected inspect, got {other:?}"),
    }
    let (c, step) = c.step(CollectEvent::GitDirState {
        git_dir_canonical: "/work/project/.git".to_owned(),
        common_dir_canonical: "/work/project/.git".to_owned(),
        rebase_merge_is_dir: false,
        rebase_apply_is_dir: false,
        cherry_pick_head_is_file: false,
    });
    assert!(matches!(c, Collector::Done));
    match step {
        CollectStep::Finish(Some(status)) => {
            assert_eq!(status.repo, "project");
            assert_eq!(status.ref_name, "main");
            assert_eq!(status.flags.to_string(), "");
        }
        other => panic!("expected status, got {other:?}"),
    }
}

#[test]
fn collects_a_detached_dirty_worktree_in_a_rebase() {
    let (c, _) = Collector::start();
    let (c, _) = c.step(output(true, "/w/linked"));
    let (c, _) = c.step(output(true, "/w/main/.git/worktrees/linked"));
    let (c, _) = c.step(output(true, "/w/main/.git"));
    let (c, step) = c.step(output(false, ""));
    expect_run(&step, GitQuery::ShortHead);
    let (c, step) = c.step(output(true, "abc1234\n"));
    expect_run(&step, GitQuery::DiffQuiet);
    let (c, step) = c.step(output(false, ""));
    assert!(matches!(step, CollectStep::Inspect { .. }));
    let (_, step) = c.step(CollectEvent::GitDirState {
        git_dir_canonical: "/w/main/.git/worktrees/linked".to_owned(),
        common_dir_canonical: "/w/main/.git".to_owned(),
        rebase_merge_is_dir: false,
        rebase_apply_is_dir: true,
        cherry_pick_head_is_file: true,
    });
    match step {
        CollectStep::Finish(Some(status)) => {
            assert_eq!(status.repo, "linked");
            assert_eq!(status.ref_name, "abc1234");
            assert_eq!(status.flags.to_string(), "DdwRC");
        }
        other => panic!("expected status, got {other:?}"),
    }
}

#[test]
fn untracked_files_make_the_tree_dirty() {
    let (c, _) = Collector::start();
    let (c, _) = c.step(output(true, "/r"));
    let (c, _) = c.step(output(true, "/r/.git"));
    let (c, _) = c.step(output(true, "/r/.git"));
    let (c, _) = c.step(output(true, "main"));
    let (c, _) = c.step(output(true, ""));
    let (c, _) = c.step(output(true, ""));
    let (c, _) = c.step(output(true, "scratch.txt\n"));
    let (_, step) = c.step(CollectEvent::GitDirState {
        git_dir_canonical: "/r/.git".to_owned(),
        common_dir_canonical: "/r/.git".to_owned(),
        rebase_merge_is_dir: false,
        rebase_apply_is_dir: false,
        cherry_pick_head_is_file: false,
    });
    match step {
        CollectStep::Finish(Some(status)) => assert!(status.flags.dirty()),
        other => panic!("expected status, got {other:?}"),
    }
}

#[test]
fn returns_absent_status_outside_git_repository() {
    let (c, _) = Collector::start();
    let (c, step) = c.step(output(false, "fatal: not a git repository\n"));
    assert!(matches!(c, Collector::Done));
    assert!(matches!(step, CollectStep::Finish(None)));

    let (c, _) = Collector::start();
    let (c, _) = c.step(output(true, "/r"));
    let (c, _) = c.step(output(true, "/r/.git"));
    let (c, _) = c.step(output(true, "/r/.git"));
    let (c, _) = c.step(output(false, ""));
    let (_, step) = c.step(output(false, ""));
    assert!(matches!(step, CollectStep::Finish(None)));
}

#[test]
fn query_arguments_match_git() {
    assert_eq!(GitQuery::ShowToplevel.args(), vec!["rev-parse", "--show-toplevel"]);
    assert_eq!(GitQuery::DiffCachedQuiet.args(), vec!["diff", "--quiet", "--cached"]);
    assert!(GitQuery::DiffQuiet.is_status_only());
    assert!(!GitQuery::Untracked.is_status_only());
}

#[test]
fn compares_git_directories_as_paths() {
    let finish = |git_dir: &str, common_dir: &str| {
        let (c, _) = Collector::start();
        let (c, _) = c.step(output(true, "/r"));
        let (c, _) = c.step(output(true, git_dir));
        let (c, _) = c.step(output(true, common_dir));
        let (c, _) = c.step(output(true, "main"));
        let (c, _) = c.step(output(true, ""));
        let (c, _) = c.step(output(true, ""));
        let (c, _) = c.step(output(true, ""));
        let (_, step) = c.step(CollectEvent::GitDirState {
            git_dir_canonical: git_dir.to_owned(),
            common_dir_canonical: common_dir.to_owned(),
            rebase_merge_is_dir: false,
            rebase_apply_is_dir: false,
            cherry_pick_head_is_file: false,
        });
        match step {
            CollectStep::Finish(Some(status)) => status.flags.worktree(),
            other => panic!("expected status, got {other:?}"),
        }
    };
    assert!(!finish("/r/.git/", "/r/.git"));
    assert!(!finish("/r//.git", "/r/./.git"));
    assert!(finish("/r/.git/worktrees/w", "/r/.git"));
}

use wezterm_git_status_bridge::{Payload, RepositoryStatus, StatusFlags};

#[test]
fn encodes_missing_repository_as_absent_status() {
    let payload = Payload {
        at: 123,
        pane_id: "w1:p1".to_owned(),
        cwd: "/tmp/project".into(),
        repository: None,
    };

    assert_eq!(
        payload.encode_line(),
        "herdrgit1\t123\tw1:p1\t/tmp/project\t0\t\t\t\n"
    );
}

#[test]
fn encodes_repository_status_with_compact_flags() {
    let mut flags = StatusFlags::default();
    flags.set_dirty(true);
    flags.set_worktree(true);

    let payload = Payload {
        at: 123,
        pane_id: "w1:p1".to_owned(),
        cwd: "/tmp/project".into(),
        repository: Some(RepositoryStatus {
            repo: "project".to_owned(),
            ref_name: "main".to_owned(),
            flags,
        }),
    };

    assert_eq!(
        payload.encode_line(),
        "herdrgit1\t123\tw1:p1\t/tmp/project\t1\tproject\tmain\tdw\n"
    );
}

#[test]
fn each_setter_changes_only_its_flag() {
    let mut flags = StatusFlags::default();
    assert_eq!(flags.to_string(), "");
    flags.set_detached(true);
    flags.set_rebase(true);
    assert!(flags.detached() && flags.rebase());
    assert!(!flags.dirty() && !flags.worktree() && !flags.cherry_pick());
    flags.set_detached(false);
    assert!(!flags.detached());
    assert!(flags.rebase());
    flags.set_cherry_pick(true);
    flags.set_dirty(true);
    flags.set_worktree(true);
    flags.set_detached(true);
    assert_eq!(flags.to_string(), "DdwRC");
    flags.set_worktree(false);
    assert_eq!(flags.to_string(), "DdRC");
}

#[test]
fn encodes_every_flag_letter_and_large_timestamps() {
    let mut flags = StatusFlags::new();
    flags.set_detached(true);
    flags.set_cherry_pick(true);
    let payload = Payload {
        at: u64::MAX,
        pane_id: "p".to_owned(),
        cwd: "/".to_owned(),
        repository: Some(RepositoryStatus {
            repo: "r".to_owned(),
            ref_name: "abc1234".to_owned(),
            flags,
        }),
    };
    assert_eq!(
        payload.encode_line(),
        "herdrgit1\t18446744073709551615\tp\t/\t1\tr\tabc1234\tDC\n"
    );
    let zero = Payload {
        at: 0,
        pane_id: String::new(),
        cwd: String::new(),
        repository: None,
    };
    assert_eq!(zero.encode_line(), "herdrgit1\t0\t\t\t0\t\t\t\n");
}

#[test]
fn payload_line_splits_into_its_eight_fields() {
    let mut flags = StatusFlags::default();
    flags.set_rebase(true);
    let payload = Payload {
        at: 42,
        pane_id: "w1:p1".to_owned(),
        cwd: "/tmp/a b".to_owned(),
        repository: Some(RepositoryStatus {
            repo: "a b".to_owned(),
            ref_name: "feature/x".to_owned(),
            flags,
        }),
    };
    let line = payload.encode_line();
    assert!(line.ends_with('\n'));
    assert_eq!(line.matches('\n').count(), 1);
    let fields: Vec<&str> = line.trim_end_matches('\n').split('\t').collect();
    assert_eq!(
        fields,
        vec!["herdrgit1", "42", "w1:p1", "/tmp/a b", "1", "a b", "feature/x", "R"]
    );
}

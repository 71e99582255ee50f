use glitter_lang::git::{check, short_id_of, FileStatus, Head};
use glitter_lang::text::{chars_of, push_decimal, text_of};
use glitter_lang::Stats;

#[test]
fn default_stats_are_empty() {
    let stats = Stats::default();
    assert_eq!(
        stats,
        Stats {
            untracked: 0,
            added_staged: 0,
            modified: 0,
            modified_staged: 0,
            renamed: 0,
            deleted: 0,
            deleted_staged: 0,
            ahead: 0,
            behind: 0,
            conflicts: 0,
            stashes: 0,
            branch: String::new(),
            remote: String::new(),
        }
    );
}

#[test]
fn files_are_counted_by_state() {
    let mut stats = Stats::default();
    stats.branch = "b".to_string();
    let none = FileStatus {
        untracked: false,
        added_staged: false,
        modified: false,
        modified_staged: false,
        renamed: false,
        deleted: false,
        deleted_staged: false,
        conflicted: false,
    };
    stats.record(none);
    assert_eq!(stats.branch, "b");
    stats.branch.clear();
    assert_eq!(stats, Stats::default());
    stats.record(FileStatus {
        untracked: true,
        modified: true,
        ..none
    });
    stats.record(FileStatus {
        modified: true,
        deleted_staged: true,
        conflicted: true,
        ..none
    });
    stats.record(FileStatus {
        added_staged: true,
        modified_staged: true,
        renamed: true,
        deleted: true,
        ..none
    });
    assert_eq!(
        stats,
        Stats {
            untracked: 1,
            added_staged: 1,
            modified: 2,
            modified_staged: 1,
            renamed: 1,
            deleted: 1,
            deleted_staged: 1,
            conflicts: 1,
            ..Stats::default()
        }
    );
}

#[test]
fn room_for_one_more() {
    let none = FileStatus {
        untracked: false,
        added_staged: false,
        modified: false,
        modified_staged: false,
        renamed: false,
        deleted: false,
        deleted_staged: false,
        conflicted: false,
    };
    let mut stats = Stats::default();
    stats.renamed = u16::MAX;
    stats.conflicts = u16::MAX - 1;
    assert!(stats.can_record(none));
    assert!(stats.can_record(FileStatus {
        untracked: true,
        conflicted: true,
        ..none
    }));
    assert!(!stats.can_record(FileStatus {
        renamed: true,
        ..none
    }));
    stats.record(FileStatus {
        conflicted: true,
        ..none
    });
    assert!(!stats.can_record(FileStatus {
        conflicted: true,
        ..none
    }));
    assert!(stats.can_record_stash());
    stats.stashes = u16::MAX;
    assert!(!stats.can_record_stash());
}

#[test]
fn counts_are_added() {
    let mut left = Stats {
        untracked: 1,
        added_staged: 2,
        modified: 3,
        modified_staged: 4,
        renamed: 5,
        deleted: 6,
        deleted_staged: 7,
        ahead: 8,
        behind: 9,
        conflicts: 10,
        stashes: 11,
        branch: "left".to_string(),
        remote: "upstream".to_string(),
    };
    let right = Stats {
        untracked: 100,
        added_staged: 200,
        modified: 300,
        modified_staged: 400,
        renamed: 500,
        deleted: 600,
        deleted_staged: 700,
        ahead: 800,
        behind: 900,
        conflicts: 1000,
        stashes: 65524,
        branch: "right".to_string(),
        remote: String::new(),
    };
    left.add_assign(right);
    assert_eq!(
        left,
        Stats {
            untracked: 101,
            added_staged: 202,
            modified: 303,
            modified_staged: 404,
            renamed: 505,
            deleted: 606,
            deleted_staged: 707,
            ahead: 808,
            behind: 909,
            conflicts: 1010,
            stashes: 65535,
            branch: "left".to_string(),
            remote: "upstream".to_string(),
        }
    );
}

#[test]
fn bits_are_checked() {
    assert!(check(0b1010, 0b1000));
    assert!(check(0b1010, 0b1010));
    assert!(!check(0b1010, 0b0110));
    assert!(check(7, 0));
    assert!(!check(0, 1));
}

#[test]
fn numerals_and_characters() {
    let mut out = "n=".to_string();
    push_decimal(&mut out, 0);
    out.push(',');
    push_decimal(&mut out, 9);
    out.push(',');
    push_decimal(&mut out, 10);
    out.push(',');
    push_decimal(&mut out, 4294967295);
    assert_eq!(out, "n=0,9,10,4294967295");
    let chars = chars_of("a日b");
    assert_eq!(chars, vec!['a', '日', 'b']);
    assert_eq!(text_of(&chars, 1, 3), "日b");
    assert_eq!(text_of(&chars, 2, 2), "");
}

#[test]
fn short_ids() {
    assert_eq!(short_id_of(&vec![0xde, 0xad, 0xbe, 0xef, 0x12]), "deadbeef");
    assert_eq!(short_id_of(&vec![0x00, 0x0a, 0x10, 0xff]), "0a10ff");
    assert_eq!(short_id_of(&vec![0x09, 0x99]), "999");
    assert_eq!(short_id_of(&vec![]), "");
}

#[test]
fn branch_from_head() {
    let name = |head: Head| {
        let mut stats = Stats::default();
        stats.remote = "kept".to_string();
        stats.stashes = 3;
        let named = stats.read_branch(&head);
        assert_eq!(stats.remote, "kept");
        assert_eq!(stats.stashes, 3);
        (stats.branch, named)
    };
    assert_eq!(
        name(Head::Named {
            shorthand: "master".to_string(),
            commit: None
        }),
        ("master".to_string(), true)
    );
    assert_eq!(
        name(Head::Named {
            shorthand: "HEAD".to_string(),
            commit: Some(vec![0xab, 0x01, 0x20, 0x03, 0x04, 0x05])
        }),
        ("ab1203".to_string(), false)
    );
    assert_eq!(
        name(Head::Named {
            shorthand: "HEAD".to_string(),
            commit: None
        }),
        ("HEAD".to_string(), false)
    );
    assert_eq!(name(Head::Unnamed), ("HEAD".to_string(), false));
    assert_eq!(name(Head::Bare), ("master".to_string(), false));
    assert_eq!(name(Head::Unborn), ("master".to_string(), false));
    assert_eq!(name(Head::Missing), ("HEAD".to_string(), false));
}

#[test]
fn ahead_behind_and_stashes() {
    let mut stats = Stats::default();
    stats.read_ahead_behind(3, 65536 + 7);
    assert_eq!((stats.ahead, stats.behind), (3, 7));
    stats.read_ahead_behind(65535, 0);
    assert_eq!((stats.ahead, stats.behind), (65535, 0));
    stats.record_stash();
    stats.record_stash();
    assert_eq!(stats.stashes, 2);
}

use gitlog::gitlog::{
    branch_tips, branches_at, commit_details, current_branch, failure_message, file_sizes,
    head_files, head_info, head_message, is_count, is_pushed, name_status, numstat_path, remotes,
    rm_cached_path, run_git, stage_path, unstage_path, untracked_files, worktree_changes, Action,
    Commit,
};
use gitlog::log::{log_args, LogParser};

const H1: &str = "1111111111111111111111111111111111111111";
const H2: &str = "2222222222222222222222222222222222222222";
const H3: &str = "3333333333333333333333333333333333333333";

/// What `git log -M --raw --numstat --pretty=format:<record>` prints for a
/// repository with an add, a modify + delete, and a rename commit.
fn fixture_log() -> String {
    let mut s = String::new();
    s.push_str(&format!(
        "\u{1}3333333\u{1f}{H3}\u{1f}Tester <t@t.t>\u{1f}Tester <t@t.t>\u{1f}1736140300\u{1f}third commit: rename b -> b2\u{1f}third commit: rename b -> b2\n"
    ));
    s.push_str("\n");
    s.push_str(":100644 100644 587be6b 587be6b R100\tb.txt\tb2.txt\n");
    s.push_str("0\t0\tb.txt => b2.txt\n");
    s.push_str("\n");
    s.push_str(&format!(
        "\u{1}2222222\u{1f}{H2}\u{1f}Tester <t@t.t>\u{1f}Tester <t@t.t>\u{1f}1736140200\u{1f}second commit\u{1f}second commit\n"
    ));
    s.push_str("\n");
    s.push_str(":100644 100644 c0d0fb4 83db48f M\ta.txt\n");
    s.push_str(":100644 000000 9b3b4f2 0000000 D\td.txt\n");
    s.push_str("1\t0\ta.txt\n");
    s.push_str("0\t1\td.txt\n");
    s.push_str("\n");
    s.push_str(&format!(
        "\u{1}1111111\u{1f}{H1}\u{1f}Tester <t@t.t>\u{1f}Tester <t@t.t>\u{1f}1736140100\u{1f}first commit\u{1f}first commit\n"
    ));
    s.push_str("\n");
    s.push_str("body of first commit\n");
    s.push_str("\n");
    s.push_str(":000000 100644 0000000 c0d0fb4 A\ta.txt\n");
    s.push_str(":000000 100644 0000000 587be6b A\tb.txt\n");
    s.push_str(":000000 100644 0000000 9b3b4f2 A\td.txt\n");
    s.push_str("2\t0\ta.txt\n");
    s.push_str("1\t0\tb.txt\n");
    s.push_str("1\t0\td.txt");
    s
}

fn tips_output() -> String {
    format!(
        "refs/heads/main\u{1}{H3}\u{1}main\n\
         refs/remotes/github/main\u{1}{H2}\u{1}github/main\n\
         refs/remotes/origin/HEAD\u{1}{H3}\u{1}origin\n\
         refs/remotes/origin/main\u{1}{H3}\u{1}origin/main\n"
    )
}

fn read_log(tips: &str, log: &str) -> Vec<Commit> {
    let mut p = LogParser::new(tips);
    let mut commits = Vec::new();
    for line in log.split_inclusive('\n') {
        let out = p.feed(line);
        if let Some(c) = out.commit {
            commits.push(c);
        }
    }
    if let Some(c) = p.finish() {
        commits.push(c);
    }
    commits
}

#[test]
fn parses_commits() {
    let tips_main_only = format!("refs/heads/main\u{1}{H3}\u{1}main\n");
    let commits = read_log(&tips_main_only, &fixture_log());

    assert_eq!(commits.len(), 3);

    // newest first: the rename commit, tip of main -> marked with the branch
    let c = &commits[0];
    assert_eq!(c.branches, vec!["main"]);
    assert_eq!(c.subject, "third commit: rename b -> b2");
    assert_eq!(c.author, "Tester <t@t.t>");
    assert_eq!(c.committer, "Tester <t@t.t>");
    assert_eq!(c.files.len(), 1);
    assert_eq!(c.files[0].name, "b.txt => b2.txt");
    assert_eq!(c.files[0].action, Action::Renamed);
    assert_eq!(c.files[0].added, Some(0));
    assert_eq!(c.files[0].deleted, Some(0));
    assert!(c.timestamp > 0); // committer time, not a formatted string

    // second commit: modify + delete, not at any branch tip
    let c = &commits[1];
    assert!(c.branches.is_empty());
    assert_eq!(c.subject, "second commit");
    assert_eq!(c.message, "second commit");
    assert_eq!(c.files.len(), 2);
    let a = c.files.iter().find(|f| f.name == "a.txt").unwrap();
    assert_eq!(a.action, Action::Modified);
    assert_eq!(a.added, Some(1));
    assert_eq!(a.deleted, Some(0));
    let d = c.files.iter().find(|f| f.name == "d.txt").unwrap();
    assert_eq!(d.action, Action::Deleted);
    assert_eq!(d.added, Some(0));
    assert_eq!(d.deleted, Some(1));

    // first commit: three adds, message with body
    let c = &commits[2];
    assert_eq!(c.subject, "first commit");
    assert_eq!(c.message, "first commit\n\nbody of first commit");
    assert_eq!(c.files.len(), 3);
    assert!(c.files.iter().all(|f| f.action == Action::Added));
    let a = c.files.iter().find(|f| f.name == "a.txt").unwrap();
    assert_eq!(a.added, Some(2));

    // file sizes at the newest commit (`git ls-tree -r -l`)
    let sizes = file_sizes(
        "100644 blob c0d0fb45c382919737f8d0c20aaf57cf89b74af8      18\ta.txt\n\
         100644 blob 587be6b4c3f93f93c489c0111bba5596147a26cb       2\tb2.txt\n",
    );
    let size = |p: &str| sizes.iter().find(|(q, _)| q == p).map(|(_, n)| *n);
    assert_eq!(size("b2.txt"), Some(2));
    assert_eq!(size("a.txt"), Some(18));

    // branch tips: local branch first, then remote-tracking branches; the
    // remote HEAD symref ("origin") is not a branch tip
    let tips = branch_tips(&tips_output());
    let at = |h: &str| tips.iter().find(|(k, _)| k == h).map(|(_, v)| v.clone());
    assert_eq!(at(H3), Some(vec!["main".to_string(), "origin/main".to_string()]));
    assert_eq!(at(H2), Some(vec!["github/main".to_string()]));
    assert!(!tips.iter().flat_map(|(_, v)| v.iter()).any(|b| b == "origin"));
}

#[test]
fn commits_carry_all_their_branch_tips() {
    let commits = read_log(&tips_output(), &fixture_log());
    assert_eq!(commits[0].branches, vec!["main", "origin/main"]);
    assert_eq!(commits[1].branches, vec!["github/main"]);
    assert!(commits[2].branches.is_empty());
    assert_eq!(commits[0].hash, "3333333");
    assert_eq!(commits[0].full_hash, H3);
    assert_eq!(commits[2].timestamp, 1736140100);
}

#[test]
fn record_lines_are_reported_and_end_the_previous_commit() {
    let mut p = LogParser::new("");
    let out = p.feed("\u{1}aaa\u{1f}A\u{1f}x <x@x>\u{1f}y <y@y>\u{1f}12\u{1f}subject\u{1f}subject\n");
    assert!(out.record_start);
    assert!(out.commit.is_none());
    let out = p.feed("more text\r\n");
    assert!(!out.record_start);
    assert!(out.commit.is_none());
    let out = p.feed("\u{1}bbb\u{1f}B\u{1f}x <x@x>\u{1f}x <x@x>\u{1f}not-a-number\u{1f}s2\u{1f}s2\n");
    assert!(out.record_start);
    let c = out.commit.expect("first commit ends at the second record");
    assert_eq!(c.hash, "aaa");
    assert_eq!(c.message, "subject\nmore text");
    assert_eq!(c.timestamp, 12);
    let last = p.finish().expect("second commit at the end");
    assert_eq!(last.hash, "bbb");
    assert_eq!(last.timestamp, 0); // unparsable timestamp
    assert_eq!(last.committer, "x <x@x>");
    assert!(p.finish().is_none());
}

#[test]
fn lines_before_the_first_record_and_short_records_are_ignored() {
    let mut p = LogParser::new("");
    assert!(p.feed("stray line\n").commit.is_none());
    assert!(p.feed("1\t2\tfile\n").commit.is_none());
    // fewer than seven fields: no commit starts
    let out = p.feed("\u{1}only\u{1f}three\u{1f}fields\n");
    assert!(out.record_start);
    assert!(out.commit.is_none());
    assert!(p.feed("text\n").commit.is_none());
    assert!(p.finish().is_none());
}

#[test]
fn numstat_without_raw_line_is_modified_and_binary_counts_are_none() {
    let mut p = LogParser::new("");
    p.feed("\u{1}h\u{1f}H\u{1f}a\u{1f}c\u{1f}1\u{1f}s\u{1f}s\n");
    p.feed("-\t-\timage.png\n");
    p.feed("3\t1\tsrc/x.rs\n");
    p.feed(":100644 100644 1 2 A\tnew.txt\n");
    p.feed("0\t0\tnew.txt\n");
    let c = p.finish().unwrap();
    assert_eq!(c.files.len(), 3);
    assert_eq!(c.files[0].name, "image.png");
    assert_eq!(c.files[0].added, None);
    assert_eq!(c.files[0].deleted, None);
    assert_eq!(c.files[0].action, Action::Modified);
    assert_eq!(c.files[1].added, Some(3));
    assert_eq!(c.files[1].deleted, Some(1));
    assert_eq!(c.files[2].action, Action::Added);
}

#[test]
fn log_arguments() {
    let args = log_args();
    assert_eq!(args[2], "log");
    assert_eq!(args.len(), 7);
    assert_eq!(
        args[6],
        "--pretty=format:\u{1}%h\u{1f}%H\u{1f}%an <%ae>\u{1f}%cn <%ce>\u{1f}%ct\u{1f}%s\u{1f}%B"
    );
}

#[test]
fn branches_at_a_commit() {
    let tips = branch_tips(&tips_output());
    assert_eq!(branches_at(&tips, H3), vec!["main", "origin/main"]);
    assert!(branches_at(&tips, H1).is_empty());
    // malformed lines are skipped, hashes are trimmed
    let tips = branch_tips("garbage\nrefs/heads/x\u{1} abc \u{1}x\n");
    assert_eq!(branches_at(&tips, "abc"), vec!["x"]);
}

#[test]
fn worktree_changes_and_head() {
    // HEAD (rename commit): a.txt (3 lines), b2.txt
    // working-copy changes: a.txt +1 line (staged), b2.txt deleted
    // (unstaged), new.txt untracked
    let numstat = "1\t0\ta.txt\n0\t1\tb2.txt\n";
    let cached = "M\ta.txt\n";
    let changed = "M\ta.txt\nD\tb2.txt\n";
    let status = "M  a.txt\n D b2.txt\n?? new.txt\n";
    let files = worktree_changes(numstat, cached, changed, status);
    let by_name = |name: &str| {
        files
            .iter()
            .find(|f| f.path == name)
            .unwrap_or_else(|| panic!("{name} not in worktree_changes: {files:?}"))
    };
    assert_eq!(files.len(), 3);
    let a = by_name("a.txt");
    assert_eq!(a.action, Action::Modified);
    assert_eq!(a.added, Some(1));
    assert_eq!(a.deleted, Some(0));
    assert!(a.staged);
    assert!(a.in_head);
    let b = by_name("b2.txt");
    assert_eq!(b.action, Action::Deleted);
    assert!(!b.staged);
    assert!(b.in_head);
    let n = by_name("new.txt");
    assert_eq!(n.action, Action::Added);
    assert_eq!((n.added, n.deleted), (None, None)); // no diff for untracked
    assert!(!n.staged);
    assert!(!n.in_head);

    // previous commit: the rename, shown as "old => new" with the new path
    let show = "R100\tb.txt\tb2.txt\n0\t0\tb.txt => b2.txt\n";
    let head = head_files(true, show).expect("head_files");
    assert_eq!(head.len(), 1);
    assert_eq!(head[0].path, "b2.txt");
    assert_eq!(head[0].display_name, "b.txt => b2.txt");
    assert_eq!(head[0].action, Action::Renamed);
    assert!(head[0].staged);
    assert!(head[0].in_head);
    assert_eq!(head[0].added, Some(0));

    assert_eq!(
        head_message(true, "third commit: rename b -> b2\n\n"),
        Some("third commit: rename b -> b2".to_string())
    );
}

#[test]
fn head_files_without_a_commit() {
    assert!(head_files(false, "A\tx\n").is_none());
    assert!(head_message(false, "msg\n").is_none());
    let none = head_files(true, "").unwrap();
    assert!(none.is_empty());
}

#[test]
fn head_files_counts_and_copies() {
    let show = "A\ta.txt\nC75\tsrc.rs\tcopy.rs\nT\tlink\nX\tunknown\n5\t0\ta.txt\n-\t-\tlink\n";
    let head = head_files(true, show).unwrap();
    assert_eq!(head.len(), 3);
    assert_eq!(head[0].added, Some(5));
    assert_eq!(head[0].action, Action::Added);
    assert_eq!(head[1].action, Action::Added);
    assert_eq!(head[1].display_name, "src.rs => copy.rs");
    assert_eq!(head[1].added, None);
    assert_eq!(head[2].action, Action::Modified);
    assert_eq!(head[2].added, None);
}

#[test]
fn amend_commit_flow() {
    // amend the rename commit: keep a.txt (modified in the work tree),
    // drop b2.txt -> it must leave the commit and stay in the work tree
    assert_eq!(rm_cached_path("b2.txt"), vec!["rm", "-q", "-r", "--cached", "--", "b2.txt"]);
    assert_eq!(stage_path("a.txt"), vec!["add", "-A", "--", "a.txt"]);

    // the amended commit (as `git show` lists it) no longer contains b2.txt
    let show = "M\ta.txt\n1\t0\ta.txt\n";
    let head = head_files(true, show).expect("head_files after amend");
    assert!(!head.iter().any(|f| f.path == "b2.txt"));
    let a = head.iter().find(|f| f.path == "a.txt").expect("a.txt in amended commit");
    assert_eq!(a.action, Action::Modified);
    assert_eq!(a.added, Some(1));
    // b2.txt stays in the work tree as an untracked file
    assert!(untracked_files("?? b2.txt\n").contains(&"b2.txt".to_string()));
    assert_eq!(head_message(true, "amended message\n\n"), Some("amended message".to_string()));
}

#[test]
fn remotes_and_push() {
    assert_eq!(remotes("origin\n"), vec!["origin".to_string()]);
    // normal push
    assert!(run_git(true, "").is_ok());
    // a remote that is ahead rejects a non-force push
    let err = run_git(
        false,
        "To /tmp/origin\n ! [rejected]        main -> main (non-fast-forward)\nerror: failed to push some refs\n",
    )
    .unwrap_err();
    assert!(err.starts_with("To /tmp/origin"));
    assert!(err.ends_with("failed to push some refs"));
    // a second remote is listed too (`git remote` is alphabetical)
    assert_eq!(remotes("backup\norigin\n"), vec!["backup".to_string(), "origin".to_string()]);
    // blank lines and surrounding spaces are dropped
    assert_eq!(remotes("\n  upstream \r\n\n"), vec!["upstream".to_string()]);
}

#[test]
fn failed_git_command_texts() {
    assert_eq!(run_git(false, "  \n").unwrap_err(), "git command failed");
    assert_eq!(failure_message("", "git commit --amend failed"), "git commit --amend failed");
    assert_eq!(failure_message("  fatal: bad\n", "x"), "fatal: bad");
    assert_eq!(unstage_path("a b.txt"), vec!["restore", "--staged", "--", "a b.txt"]);
}

#[test]
fn commit_details_fields() {
    let out = "Ann Author\0ann@a.io\02026-01-02 03:04:05\0Carl Committer\0carl@c.io\02026-01-03 04:05:06\0hello\n\nbody\n";
    let d = commit_details(true, out, "").unwrap();
    assert_eq!(d.author, "Ann Author");
    assert_eq!(d.author_email, "ann@a.io");
    assert_eq!(d.author_date, "2026-01-02 03:04:05");
    assert_eq!(d.committer, "Carl Committer");
    assert_eq!(d.committer_email, "carl@c.io");
    assert_eq!(d.committer_date, "2026-01-03 04:05:06");
    assert_eq!(d.message, "hello\n\nbody");

    // unknown hash is an error
    let e = commit_details(
        false,
        "",
        "fatal: ambiguous argument 'deadbeef': unknown revision or path not in the working tree.\n",
    );
    assert!(e.is_err());
    assert!(e.err().unwrap().starts_with("fatal: ambiguous argument"));
}

#[test]
fn commit_details_needs_seven_fields() {
    let e = commit_details(true, "a\0b\0c", "").err().unwrap();
    assert_eq!(e, "unexpected git output");
    assert_eq!(commit_details(false, "", "").err().unwrap(), "git command failed");
}

#[test]
fn is_pushed_check() {
    // no remotes configured: nothing is pushed
    assert!(!is_pushed(true, ""));
    // the whole pushed history is reachable from origin/main
    assert!(is_pushed(true, "  origin/main\n"));
    // git failed (e.g. unknown commit)
    assert!(!is_pushed(false, "  origin/main\n"));
}

#[test]
fn branch_and_head_texts() {
    assert_eq!(current_branch(Some("main\n")), "main");
    assert_eq!(current_branch(Some("\n")), "");
    assert_eq!(current_branch(None), "");
    assert_eq!(head_info("main", None), "main");
    assert_eq!(head_info("", Some("5f5d34f\n")), "(detached @ 5f5d34f)");
    assert_eq!(head_info("", None), "(detached @ ?)");
}

#[test]
fn name_status_entries() {
    let e = name_status("M\ta.txt\nR087\told name.txt\tnew name.txt\nD\tgone\nC100\ta\tb\nbad line\n");
    assert_eq!(e.len(), 4);
    assert_eq!(e[0], ("a.txt".to_string(), Action::Modified, "a.txt".to_string()));
    assert_eq!(
        e[1],
        ("new name.txt".to_string(), Action::Renamed, "old name.txt => new name.txt".to_string())
    );
    assert_eq!(e[2].1, Action::Deleted);
    assert_eq!(e[3], ("b".to_string(), Action::Added, "a => b".to_string()));
}

#[test]
fn numstat_helpers() {
    assert!(is_count("12"));
    assert!(is_count("-"));
    assert!(!is_count(""));
    assert!(!is_count("M"));
    assert_eq!(numstat_path("b.txt => b2.txt"), "b2.txt");
    assert_eq!(numstat_path(" plain.txt "), "plain.txt");
    assert_eq!(numstat_path("a=>b=>c"), "c");
}

#[test]
fn untracked_and_sizes_edge_cases() {
    assert_eq!(untracked_files("?? a\n M b\n?? dir/c d\n??x\n"), vec!["a", "dir/c d"]);
    let sizes = file_sizes("100644 blob abc -\tsub\n160000 commit def       7\tmod\nno tab here\n");
    assert_eq!(sizes, vec![("mod".to_string(), 7)]);
}

#[test]
fn message_lines_starting_with_a_colon_are_kept() {
    let mut p = LogParser::new("");
    p.feed("\u{1}h\u{1f}H\u{1f}a\u{1f}c\u{1f}1\u{1f}fix\u{1f}fix\n");
    p.feed("\n");
    p.feed(":note: keep this\n");
    p.feed(":also\tnot a raw line\n");
    p.feed("\n");
    p.feed(":100644 100644 1111111 2222222 M\ta.txt\n");
    p.feed("1\t0\ta.txt\n");
    let c = p.finish().unwrap();
    assert_eq!(c.message, "fix\n\n:note: keep this\n:also\tnot a raw line");
    assert_eq!(c.files.len(), 1);
    assert_eq!(c.files[0].action, Action::Modified);
}

#[test]
fn a_stopped_reader_gives_no_further_commit() {
    let mut p = LogParser::new("");
    p.feed("\u{1}a\u{1f}A\u{1f}x\u{1f}x\u{1f}1\u{1f}one\u{1f}one\n");
    let out = p.feed("\u{1}b\u{1f}B\u{1f}x\u{1f}x\u{1f}2\u{1f}two\u{1f}two\n");
    assert!(out.record_start);
    assert_eq!(out.commit.unwrap().hash, "a");
    // the receiver took the commit, but the load was cancelled
    assert!(!p.record_done(true, true));
    assert!(p.finish().is_none());

    let mut p = LogParser::new("");
    p.feed("\u{1}a\u{1f}A\u{1f}x\u{1f}x\u{1f}1\u{1f}one\u{1f}one\n");
    assert!(p.record_done(true, false));
    assert_eq!(p.finish().unwrap().hash, "a");
    // the receiver is gone
    let mut p = LogParser::new("");
    p.feed("\u{1}a\u{1f}A\u{1f}x\u{1f}x\u{1f}1\u{1f}one\u{1f}one\n");
    assert!(!p.record_done(false, false));
    assert!(p.finish().is_none());
}

#[test]
fn renames_inside_a_directory() {
    assert_eq!(numstat_path("src/{a.rs => b.rs}"), "src/b.rs");
    assert_eq!(numstat_path("{old => new}/x.txt"), "new/x.txt");
    assert_eq!(numstat_path("a/{ => b}/c"), "a/b/c");
    assert_eq!(numstat_path("a/{b => }/c"), "a/c");
    assert_eq!(numstat_path("a.txt"), "a.txt");
    // `git mv src/a.rs src/b.rs`, content unchanged
    let files = worktree_changes(
        "0\t0\tsrc/{a.rs => b.rs}\n",
        "R100\tsrc/a.rs\tsrc/b.rs\n",
        "R100\tsrc/a.rs\tsrc/b.rs\n",
        "R  src/a.rs -> src/b.rs\n",
    );
    assert_eq!(files.len(), 1);
    let f = &files[0];
    assert_eq!(f.path, "src/b.rs");
    assert_eq!(f.display_name, "src/a.rs => src/b.rs");
    assert_eq!(f.action, Action::Renamed);
    assert_eq!((f.added, f.deleted), (Some(0), Some(0)));
    assert!(f.staged && f.in_head);
}

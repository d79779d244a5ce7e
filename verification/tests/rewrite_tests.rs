use gitlog::gitlog::CommitDetails;
use gitlog::rewrite::{GitCommand, GitEvent, Next, Rewrite};

fn ok(stdout: &str) -> GitEvent {
    GitEvent::Exited { success: true, stdout: stdout.to_string(), stderr: String::new() }
}

fn failed(stderr: &str) -> GitEvent {
    GitEvent::Exited { success: false, stdout: String::new(), stderr: stderr.to_string() }
}

fn args(c: &GitCommand) -> Vec<&str> {
    c.args.iter().map(String::as_str).collect()
}

fn env(c: &GitCommand) -> Vec<(&str, &str)> {
    c.env.iter().map(|(k, v)| (k.as_str(), v.as_str())).collect()
}

/// Starts a rewrite and hands it the outcomes in turn: the commands it
/// asked for, and its result once it finished.
fn drive(hash: &str, d: &CommitDetails, events: Vec<GitEvent>) -> (Vec<GitCommand>, Option<Result<(), String>>) {
    let (mut rw, first) = Rewrite::start(hash, d);
    let mut commands = vec![first];
    for ev in events {
        match rw.advance(ev) {
            Next::Run(c) => commands.push(c),
            Next::Finished(r) => return (commands, Some(r)),
        }
    }
    (commands, None)
}

fn details(message: &str) -> CommitDetails {
    CommitDetails {
        author: "New Author".into(),
        author_email: "na@x.io".into(),
        author_date: "2026-01-01 02:03:04".into(),
        committer: "New Committer".into(),
        committer_email: "nc@x.io".into(),
        committer_date: "2026-01-02 03:04:05".into(),
        message: message.into(),
    }
}

const H1: &str = "1111111111111111111111111111111111111111";
const H2: &str = "2222222222222222222222222222222222222222";
const H3: &str = "3333333333333333333333333333333333333333";
const T1: &str = "a1a1a1a1a1a1a1a1a1a1a1a1a1a1a1a1a1a1a1a1";
const T2: &str = "b2b2b2b2b2b2b2b2b2b2b2b2b2b2b2b2b2b2b2b2";
const T3: &str = "c3c3c3c3c3c3c3c3c3c3c3c3c3c3c3c3c3c3c3c3";
const N1: &str = "9999999999999999999999999999999999999991";
const N2: &str = "9999999999999999999999999999999999999992";
const N3: &str = "9999999999999999999999999999999999999993";
const N4: &str = "9999999999999999999999999999999999999994";

const REASON: &str = "gitrebase: edit commit details";

#[test]
fn edit_head_commit_amend() {
    let d = details("rewritten\n\nbody");

    // a dirty work tree is refused
    let (cmds, r) = drive("HEAD", &d, vec![ok(" M a.txt\n")]);
    assert_eq!(args(&cmds[0]), ["status", "--porcelain"]);
    let err = r.unwrap().unwrap_err();
    assert!(err.contains("uncommitted changes"), "got: {err}");

    // clean: HEAD is resolved, found to be the checked-out tip and amended
    let (cmds, r) = drive("HEAD", &d, vec![ok(""), ok(&format!("{H1}\n")), ok(&format!("{H1}\n")), ok("")]);
    assert_eq!(r, Some(Ok(())));
    assert_eq!(cmds.len(), 4);
    assert_eq!(args(&cmds[1]), ["rev-parse", "-q", "--verify", "HEAD^{commit}"]);
    assert_eq!(args(&cmds[2]), ["rev-parse", "-q", "HEAD"]);
    assert_eq!(
        args(&cmds[3]),
        [
            "commit",
            "--amend",
            "-m",
            "rewritten\n\nbody",
            "--author",
            "New Author <na@x.io>",
            "--date",
            "2026-01-01 02:03:04"
        ]
    );
    assert_eq!(
        env(&cmds[3]),
        [
            ("GIT_COMMITTER_NAME", "New Committer"),
            ("GIT_COMMITTER_EMAIL", "nc@x.io"),
            ("GIT_COMMITTER_DATE", "2026-01-02 03:04:05")
        ]
    );
    assert!(cmds[3].stdin.is_none());
}

#[test]
fn edit_middle_commit_rebase() {
    // first <- second <- third (main); the middle commit is edited
    let d = details("second (rewritten)");
    let fields3 = format!("{T3}\0{H2}\0Tester\0t@t.t\01736140300 +0100\0Tester\0t@t.t\01736140300 +0100\n");
    let (cmds, r) = drive(
        H2,
        &d,
        vec![
            ok(""),
            ok(&format!("{H2}\n")),
            ok(&format!("{H3}\n")), ok(""),
            ok(&format!("{T2}\n")),
            ok(&format!("{H1}\n")),
            ok(&format!("{N2}\n")),
            ok(&format!("{H3}\n")),
            ok(&fields3),
            ok("third\n\n"),
            ok(&format!("{N3}\n")),
            ok("refs/heads/main\n"),
            ok(&format!("refs/heads/main\0{H3}\n")),
            ok(""),
        ],
    );
    assert_eq!(r, Some(Ok(())));
    assert_eq!(cmds.len(), 14);
    // the commit is checked to be an ancestor of HEAD before anything is written
    assert_eq!(args(&cmds[3]), ["merge-base", "--is-ancestor", H2, H3]);
    assert_eq!(args(&cmds[4]), ["rev-parse", "-q", "--verify", format!("{H2}^{{tree}}").as_str()]);
    assert_eq!(
        args(&cmds[8]),
        [
            "log",
            "-1",
            "--date=raw",
            "--format=%T%x00%P%x00%an%x00%ae%x00%ad%x00%cn%x00%ce%x00%cd",
            H3
        ]
    );
    assert_eq!(args(&cmds[5]), ["log", "-1", "--format=%P", H2]);
    // the edited commit: same tree and parent, the new details
    assert_eq!(args(&cmds[6]), ["commit-tree", T2, "-p", H1, "-m", "second (rewritten)"]);
    assert_eq!(
        env(&cmds[6]),
        [
            ("GIT_AUTHOR_NAME", "New Author"),
            ("GIT_AUTHOR_EMAIL", "na@x.io"),
            ("GIT_AUTHOR_DATE", "2026-01-01 02:03:04"),
            ("GIT_COMMITTER_NAME", "New Committer"),
            ("GIT_COMMITTER_EMAIL", "nc@x.io"),
            ("GIT_COMMITTER_DATE", "2026-01-02 03:04:05")
        ]
    );
    assert_eq!(args(&cmds[7]), ["rev-list", "--topo-order", "--reverse", format!("{H2}..{H3}").as_str()]);
    // the top commit keeps its identity and message, its parent is the
    // re-created middle commit
    assert_eq!(args(&cmds[10]), ["commit-tree", T3, "-p", N2]);
    assert_eq!(
        env(&cmds[10]),
        [
            ("GIT_AUTHOR_NAME", "Tester"),
            ("GIT_AUTHOR_EMAIL", "t@t.t"),
            ("GIT_AUTHOR_DATE", "1736140300 +0100"),
            ("GIT_COMMITTER_NAME", "Tester"),
            ("GIT_COMMITTER_EMAIL", "t@t.t"),
            ("GIT_COMMITTER_DATE", "1736140300 +0100")
        ]
    );
    assert_eq!(cmds[10].stdin.as_deref(), Some("third\n"));
    // main moves to the new tip, guarded by the old one
    assert_eq!(args(&cmds[13]), ["update-ref", "-m", REASON, "refs/heads/main", N3, H3]);
}

#[test]
fn edit_preserves_descendant_committers() {
    let d = details("first (rewritten)");
    let fields2 = format!(
        "{T2}\0{H1}\0Old Author\0old-author@o.io\01767503167\0Old Committer\0old@o.io\01767589628\n"
    );
    let (cmds, r) = drive(
        H1,
        &d,
        vec![
            ok(""),
            ok(&format!("{H1}\n")),
            ok(&format!("{H2}\n")), ok(""),
            ok(&format!("{T1}\n")),
            ok("\n"),
            ok(&format!("{N1}\n")),
            ok(&format!("{H2}\n")),
            ok(&fields2),
            ok("second\n\n"),
            ok(&format!("{N2}\n")),
            ok("refs/heads/main\n"),
            ok(&format!("refs/heads/main\0{H2}\n")),
            ok(""),
        ],
    );
    assert_eq!(r, Some(Ok(())));
    // the descendant is untouched: same committer (name, email and date)
    // and author, only the parent differs
    assert_eq!(args(&cmds[10]), ["commit-tree", T2, "-p", N1]);
    assert_eq!(
        env(&cmds[10]),
        [
            ("GIT_AUTHOR_NAME", "Old Author"),
            ("GIT_AUTHOR_EMAIL", "old-author@o.io"),
            ("GIT_AUTHOR_DATE", "1767503167"),
            ("GIT_COMMITTER_NAME", "Old Committer"),
            ("GIT_COMMITTER_EMAIL", "old@o.io"),
            ("GIT_COMMITTER_DATE", "1767589628")
        ]
    );
    assert_eq!(cmds[10].stdin.as_deref(), Some("second\n"));
    assert_eq!(args(&cmds[13]), ["update-ref", "-m", REASON, "refs/heads/main", N2, H2]);
}

#[test]
fn edit_with_merge_descendant() {
    // first <- second <- merged (main), first <- side work (side) <- merged
    const S: &str = "5555555555555555555555555555555555555555";
    const M: &str = "6666666666666666666666666666666666666666";
    const TS: &str = "d4d4d4d4d4d4d4d4d4d4d4d4d4d4d4d4d4d4d4d4";
    const TM: &str = "e5e5e5e5e5e5e5e5e5e5e5e5e5e5e5e5e5e5e5e5";
    let d = details("first (rewritten)");
    let (cmds, r) = drive(
        H1,
        &d,
        vec![
            ok(""),
            ok(&format!("{H1}\n")),
            ok(&format!("{M}\n")), ok(""),
            ok(&format!("{T1}\n")),
            ok("\n"),
            ok(&format!("{N1}\n")),
            ok(&format!("{S}\n{H2}\n{M}\n")),
            ok(&format!("{TS}\0{H1}\0Tester\0t@t.t\0100\0Tester\0t@t.t\0100")),
            ok("side work\n\n"),
            ok(&format!("{N2}\n")),
            ok(&format!("{T2}\0{H1}\0Tester\0t@t.t\0200\0Old Committer\0old@o.io\01767589628")),
            ok("second\n\n"),
            ok(&format!("{N3}\n")),
            ok(&format!("{TM}\0{H2} {S}\0Tester\0t@t.t\0300\0Merge Bot\0bot@b.io\01767949872")),
            ok("merged\n\n"),
            ok(&format!("{N4}\n")),
            ok("refs/heads/main\n"),
            ok(&format!("refs/heads/main\0{M}\nrefs/heads/side\0{S}\n")),
            ok(""),
            ok(""),
        ],
    );
    assert_eq!(r, Some(Ok(())));
    // the side commit is re-parented onto the rewritten "first"
    assert_eq!(args(&cmds[10]), ["commit-tree", TS, "-p", N1]);
    assert_eq!(cmds[10].stdin.as_deref(), Some("side work\n"));
    // "second" keeps its committer
    assert_eq!(args(&cmds[13]), ["commit-tree", T2, "-p", N1]);
    assert_eq!(env(&cmds[13])[3], ("GIT_COMMITTER_NAME", "Old Committer"));
    assert_eq!(env(&cmds[13])[5], ("GIT_COMMITTER_DATE", "1767589628"));
    // the merge keeps both parents (re-created), its committer and message
    assert_eq!(args(&cmds[16]), ["commit-tree", TM, "-p", N3, "-p", N2]);
    assert_eq!(env(&cmds[16])[3], ("GIT_COMMITTER_NAME", "Merge Bot"));
    assert_eq!(env(&cmds[16])[4], ("GIT_COMMITTER_EMAIL", "bot@b.io"));
    assert_eq!(cmds[16].stdin.as_deref(), Some("merged\n"));
    // the side branch moves first, the current branch last
    assert_eq!(args(&cmds[19]), ["update-ref", "-m", REASON, "refs/heads/side", N2]);
    assert_eq!(args(&cmds[20]), ["update-ref", "-m", REASON, "refs/heads/main", N4, M]);
}

#[test]
fn edit_root_commit() {
    let d = details("first (rewritten)");
    let (cmds, r) = drive(
        H1,
        &d,
        vec![
            ok(""),
            ok(&format!("{H1}\n")),
            ok(&format!("{H2}\n")), ok(""),
            ok(&format!("{T1}\n")),
            ok("\n"),
            ok(&format!("{N1}\n")),
            ok(&format!("{H2}\n")),
            ok(&format!("{T2}\0{H1}\0Tester\0t@t.t\0200\0Tester\0t@t.t\0200\n")),
            ok("second\n\n"),
            ok(&format!("{N2}\n")),
            ok("refs/heads/main\n"),
            ok(&format!("refs/heads/main\0{H2}\n")),
            ok(""),
        ],
    );
    assert_eq!(r, Some(Ok(())));
    // the root commit has no parent
    assert_eq!(args(&cmds[6]), ["commit-tree", T1, "-m", "first (rewritten)"]);
    assert_eq!(env(&cmds[6])[0], ("GIT_AUTHOR_NAME", "New Author"));
    assert_eq!(args(&cmds[10]), ["commit-tree", T2, "-p", N1]);
    assert_eq!(env(&cmds[10])[0], ("GIT_AUTHOR_NAME", "Tester"));
    assert_eq!(args(&cmds[13]), ["update-ref", "-m", REASON, "refs/heads/main", N2, H2]);
}

#[test]
fn unknown_commit_is_refused() {
    let d = details("x");
    let (_, r) = drive("deadbeef", &d, vec![ok(""), failed("")]);
    assert_eq!(r, Some(Err("commit deadbeef not found".to_string())));
}

#[test]
fn commit_off_the_current_branch_is_refused() {
    let d = details("x");
    let (cmds, r) = drive(
        H1,
        &d,
        vec![
            ok(""),
            ok(&format!("{H1}\n")),
            ok(&format!("{H2}\n")), ok(""),
            ok(&format!("{T1}\n")),
            ok("\n"),
            ok(&format!("{N1}\n")),
            ok(""),
        ],
    );
    assert_eq!(cmds.len(), 8);
    assert_eq!(r, Some(Err("commit is not on the current branch".to_string())));
}

#[test]
fn failures_end_the_rewrite() {
    let d = details("x");
    // git cannot be run
    let (_, r) = drive(H1, &d, vec![GitEvent::SpawnFailed("No such file or directory".into())]);
    assert_eq!(r, Some(Err("No such file or directory".to_string())));
    // git status fails: treated as a dirty tree
    let (_, r) = drive(H1, &d, vec![failed("fatal: not a git repository")]);
    assert_eq!(r, Some(Err("uncommitted changes in the work tree".to_string())));
    // the amend fails without a message
    let (_, r) = drive(H1, &d, vec![ok(""), ok(H1), ok(H1), failed("  ")]);
    assert_eq!(r, Some(Err("git commit --amend failed".to_string())));
    // commit-tree fails with a message
    let (_, r) = drive(
        H1,
        &d,
        vec![ok(""), ok(H1), ok(H2), ok(""), ok(T1), ok(""), failed("fatal: bad tree\n")],
    );
    assert_eq!(r, Some(Err("fatal: bad tree".to_string())));
    // a descendant's fields are not eight
    let (_, r) = drive(
        H1,
        &d,
        vec![ok(""), ok(H1), ok(H2), ok(""), ok(T1), ok(""), ok(N1), ok(H2), ok("a\0b")],
    );
    assert_eq!(r, Some(Err("unexpected git output".to_string())));
}

#[test]
fn detached_head_is_updated_as_head() {
    let d = details("x");
    let (cmds, r) = drive(
        H1,
        &d,
        vec![
            ok(""),
            ok(H1),
            ok(H2), ok(""),
            ok(T1),
            ok(""),
            ok(N1),
            ok(H2),
            ok(&format!("{T2}\0{H1}\0a\0b\0c\0d\0e\0f")),
            ok("m"),
            ok(N2),
            failed(""),
            ok(""),
            ok(""),
        ],
    );
    assert_eq!(r, Some(Ok(())));
    assert_eq!(args(&cmds[13]), ["update-ref", "-m", REASON, "HEAD", N2, H2]);
}

#[test]
fn a_finished_rewrite_runs_nothing_more() {
    let d = details("x");
    let (mut rw, _) = Rewrite::start(H1, &d);
    match rw.advance(ok("?? x\n")) {
        Next::Finished(Err(e)) => assert_eq!(e, "uncommitted changes in the work tree"),
        _ => panic!("a dirty work tree must end the rewrite"),
    }
    match rw.advance(ok("")) {
        Next::Finished(Err(e)) => assert_eq!(e, "the rewrite has ended"),
        _ => panic!("an ended rewrite must not run commands"),
    }
}

#[test]
fn diverged_commit_is_refused() {
    // H2 is on a side branch: neither HEAD (H3) nor an ancestor of it
    let d = details("x");
    let (cmds, r) = drive(
        H2,
        &d,
        vec![ok(""), ok(&format!("{H2}\n")), ok(&format!("{H3}\n")), failed("")],
    );
    assert_eq!(r, Some(Err("commit is not on the current branch".to_string())));
    assert_eq!(cmds.len(), 4);
    assert_eq!(args(&cmds[3]), ["merge-base", "--is-ancestor", H2, H3]);
    // nothing was written: no commit-tree, no update-ref
    assert!(cmds.iter().all(|c| c.args[0] != "commit-tree" && c.args[0] != "update-ref"));
}

#[test]
fn descendant_message_keeps_its_own_trailing_text() {
    // a message stored without a final newline, and one with a blank last line
    let d = details("x");
    for (out, stored) in [("no newline\n", "no newline"), ("body\n\n\n", "body\n\n")] {
        let (cmds, _) = drive(
            H1,
            &d,
            vec![
                ok(""),
                ok(H1),
                ok(H2),
                ok(""),
                ok(T1),
                ok(""),
                ok(N1),
                ok(H2),
                ok(&format!("{T2}\0{H1}\0a\0b\0c\0d\0e\0f")),
                ok(out),
            ],
        );
        assert_eq!(cmds[10].stdin.as_deref(), Some(stored));
    }
}

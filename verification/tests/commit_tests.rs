use gitlog::commit::{amend_files, index_ops, is_blank, CommitRun, IndexOp};
use gitlog::gitlog::{head_files, worktree_changes, Action, WorkFile};
use gitlog::rewrite::{GitEvent, Next};

fn op_text(op: &IndexOp) -> String {
    match op {
        IndexOp::Stage(p) => format!("stage {p}"),
        IndexOp::Unstage(p) => format!("unstage {p}"),
        IndexOp::RmCached(p) => format!("rm-cached {p}"),
    }
}

fn row(path: &str, checked: bool, in_head: bool, staged: bool) -> (String, bool, bool, bool) {
    (path.to_string(), checked, in_head, staged)
}

fn work(path: &str, display: &str, action: Action, staged: bool, in_head: bool) -> WorkFile {
    WorkFile {
        path: path.to_string(),
        display_name: display.to_string(),
        action,
        added: Some(1),
        deleted: Some(2),
        staged,
        in_head,
    }
}

#[test]
fn amend_files_merges_head_and_worktree() {
    // previous commit: a.txt (2 lines), b.txt (1 line)
    let head = head_files(true, "A\ta.txt\nA\tb.txt\n2\t0\ta.txt\n1\t0\tb.txt\n");
    // working copy: a.txt +1 line, new.txt untracked
    let wt = worktree_changes("1\t0\ta.txt\n", "", "M\ta.txt\n", " M a.txt\n?? new.txt\n");

    let files = amend_files(head, &wt);
    assert_eq!(files.len(), 3);
    // a file in HEAD that changed in the work tree: merged, keeps in_head
    let a = files.iter().find(|f| f.path == "a.txt").expect("a.txt");
    assert_eq!(a.action, Action::Modified);
    assert_eq!(a.added, Some(1));
    assert!(a.in_head);
    // unchanged file from HEAD
    let b = files.iter().find(|f| f.path == "b.txt").expect("b.txt");
    assert_eq!(b.action, Action::Added);
    assert!(b.in_head);
    // untracked work tree file
    let n = files.iter().find(|f| f.path == "new.txt").expect("new.txt");
    assert!(!n.in_head);
}

#[test]
fn amend_files_merges_rename_of_head_file() {
    let head = head_files(true, "A\tx.txt\n1\t0\tx.txt\n");
    // rename after the commit: must show as a single "old => new" row,
    // not as a head row for the old path plus a rename row
    let wt = worktree_changes(
        "0\t0\tx.txt => y.txt\n",
        "R100\tx.txt\ty.txt\n",
        "R100\tx.txt\ty.txt\n",
        "R  x.txt -> y.txt\n",
    );
    let files = amend_files(head, &wt);
    assert_eq!(files.len(), 1);
    let r = &files[0];
    assert_eq!(r.path, "y.txt");
    assert_eq!(r.display_name, "x.txt => y.txt");
    assert_eq!(r.action, Action::Renamed);
    assert!(r.in_head);
}

#[test]
fn amend_rename_commit_flow() {
    // the previous commit added x.txt on top of z.txt; x.txt is then renamed
    let head = head_files(true, "A\tx.txt\n1\t0\tx.txt\n");
    let wt = worktree_changes(
        "0\t0\tx.txt => y.txt\n",
        "R100\tx.txt\ty.txt\n",
        "R100\tx.txt\ty.txt\n",
        "R  x.txt -> y.txt\n",
    );
    // the single merged row is checked; committing stages the new path
    // only, never the old one
    let files = amend_files(head, &wt);
    assert_eq!(files.len(), 1);
    let ops = index_ops(&vec![(files[0].path.clone(), true, files[0].in_head, files[0].staged)], true);
    assert_eq!(ops.iter().map(op_text).collect::<Vec<_>>(), ["stage y.txt"]);
    let rows = vec![(files[0].path.clone(), true, files[0].in_head, files[0].staged)];
    let (commands, result) = run_commit(&rows, true, "amended with rename", vec![ok(), ok()]);
    assert_eq!(result, Some(Ok(())));
    assert_eq!(
        commands,
        [vec!["add", "-A", "--", "y.txt"], vec!["commit", "--amend", "-m", "amended with rename"]]
    );
    // the amended commit as `git show` lists it afterwards: relative to
    // the parent the file is a plain add (no rename to show)
    let head = head_files(true, "A\ty.txt\n1\t0\ty.txt\n").expect("head_files after amend");
    assert_eq!(head.len(), 1);
    assert_eq!(head[0].path, "y.txt");
    assert_eq!(head[0].action, Action::Added);
}

#[test]
fn amend_without_commit_or_changes() {
    assert!(amend_files(None, &Vec::new()).is_empty());
    let wt = vec![work("n.txt", "n.txt", Action::Added, false, false)];
    let files = amend_files(None, &wt);
    assert_eq!(files.len(), 1);
    assert_eq!(files[0].path, "n.txt");
    // no work-tree change: exactly the previous commit's files
    let head = head_files(true, "M\ta\nD\tb\n").unwrap();
    let files = amend_files(Some(head), &Vec::new());
    assert_eq!(files.len(), 2);
    assert_eq!(files[1].action, Action::Deleted);
    assert!(files.iter().all(|f| f.staged && f.in_head));
}

#[test]
fn amend_keeps_flags_of_head_rows() {
    let head = vec![
        work("a", "a", Action::Added, true, true),
        work("b", "b", Action::Modified, false, true),
    ];
    let wt = vec![
        work("b", "b", Action::Deleted, true, true),
        work("c", "a => c", Action::Renamed, true, true),
        work("d", "d", Action::Added, false, false),
    ];
    let files = amend_files(Some(head), &wt);
    assert_eq!(files.len(), 3);
    // b updated in place, keeping its (unstaged) flag
    assert_eq!(files[1].path, "b");
    assert_eq!(files[1].action, Action::Deleted);
    assert!(!files[1].staged);
    // the rename took over the row of its old path
    assert_eq!(files[0].path, "c");
    assert_eq!(files[0].display_name, "a => c");
    assert!(files[0].staged && files[0].in_head);
    // the new file comes last with its own flags
    assert_eq!(files[2].path, "d");
    assert!(!files[2].in_head);
}

#[test]
fn amending_drops_unchecked_head_files() {
    let rows = vec![
        row("kept.txt", true, true, true),
        row("dropped.txt", false, true, true),
        row("new.txt", true, false, false),
        row("ignored.txt", false, false, false),
    ];
    let ops = index_ops(&rows, true);
    assert_eq!(
        ops.iter().map(op_text).collect::<Vec<_>>(),
        ["stage kept.txt", "rm-cached dropped.txt", "stage new.txt"]
    );
}

#[test]
fn committing_stages_and_unstages() {
    let rows = vec![
        row("a", true, true, false),
        row("b", false, true, true),
        row("c", true, true, true),
        row("d", false, false, false),
    ];
    let ops = index_ops(&rows, false);
    assert_eq!(ops.iter().map(op_text).collect::<Vec<_>>(), ["stage a", "unstage b"]);
    assert!(index_ops(&Vec::new(), false).is_empty());
}

#[test]
fn blank_messages() {
    assert!(is_blank(""));
    assert!(is_blank("  \n\t "));
    assert!(!is_blank(" fix: x "));
}

fn ok() -> GitEvent {
    GitEvent::Exited { success: true, stdout: String::new(), stderr: String::new() }
}

fn failed(stderr: &str) -> GitEvent {
    GitEvent::Exited { success: false, stdout: String::new(), stderr: stderr.to_string() }
}

/// Runs a commit with the given outcomes: the arguments of the commands it
/// asked for, and its result once it finished.
fn run_commit(
    rows: &Vec<(String, bool, bool, bool)>,
    amend: bool,
    message: &str,
    events: Vec<GitEvent>,
) -> (Vec<Vec<String>>, Option<Result<(), String>>) {
    let (mut run, first) = CommitRun::start(rows, amend, message, "nothing staged");
    let mut commands = Vec::new();
    let mut next = first;
    let mut events = events.into_iter();
    loop {
        match next {
            Next::Run(c) => {
                commands.push(c.args);
                match events.next() {
                    Some(ev) => next = run.advance(ev),
                    None => return (commands, None),
                }
            },
            Next::Finished(r) => return (commands, Some(r)),
        }
    }
}

#[test]
fn committing_runs_updates_check_and_commit() {
    let rows = vec![row("a", true, true, false), row("b", false, true, true)];
    let (commands, result) = run_commit(&rows, false, "msg", vec![ok(), ok(), failed(""), ok()]);
    assert_eq!(result, Some(Ok(())));
    assert_eq!(
        commands,
        [
            vec!["add", "-A", "--", "a"],
            vec!["restore", "--staged", "--", "b"],
            vec!["diff", "--cached", "--quiet", "HEAD"],
            vec!["commit", "-m", "msg"],
        ]
    );
}

#[test]
fn nothing_staged_is_refused_only_without_amend() {
    let rows = vec![row("a", false, true, false)];
    let (commands, result) = run_commit(&rows, false, "msg", vec![ok()]);
    assert_eq!(result, Some(Err("nothing staged".to_string())));
    assert_eq!(commands, [vec!["diff", "--cached", "--quiet", "HEAD"]]);
    // amending: no check, the commit runs at once
    let (commands, result) = run_commit(&rows, true, "msg", vec![ok(), ok()]);
    assert_eq!(result, Some(Ok(())));
    assert_eq!(commands, [vec!["rm", "-q", "-r", "--cached", "--", "a"], vec!["commit", "--amend", "-m", "msg"]]);
    // git cannot tell: the commit is tried
    let (commands, _) = run_commit(&rows, false, "msg", vec![GitEvent::SpawnFailed("gone".into())]);
    assert_eq!(commands[1], vec!["commit", "-m", "msg"]);
}

#[test]
fn the_first_failure_ends_the_commit() {
    let rows = vec![row("a", true, true, false), row("b", true, true, false)];
    let (commands, result) = run_commit(&rows, false, "msg", vec![failed("fatal: pathspec 'a'\n")]);
    assert_eq!(result, Some(Err("fatal: pathspec 'a'".to_string())));
    assert_eq!(commands.len(), 1);
    let (_, result) = run_commit(&rows, false, "msg", vec![ok(), ok(), failed(""), failed("")]);
    assert_eq!(result, Some(Err("git command failed".to_string())));
    let (_, result) = run_commit(&rows, true, "msg", vec![GitEvent::SpawnFailed("no git".into())]);
    assert_eq!(result, Some(Err("no git".to_string())));
    // a finished run runs nothing more
    let (mut run, _) = CommitRun::start(&Vec::new(), true, "m", "n");
    assert!(matches!(run.advance(ok()), Next::Finished(Ok(()))));
    match run.advance(ok()) {
        Next::Finished(Err(e)) => assert_eq!(e, "the commit run has ended"),
        _ => panic!("an ended run must not run commands"),
    }
}

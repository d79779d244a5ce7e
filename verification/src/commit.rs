//! The commit window's file list: the rows shown in amend mode, and what
//! committing does to the index for the checked and unchecked rows.
use vstd::prelude::*;
use crate::text::{before_first_arrow, before_first_arrow_exec, chars_eq, chars_of, seqs, trim, trim_exec};
use crate::gitlog::{failure_text, rm_cached_path, stage_path, unstage_path, work_files, Action, WorkFile, WorkFileModel};
use crate::rewrite::{env_views, plain, plain_command, CommandModel, EventModel, GitCommand, GitEvent, Next, NextModel};

verus! {

// ---------------------------------------------------------------------------
// Amend mode: the previous commit's files merged with the work tree
// ---------------------------------------------------------------------------

/// The pre-rename path of a work-tree row ("a => b" -> "a"; the path
/// itself for other rows).
pub open spec fn old_path_of(w: WorkFileModel) -> Seq<char> {
    trim(before_first_arrow(w.display_name))
}

/// Row `f` is the row that work-tree change `w` updates: same path, or,
/// for a rename, the row of the old path.
pub open spec fn row_matches(f: WorkFileModel, w: WorkFileModel) -> bool {
    f.path == w.path || (w.action == Action::Renamed && f.path == old_path_of(w))
}

/// Index of the first row at or after `i` that `w` updates, or -1.
pub open spec fn first_match(files: Seq<WorkFileModel>, w: WorkFileModel, i: int) -> int
    decreases files.len() - i,
{
    if i < 0 || i >= files.len() {
        -1
    } else if row_matches(files[i], w) {
        i
    } else {
        first_match(files, w, i + 1)
    }
}

/// A row updated by a work-tree change: path, name, action and counts of
/// the change, the staged and in-HEAD flags of the row.
pub open spec fn updated_row(f: WorkFileModel, w: WorkFileModel) -> WorkFileModel {
    WorkFileModel {
        path: w.path,
        display_name: w.display_name,
        action: w.action,
        added: w.added,
        deleted: w.deleted,
        staged: f.staged,
        in_head: f.in_head,
    }
}

/// One work-tree change merged into the rows.
pub open spec fn merge_one(files: Seq<WorkFileModel>, w: WorkFileModel) -> Seq<WorkFileModel> {
    let j = first_match(files, w, 0);
    if j >= 0 {
        files.update(j, updated_row(files[j], w))
    } else {
        files.push(w)
    }
}

/// All work-tree changes merged into the rows, in order.
pub open spec fn merge_all(files: Seq<WorkFileModel>, ws: Seq<WorkFileModel>) -> Seq<WorkFileModel>
    decreases ws.len(),
{
    if ws.len() == 0 {
        files
    } else {
        merge_one(merge_all(files, ws.drop_last()), ws.last())
    }
}

proof fn lemma_first_match(files: Seq<WorkFileModel>, w: WorkFileModel, i: int)
    requires
        0 <= i,
    ensures
        first_match(files, w, i) == -1 || (i <= first_match(files, w, i) < files.len() && row_matches(
            files[first_match(files, w, i)],
            w,
        )),
    decreases files.len() - i,
{
    if i < files.len() && !row_matches(files[i], w) {
        lemma_first_match(files, w, i + 1);
    }
}

fn copy_string(s: &String) -> (r: String)
    ensures
        r@ == s@,
{
    s.clone()
}

fn copy_work_file(w: &WorkFile) -> (r: WorkFile)
    ensures
        r@ == w@,
{
    WorkFile {
        path: copy_string(&w.path),
        display_name: copy_string(&w.display_name),
        action: w.action,
        added: w.added,
        deleted: w.deleted,
        staged: w.staged,
        in_head: w.in_head,
    }
}

fn row_matches_exec(f: &WorkFile, w: &WorkFile) -> (r: bool)
    ensures
        r == row_matches(f@, w@),
{
    let fp = chars_of(f.path.as_str());
    if chars_eq(&fp, &chars_of(w.path.as_str())) {
        return true;
    }
    if w.action == Action::Renamed {
        let old = trim_exec(&before_first_arrow_exec(&chars_of(w.display_name.as_str())));
        return chars_eq(&fp, &old);
    }
    false
}

/// File rows for amend mode: the files of the previous commit (none if
/// there is no commit yet) merged with the working-copy changes. A change
/// of a file of the previous commit updates its row (path, name, action,
/// counts; the row stays staged and in HEAD); a rename also updates the
/// row of its old path, so that the file is not listed twice; other
/// changes are added.
pub fn amend_files(head: Option<Vec<WorkFile>>, work: &Vec<WorkFile>) -> (r: Vec<WorkFile>)
    ensures
        work_files(r@) == merge_all(
            match head {
                Some(h) => work_files(h@),
                None => Seq::empty(),
            },
            work_files(work@),
        ),
{
    let ghost start = match &head {
        Some(h) => work_files(h@),
        None => Seq::<WorkFileModel>::empty(),
    };
    let mut files: Vec<WorkFile> = match head {
        Some(h) => h,
        None => Vec::new(),
    };
    assert(work_files(files@) =~= start);
    assert(work_files(work@).take(0) =~= Seq::<WorkFileModel>::empty());
    let mut i: usize = 0;
    while i < work.len()
        invariant
            i <= work.len(),
            work_files(files@) == merge_all(start, work_files(work@).take(i as int)),
        decreases work.len() - i,
    {
        let w = &work[i];
        let ghost cur = work_files(files@);
        let ghost wm = w@;
        proof {
            let t = work_files(work@).take(i + 1);
            assert(t.drop_last() =~= work_files(work@).take(i as int));
            assert(t.last() == wm);
        }
        let mut j: usize = 0;
        loop
            invariant
                j <= files.len(),
                cur == work_files(files@),
                wm == w@,
                first_match(cur, wm, 0) == first_match(cur, wm, j as int),
            ensures
                j <= files.len(),
                cur == work_files(files@),
                first_match(cur, wm, 0) == if j < files.len() {
                    j as int
                } else {
                    -1
                },
            decreases files.len() - j,
        {
            assert(cur.len() == files.len());
            if j == files.len() {
                break;
            }
            assert(cur[j as int] == files@[j as int]@);
            let b = row_matches_exec(&files[j], w);
            assert(b == row_matches(cur[j as int], wm));
            if b {
                break;
            }
            j = j + 1;
        }
        if j < files.len() {
            let ghost fm = files@[j as int]@;
            assert(cur[j as int] == fm);
            let mut row = WorkFile {
                path: String::new(),
                display_name: String::new(),
                action: Action::Added,
                added: None,
                deleted: None,
                staged: false,
                in_head: false,
            };
            files.set_and_swap(j, &mut row);
            row.path = copy_string(&w.path);
            row.display_name = copy_string(&w.display_name);
            row.action = w.action;
            row.added = w.added;
            row.deleted = w.deleted;
            assert(row@ == updated_row(fm, wm));
            let ghost before = files@;
            files.set_and_swap(j, &mut row);
            assert(work_files(files@) =~= cur.update(j as int, updated_row(fm, wm)));
        } else {
            let ghost before = files@;
            let c = copy_work_file(w);
            files.push(c);
            assert(work_files(files@) =~= cur.push(wm));
        }
        i = i + 1;
    }
    assert(work_files(work@).take(i as int) =~= work_files(work@));
    files
}

// ---------------------------------------------------------------------------
// Committing: the index updates of the checked rows
// ---------------------------------------------------------------------------

/// One index update before committing.
pub enum IndexOp {
    /// Stage the working-tree state of a path
    Stage(String),
    /// Remove a path from the index, keeping the working-tree file
    Unstage(String),
    /// Remove a path from the index only (drops it from an amended commit)
    RmCached(String),
}

pub enum IndexOpModel {
    Stage(Seq<char>),
    Unstage(Seq<char>),
    RmCached(Seq<char>),
}

impl View for IndexOp {
    type V = IndexOpModel;

    open spec fn view(&self) -> IndexOpModel {
        match self {
            IndexOp::Stage(p) => IndexOpModel::Stage(p@),
            IndexOp::Unstage(p) => IndexOpModel::Unstage(p@),
            IndexOp::RmCached(p) => IndexOpModel::RmCached(p@),
        }
    }
}

/// A row of the file list: (path, checked, in HEAD, staged).
pub type Row = (String, bool, bool, bool);

/// What committing does for one row. Amending: an unchecked file of the
/// previous commit leaves the index (and so the amended commit), a checked
/// file is staged. Otherwise: a checked unstaged file is staged, an
/// unchecked staged file unstaged.
pub open spec fn op_of(path: Seq<char>, checked: bool, in_head: bool, staged: bool, amend: bool) -> Option<IndexOpModel> {
    if amend {
        if in_head && !checked {
            Some(IndexOpModel::RmCached(path))
        } else if checked {
            Some(IndexOpModel::Stage(path))
        } else {
            None
        }
    } else if checked && !staged {
        Some(IndexOpModel::Stage(path))
    } else if !checked && staged {
        Some(IndexOpModel::Unstage(path))
    } else {
        None
    }
}

/// The index updates for the rows, in row order.
pub open spec fn ops_of(rows: Seq<Row>, amend: bool) -> Seq<IndexOpModel>
    decreases rows.len(),
{
    if rows.len() == 0 {
        Seq::empty()
    } else {
        let r = rows.last();
        match op_of(r.0@, r.1, r.2, r.3, amend) {
            Some(op) => ops_of(rows.drop_last(), amend).push(op),
            None => ops_of(rows.drop_last(), amend),
        }
    }
}

pub open spec fn op_views(v: Seq<IndexOp>) -> Seq<IndexOpModel> {
    v.map_values(|o: IndexOp| o@)
}

/// The index updates that committing the rows makes, in row order; the
/// caller applies them and stops at the first that fails.
pub fn index_ops(rows: &Vec<Row>, amend: bool) -> (r: Vec<IndexOp>)
    ensures
        op_views(r@) == ops_of(rows@, amend),
{
    let mut r: Vec<IndexOp> = Vec::new();
    let mut i: usize = 0;
    assert(rows@.take(0) =~= Seq::<Row>::empty());
    while i < rows.len()
        invariant
            i <= rows.len(),
            op_views(r@) == ops_of(rows@.take(i as int), amend),
        decreases rows.len() - i,
    {
        let (path, checked, in_head, staged) = (&rows[i].0, rows[i].1, rows[i].2, rows[i].3);
        proof {
            let t = rows@.take(i + 1);
            assert(t.drop_last() =~= rows@.take(i as int));
            assert(t.last() == rows@[i as int]);
        }
        let op = if amend {
            if in_head && !checked {
                Some(IndexOp::RmCached(copy_string(path)))
            } else if checked {
                Some(IndexOp::Stage(copy_string(path)))
            } else {
                None
            }
        } else if checked && !staged {
            Some(IndexOp::Stage(copy_string(path)))
        } else if !checked && staged {
            Some(IndexOp::Unstage(copy_string(path)))
        } else {
            None
        };
        match op {
            Some(o) => {
                let ghost before = r@;
                let ghost ov = o@;
                r.push(o);
                assert(op_views(r@) =~= op_views(before).push(ov));
            },
            None => {},
        }
        i = i + 1;
    }
    assert(rows@.take(i as int) =~= rows@);
    r
}

// ---------------------------------------------------------------------------
// Committing: the run of git commands
// ---------------------------------------------------------------------------

/// The git arguments of one index update.
pub open spec fn op_args(op: IndexOpModel) -> Seq<Seq<char>> {
    match op {
        IndexOpModel::Stage(p) => seq!["add"@, "-A"@, "--"@, p],
        IndexOpModel::Unstage(p) => seq!["restore"@, "--staged"@, "--"@, p],
        IndexOpModel::RmCached(p) => seq!["rm"@, "-q"@, "-r"@, "--cached"@, "--"@, p],
    }
}

/// `git diff --cached --quiet HEAD`: succeeds when the index matches HEAD,
/// i.e. nothing is staged to commit.
pub open spec fn staged_check_command() -> CommandModel {
    plain(seq!["diff"@, "--cached"@, "--quiet"@, "HEAD"@])
}

/// `git commit [--amend] -m <message>`.
pub open spec fn commit_command(message: Seq<char>, amend: bool) -> CommandModel {
    if amend {
        plain(seq!["commit"@, "--amend"@, "-m"@, message])
    } else {
        plain(seq!["commit"@, "-m"@, message])
    }
}

/// The result of a git command that must succeed: the error is the text of
/// a failed start, or git's trimmed stderr ("git command failed" when empty).
pub open spec fn run_result(ev: EventModel) -> Result<(), Seq<char>> {
    match ev {
        EventModel::SpawnFailed(e) => Err(e),
        EventModel::Exited { success, stdout, stderr } => if success {
            Ok(())
        } else {
            Err(failure_text(stderr, "git command failed"@))
        },
    }
}

/// Where a commit run stands.
#[derive(Clone, Copy, PartialEq, Eq, Structural)]
pub enum CommitPhase {
    /// An index update is running
    Index,
    /// The check that something is staged is running
    CheckStaged,
    /// The commit is running
    Commit,
    Done,
}

pub struct CommitRunModel {
    pub phase: CommitPhase,
    /// The index updates of the rows, in row order, and the one running
    pub ops: Seq<IndexOpModel>,
    pub idx: int,
    pub amend: bool,
    pub message: Seq<char>,
    /// The error text when nothing is staged
    pub nothing_staged: Seq<char>,
}

pub open spec fn end_run(m: CommitRunModel, r: Result<(), Seq<char>>) -> (CommitRunModel, NextModel) {
    (CommitRunModel { phase: CommitPhase::Done, ..m }, NextModel::Finished(r))
}

/// After the index updates: a normal commit first checks that something
/// is staged; an amend commits at once.
pub open spec fn after_index(m: CommitRunModel) -> (CommitRunModel, NextModel) {
    if m.amend {
        (CommitRunModel { phase: CommitPhase::Commit, ..m }, NextModel::Run(commit_command(m.message, true)))
    } else {
        (CommitRunModel { phase: CommitPhase::CheckStaged, ..m }, NextModel::Run(staged_check_command()))
    }
}

/// The index update at `m.idx`, or what follows the updates.
pub open spec fn next_index(m: CommitRunModel) -> (CommitRunModel, NextModel) {
    if 0 <= m.idx < m.ops.len() {
        (CommitRunModel { phase: CommitPhase::Index, ..m }, NextModel::Run(plain(op_args(m.ops[m.idx]))))
    } else {
        after_index(m)
    }
}

/// The start of committing the rows: the first index update (or what
/// follows the updates, when there are none).
pub open spec fn commit_start(rows: Seq<Row>, amend: bool, message: Seq<char>, nothing_staged: Seq<char>) -> (
    CommitRunModel,
    NextModel,
) {
    next_index(
        CommitRunModel {
            phase: CommitPhase::Index,
            ops: ops_of(rows, amend),
            idx: 0,
            amend,
            message,
            nothing_staged,
        },
    )
}

/// The next step after the outcome `ev` of the running command: a failed
/// index update or commit ends the run with its error at once; a normal
/// commit is refused when nothing is staged (when git cannot tell, the
/// commit is tried).
pub open spec fn commit_step(m: CommitRunModel, ev: EventModel) -> (CommitRunModel, NextModel) {
    match m.phase {
        CommitPhase::Index => match run_result(ev) {
            Err(e) => end_run(m, Err(e)),
            Ok(_) => next_index(CommitRunModel { idx: m.idx + 1, ..m }),
        },
        CommitPhase::CheckStaged => match ev {
            EventModel::Exited { success, stdout, stderr } => if success {
                end_run(m, Err(m.nothing_staged))
            } else {
                (CommitRunModel { phase: CommitPhase::Commit, ..m }, NextModel::Run(commit_command(m.message, m.amend)))
            },
            EventModel::SpawnFailed(_) => (
                CommitRunModel { phase: CommitPhase::Commit, ..m },
                NextModel::Run(commit_command(m.message, m.amend)),
            ),
        },
        CommitPhase::Commit => match run_result(ev) {
            Err(e) => end_run(m, Err(e)),
            Ok(_) => end_run(m, Ok(())),
        },
        CommitPhase::Done => end_run(m, Err("the commit run has ended"@)),
    }
}

/// Applies the checkbox selection of the rows to the index and commits,
/// one git command at a time: [`CommitRun::start`] gives the first
/// command, [`CommitRun::advance`] takes each outcome and gives the next
/// command or the result. On an error the index may be partly updated.
pub struct CommitRun {
    phase: CommitPhase,
    ops: Vec<IndexOp>,
    idx: usize,
    amend: bool,
    message: String,
    nothing_staged: String,
}

impl View for CommitRun {
    type V = CommitRunModel;

    closed spec fn view(&self) -> CommitRunModel {
        CommitRunModel {
            phase: self.phase,
            ops: op_views(self.ops@),
            idx: self.idx as int,
            amend: self.amend,
            message: self.message@,
            nothing_staged: self.nothing_staged@,
        }
    }
}

fn op_command(op: &IndexOp) -> (r: GitCommand)
    ensures
        r@ == plain(op_args(op@)),
{
    let args = match op {
        IndexOp::Stage(p) => stage_path(p.as_str()),
        IndexOp::Unstage(p) => unstage_path(p.as_str()),
        IndexOp::RmCached(p) => rm_cached_path(p.as_str()),
    };
    let env: Vec<(String, String)> = Vec::new();
    let r = GitCommand { args, env, stdin: None };
    assert(env_views(r.env@) =~= Seq::<(Seq<char>, Seq<char>)>::empty());
    assert(r@.args =~= op_args(op@));
    r
}

fn staged_check_cmd() -> (r: GitCommand)
    ensures
        r@ == staged_check_command(),
{
    let mut a: Vec<Vec<char>> = Vec::new();
    a.push(chars_of("diff"));
    a.push(chars_of("--cached"));
    a.push(chars_of("--quiet"));
    a.push(chars_of("HEAD"));
    assert(seqs(a@) =~= seq!["diff"@, "--cached"@, "--quiet"@, "HEAD"@]);
    plain_command(&a)
}

fn commit_cmd(message: &String, amend: bool) -> (r: GitCommand)
    ensures
        r@ == commit_command(message@, amend),
{
    let mut a: Vec<Vec<char>> = Vec::new();
    a.push(chars_of("commit"));
    if amend {
        a.push(chars_of("--amend"));
    }
    a.push(chars_of("-m"));
    a.push(chars_of(message.as_str()));
    if amend {
        assert(seqs(a@) =~= seq!["commit"@, "--amend"@, "-m"@, message@]);
    } else {
        assert(seqs(a@) =~= seq!["commit"@, "-m"@, message@]);
    }
    plain_command(&a)
}

fn run_result_exec(ev: &GitEvent) -> (r: Result<(), String>)
    ensures
        match r {
            Ok(_) => run_result(ev@) == Ok::<(), Seq<char>>(()),
            Err(e) => run_result(ev@) == Err::<(), Seq<char>>(e@),
        },
{
    match ev {
        GitEvent::SpawnFailed(e) => Err(e.clone()),
        GitEvent::Exited { success, stderr, .. } => if *success {
            Ok(())
        } else {
            Err(crate::gitlog::failure_message(stderr.as_str(), "git command failed"))
        },
    }
}

impl CommitRun {
    pub closed spec fn wf(&self) -> bool {
        &&& self.idx <= self.ops.len()
        &&& self.phase == CommitPhase::Index ==> self.idx < self.ops.len()
    }

    fn next_index_exec(&mut self) -> (r: Next)
        requires
            old(self).idx <= old(self).ops.len(),
        ensures
            final(self).wf(),
            (final(self)@, r@) == next_index(old(self)@),
    {
        if self.idx < self.ops.len() {
            self.phase = CommitPhase::Index;
            let c = op_command(&self.ops[self.idx]);
            Next::Run(c)
        } else if self.amend {
            self.phase = CommitPhase::Commit;
            Next::Run(commit_cmd(&self.message, true))
        } else {
            self.phase = CommitPhase::CheckStaged;
            Next::Run(staged_check_cmd())
        }
    }

    fn end(&mut self, r: Result<(), String>) -> (n: Next)
        requires
            old(self).wf(),
        ensures
            final(self).wf(),
            final(self)@ == (CommitRunModel { phase: CommitPhase::Done, ..old(self)@ }),
            n@ == NextModel::Finished(match r {
                Ok(_) => Ok::<(), Seq<char>>(()),
                Err(e) => Err(e@),
            }),
    {
        self.phase = CommitPhase::Done;
        match r {
            Ok(_) => Next::Finished(Ok(())),
            Err(e) => Next::Finished(Err(e)),
        }
    }

    /// Starts committing the rows (path, checked, in HEAD, staged) with
    /// `message`, amending or not; `nothing_staged` is the error text for
    /// a normal commit with nothing staged.
    pub fn start(rows: &Vec<Row>, amend: bool, message: &str, nothing_staged: &str) -> (r: (CommitRun, Next))
        ensures
            r.0.wf(),
            (r.0@, r.1@) == commit_start(rows@, amend, message@, nothing_staged@),
    {
        let ops = index_ops(rows, amend);
        let mut run = CommitRun {
            phase: CommitPhase::Index,
            ops,
            idx: 0,
            amend,
            message: message.to_owned(),
            nothing_staged: nothing_staged.to_owned(),
        };
        let n = run.next_index_exec();
        (run, n)
    }

    /// The next step after the outcome `ev` of the last command (see
    /// [`commit_step`]).
    pub fn advance(&mut self, ev: GitEvent) -> (r: Next)
        requires
            old(self).wf(),
        ensures
            final(self).wf(),
            (final(self)@, r@) == commit_step(old(self)@, ev@),
    {
        match self.phase {
            CommitPhase::Index => match run_result_exec(&ev) {
                Err(e) => self.end(Err(e)),
                Ok(_) => {
                    self.idx = self.idx + 1;
                    self.next_index_exec()
                },
            },
            CommitPhase::CheckStaged => match &ev {
                GitEvent::Exited { success, .. } => if *success {
                    let e = self.nothing_staged.clone();
                    self.end(Err(e))
                } else {
                    self.phase = CommitPhase::Commit;
                    Next::Run(commit_cmd(&self.message, self.amend))
                },
                GitEvent::SpawnFailed(_) => {
                    self.phase = CommitPhase::Commit;
                    Next::Run(commit_cmd(&self.message, self.amend))
                },
            },
            CommitPhase::Commit => match run_result_exec(&ev) {
                Err(e) => self.end(Err(e)),
                Ok(_) => self.end(Ok(())),
            },
            CommitPhase::Done => self.end(Err("the commit run has ended".to_owned())),
        }
    }
}

/// Only a normal commit checks that something is staged.
pub open spec fn staged_check_only_without_amend(m: CommitRunModel) -> bool {
    m.phase == CommitPhase::CheckStaged ==> !m.amend
}

/// Committing applies the index updates of the rows in row order and stops
/// at the first that fails, with its error; a failed commit ends the run
/// with its error too. Only a normal commit (not an amend) checks that
/// something is staged, and is refused with the nothing-staged text when
/// nothing is; an ended run runs no more commands.
pub proof fn law_commit_run(
    rows: Seq<Row>,
    amend: bool,
    message: Seq<char>,
    nothing_staged: Seq<char>,
    m: CommitRunModel,
    ev: EventModel,
)
    ensures
        ops_of(rows, amend).len() > 0 ==> commit_start(rows, amend, message, nothing_staged).1
            == NextModel::Run(plain(op_args(ops_of(rows, amend)[0]))),
        staged_check_only_without_amend(commit_start(rows, amend, message, nothing_staged).0),
        staged_check_only_without_amend(m) ==> staged_check_only_without_amend(commit_step(m, ev).0),
        (m.phase == CommitPhase::Index || m.phase == CommitPhase::Commit) && run_result(ev) is Err ==> commit_step(m, ev)
            == end_run(m, run_result(ev)),
        m.phase == CommitPhase::Index && run_result(ev) is Ok && 0 <= m.idx + 1 < m.ops.len() ==> commit_step(
            m,
            ev,
        ).1 == NextModel::Run(plain(op_args(m.ops[m.idx + 1]))),
        m.phase == CommitPhase::CheckStaged && (ev matches EventModel::Exited { success, .. } && success) ==> commit_step(
            m,
            ev,
        ).1 == NextModel::Finished(Err(m.nothing_staged)),
        m.phase == CommitPhase::Done ==> commit_step(m, ev).1 is Finished,
{
}

/// True when the message has no text but whitespace (such a commit is
/// refused).
pub fn is_blank(message: &str) -> (r: bool)
    ensures
        r == (trim(message@).len() == 0),
{
    trim_exec(&chars_of(message)).len() == 0
}

// ---------------------------------------------------------------------------
// Laws
// ---------------------------------------------------------------------------

/// Amend mode never loses a file of the previous commit: each of its rows
/// stays in its place with its staged and in-HEAD flags; a work-tree change
/// updates one row or adds one row after them, whose flags are those of a
/// work-tree change; without work-tree changes the rows are exactly the
/// previous commit's files.
pub proof fn law_amend_keeps_head_rows(files: Seq<WorkFileModel>, ws: Seq<WorkFileModel>)
    ensures
        files.len() <= merge_all(files, ws).len() <= files.len() + ws.len(),
        forall|i: int|
            0 <= i < files.len() ==> (#[trigger] merge_all(files, ws)[i]).staged == files[i].staged
                && merge_all(files, ws)[i].in_head == files[i].in_head,
        forall|i: int|
            files.len() <= i < merge_all(files, ws).len() ==> exists|k: int|
                0 <= k < ws.len() && (#[trigger] merge_all(files, ws)[i]).staged == ws[k].staged
                    && merge_all(files, ws)[i].in_head == ws[k].in_head,
        ws.len() == 0 ==> merge_all(files, ws) == files,
    decreases ws.len(),
{
    if ws.len() > 0 {
        let prev = merge_all(files, ws.drop_last());
        let w = ws.last();
        law_amend_keeps_head_rows(files, ws.drop_last());
        lemma_first_match(prev, w, 0);
        let r = merge_all(files, ws);
        assert(r == merge_one(prev, w));
        let j = first_match(prev, w, 0);
        assert forall|i: int| 0 <= i < files.len() implies (#[trigger] r[i]).staged == files[i].staged
            && r[i].in_head == files[i].in_head by {
            assert(prev[i].staged == files[i].staged);
        }
        assert forall|i: int| files.len() <= i < r.len() implies exists|k: int|
            0 <= k < ws.len() && (#[trigger] r[i]).staged == ws[k].staged && r[i].in_head
                == ws[k].in_head by {
            if i < prev.len() {
                assert(r[i].staged == prev[i].staged && r[i].in_head == prev[i].in_head);
                let k = choose|k: int|
                    0 <= k < ws.drop_last().len() && prev[i].staged == ws.drop_last()[k].staged
                        && prev[i].in_head == ws.drop_last()[k].in_head;
                assert(ws.drop_last()[k] == ws[k]);
            } else {
                assert(j < 0 && r[i] == w);
                assert(ws[ws.len() - 1] == w);
            }
        }
    }
}

proof fn lemma_ops_of_rows(rows: Seq<Row>, amend: bool)
    ensures
        forall|i: int|
            #![trigger rows[i]]
            0 <= i < rows.len() ==> match op_of(rows[i].0@, rows[i].1, rows[i].2, rows[i].3, amend) {
                Some(op) => ops_of(rows, amend).contains(op),
                None => true,
            },
        forall|k: int|
            #![trigger ops_of(rows, amend)[k]]
            0 <= k < ops_of(rows, amend).len() ==> exists|i: int|
                0 <= i < rows.len() && #[trigger] op_of(rows[i].0@, rows[i].1, rows[i].2, rows[i].3, amend)
                    == Some(ops_of(rows, amend)[k]),
    decreases rows.len(),
{
    if rows.len() > 0 {
        let pre = rows.drop_last();
        lemma_ops_of_rows(pre, amend);
        let prev = ops_of(pre, amend);
        let ops = ops_of(rows, amend);
        let last = rows.last();
        assert forall|i: int|
            #![trigger rows[i]]
            0 <= i < rows.len() implies match op_of(rows[i].0@, rows[i].1, rows[i].2, rows[i].3, amend) {
                Some(op) => ops.contains(op),
                None => true,
            } by {
            if i < rows.len() - 1 {
                assert(pre[i] == rows[i]);
                match op_of(rows[i].0@, rows[i].1, rows[i].2, rows[i].3, amend) {
                    Some(op) => {
                        let t = choose|t: int| 0 <= t < prev.len() && prev[t] == op;
                        assert(ops[t] == op);
                    },
                    None => {},
                }
            } else {
                match op_of(rows[i].0@, rows[i].1, rows[i].2, rows[i].3, amend) {
                    Some(op) => {
                        assert(ops[ops.len() - 1] == op);
                    },
                    None => {},
                }
            }
        }
        assert forall|k: int| #![trigger ops[k]] 0 <= k < ops.len() implies exists|i: int|
            0 <= i < rows.len() && #[trigger] op_of(rows[i].0@, rows[i].1, rows[i].2, rows[i].3, amend)
                == Some(ops[k]) by {
            if k < prev.len() {
                assert(ops[k] == prev[k]);
                let i = choose|i: int|
                    0 <= i < pre.len() && #[trigger] op_of(pre[i].0@, pre[i].1, pre[i].2, pre[i].3, amend)
                        == Some(prev[k]);
                assert(pre[i] == rows[i]);
            } else {
                assert(rows[rows.len() - 1] == last);
            }
        }
    }
}

/// Amending with a file of the previous commit unchecked removes it from
/// the index, so from the amended commit (the working-tree file stays),
/// and stages every checked file; an amend never unstages.
pub proof fn law_amend_ops(rows: Seq<Row>)
    ensures
        forall|i: int|
            0 <= i < rows.len() && rows[i].2 && !rows[i].1 ==> ops_of(rows, true).contains(
                IndexOpModel::RmCached(#[trigger] rows[i].0@),
            ),
        forall|i: int|
            0 <= i < rows.len() && rows[i].1 ==> ops_of(rows, true).contains(
                IndexOpModel::Stage(#[trigger] rows[i].0@),
            ),
        forall|k: int| 0 <= k < ops_of(rows, true).len() ==> !(#[trigger] ops_of(rows, true)[k] is Unstage),
{
    lemma_ops_of_rows(rows, true);
    assert forall|i: int| 0 <= i < rows.len() && rows[i].2 && !rows[i].1 implies ops_of(
        rows,
        true,
    ).contains(IndexOpModel::RmCached(#[trigger] rows[i].0@)) by {
        assert(op_of(rows[i].0@, rows[i].1, rows[i].2, rows[i].3, true) == Some(
            IndexOpModel::RmCached(rows[i].0@),
        ));
    }
    assert forall|i: int| 0 <= i < rows.len() && rows[i].1 implies ops_of(rows, true).contains(
        IndexOpModel::Stage(#[trigger] rows[i].0@),
    ) by {
        assert(op_of(rows[i].0@, rows[i].1, rows[i].2, rows[i].3, true) == Some(
            IndexOpModel::Stage(rows[i].0@),
        ));
    }
}

/// A normal commit stages every checked file not yet staged, unstages
/// every unchecked staged file, and never removes a file from the index.
pub proof fn law_commit_ops(rows: Seq<Row>)
    ensures
        forall|i: int|
            0 <= i < rows.len() && rows[i].1 && !rows[i].3 ==> ops_of(rows, false).contains(
                IndexOpModel::Stage(#[trigger] rows[i].0@),
            ),
        forall|i: int|
            0 <= i < rows.len() && !rows[i].1 && rows[i].3 ==> ops_of(rows, false).contains(
                IndexOpModel::Unstage(#[trigger] rows[i].0@),
            ),
        forall|k: int| 0 <= k < ops_of(rows, false).len() ==> !(#[trigger] ops_of(rows, false)[k] is RmCached),
{
    lemma_ops_of_rows(rows, false);
    assert forall|i: int| 0 <= i < rows.len() && rows[i].1 && !rows[i].3 implies ops_of(
        rows,
        false,
    ).contains(IndexOpModel::Stage(#[trigger] rows[i].0@)) by {
        assert(op_of(rows[i].0@, rows[i].1, rows[i].2, rows[i].3, false) == Some(
            IndexOpModel::Stage(rows[i].0@),
        ));
    }
    assert forall|i: int| 0 <= i < rows.len() && !rows[i].1 && rows[i].3 implies ops_of(
        rows,
        false,
    ).contains(IndexOpModel::Unstage(#[trigger] rows[i].0@)) by {
        assert(op_of(rows[i].0@, rows[i].1, rows[i].2, rows[i].3, false) == Some(
            IndexOpModel::Unstage(rows[i].0@),
        ));
    }
}

proof fn lemma_first_match_found(files: Seq<WorkFileModel>, w: WorkFileModel, k: int, i: int)
    requires
        0 <= k <= i < files.len(),
        row_matches(files[i], w),
    ensures
        k <= first_match(files, w, k) <= i,
    decreases i - k,
{
    if !row_matches(files[k], w) {
        lemma_first_match_found(files, w, k + 1, i);
    }
}

/// A work-tree change of a file that is already listed (same path, or for
/// a rename its old path) updates that row instead of adding one: the row
/// takes the change's path, name, action and line counts (the current diff
/// against HEAD) and keeps its staged and in-HEAD flags; the other rows are
/// unchanged. So a renamed file of the previous commit is listed once,
/// under its new path and name. Any other change is added at the end.
pub proof fn law_change_updates_listed_row(files: Seq<WorkFileModel>, w: WorkFileModel)
    ensures
        (exists|i: int| 0 <= i < files.len() && #[trigger] row_matches(files[i], w)) ==> {
            &&& merge_one(files, w).len() == files.len()
            &&& exists|i: int|
                0 <= i < files.len() && row_matches(files[i], w) && {
                    let r = #[trigger] merge_one(files, w)[i];
                    &&& r.path == w.path
                    &&& r.display_name == w.display_name
                    &&& r.action == w.action
                    &&& r.added == w.added
                    &&& r.deleted == w.deleted
                    &&& r.staged == files[i].staged
                    &&& r.in_head == files[i].in_head
                    &&& forall|k: int| 0 <= k < files.len() && k != i ==> merge_one(files, w)[k] == files[k]
                }
        },
        !(exists|i: int| 0 <= i < files.len() && #[trigger] row_matches(files[i], w)) ==> merge_one(
            files,
            w,
        ) == files.push(w),
{
    lemma_first_match(files, w, 0);
    if exists|i: int| 0 <= i < files.len() && #[trigger] row_matches(files[i], w) {
        let i = choose|i: int| 0 <= i < files.len() && #[trigger] row_matches(files[i], w);
        lemma_first_match_found(files, w, 0, i);
        let j = first_match(files, w, 0);
        assert(merge_one(files, w)[j] == updated_row(files[j], w));
    } else {
        if first_match(files, w, 0) >= 0 {
            assert(row_matches(files[first_match(files, w, 0)], w));
        }
    }
}

} // verus!

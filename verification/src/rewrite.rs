//! Rewriting the details (author, committer, message) of one commit, as a
//! sequence of git commands decided one result at a time.
//!
//! The HEAD commit is amended in place; another ancestor of HEAD is
//! re-created with `git commit-tree` (same tree and parents, new details)
//! together with every descendant (each keeps its tree, message, author
//! and committer; only the parents point at the re-created commits). Local
//! branches whose tip lies inside the rewritten history move with it, the
//! current branch last, guarded by the old tip. A dirty work tree, and a
//! commit that is neither HEAD nor an ancestor of it, are refused before
//! anything is written.
//!
//! [`Rewrite::start`] gives the first command; the caller runs each
//! command and hands its outcome to [`Rewrite::advance`], which gives the
//! next command or the final result.
use vstd::prelude::*;
use crate::text::{
    chars_eq, chars_of, concat, copy_range, lines, lines_exec, seqs, split_all, split_all_exec,
    string_of, string_views, strings_of, trim, trim_exec, words, words_exec,
};
use crate::gitlog::{failure_message, failure_text, CommitDetails};

verus! {

// ---------------------------------------------------------------------------
// Commands and their outcomes
// ---------------------------------------------------------------------------

/// One git command: its arguments (after `git -C <repo>`), the environment
/// it adds, and the text piped to its standard input.
pub struct GitCommand {
    pub args: Vec<String>,
    pub env: Vec<(String, String)>,
    pub stdin: Option<String>,
}

pub struct CommandModel {
    pub args: Seq<Seq<char>>,
    pub env: Seq<(Seq<char>, Seq<char>)>,
    pub stdin: Option<Seq<char>>,
}

pub open spec fn env_views(v: Seq<(String, String)>) -> Seq<(Seq<char>, Seq<char>)> {
    v.map_values(|e: (String, String)| (e.0@, e.1@))
}

impl View for GitCommand {
    type V = CommandModel;

    open spec fn view(&self) -> CommandModel {
        CommandModel {
            args: string_views(self.args@),
            env: env_views(self.env@),
            stdin: match self.stdin {
                Some(s) => Some(s@),
                None => None,
            },
        }
    }
}

/// How a command ended: it could not be run (the error's text), or it
/// exited (success, standard output and standard error as text).
pub enum GitEvent {
    SpawnFailed(String),
    Exited { success: bool, stdout: String, stderr: String },
}

pub enum EventModel {
    SpawnFailed(Seq<char>),
    Exited { success: bool, stdout: Seq<char>, stderr: Seq<char> },
}

impl View for GitEvent {
    type V = EventModel;

    open spec fn view(&self) -> EventModel {
        match self {
            GitEvent::SpawnFailed(m) => EventModel::SpawnFailed(m@),
            GitEvent::Exited { success, stdout, stderr } => EventModel::Exited {
                success: *success,
                stdout: stdout@,
                stderr: stderr@,
            },
        }
    }
}

/// What to do next: run a command, or stop with the result.
pub enum Next {
    Run(GitCommand),
    Finished(Result<(), String>),
}

pub enum NextModel {
    Run(CommandModel),
    Finished(Result<(), Seq<char>>),
}

impl View for Next {
    type V = NextModel;

    open spec fn view(&self) -> NextModel {
        match self {
            Next::Run(c) => NextModel::Run(c@),
            Next::Finished(Ok(())) => NextModel::Finished(Ok(())),
            Next::Finished(Err(e)) => NextModel::Finished(Err(e@)),
        }
    }
}

/// The details to write, as characters.
pub struct DetailsModel {
    pub author: Seq<char>,
    pub author_email: Seq<char>,
    pub author_date: Seq<char>,
    pub committer: Seq<char>,
    pub committer_email: Seq<char>,
    pub committer_date: Seq<char>,
    pub message: Seq<char>,
}

impl View for CommitDetails {
    type V = DetailsModel;

    open spec fn view(&self) -> DetailsModel {
        DetailsModel {
            author: self.author@,
            author_email: self.author_email@,
            author_date: self.author_date@,
            committer: self.committer@,
            committer_email: self.committer_email@,
            committer_date: self.committer_date@,
            message: self.message@,
        }
    }
}

// ---------------------------------------------------------------------------
// The commands
// ---------------------------------------------------------------------------

pub open spec fn plain(args: Seq<Seq<char>>) -> CommandModel {
    CommandModel { args, env: Seq::empty(), stdin: None }
}

/// `git status --porcelain`: is the work tree clean?
pub open spec fn status_command() -> CommandModel {
    plain(seq!["status"@, "--porcelain"@])
}

/// `git rev-parse -q --verify <hash>^{commit}`: the full hash.
pub open spec fn resolve_command(hash: Seq<char>) -> CommandModel {
    plain(seq!["rev-parse"@, "-q"@, "--verify"@, hash + "^{commit}"@])
}

/// `git rev-parse -q HEAD`: the current tip.
pub open spec fn head_command() -> CommandModel {
    plain(seq!["rev-parse"@, "-q"@, "HEAD"@])
}

/// `git commit --amend` with the new identity: `--author` and `--date` set
/// the author, the `GIT_COMMITTER_*` environment the committer.
pub open spec fn amend_command(d: DetailsModel) -> CommandModel {
    CommandModel {
        args: seq![
            "commit"@,
            "--amend"@,
            "-m"@,
            d.message,
            "--author"@,
            d.author + " <"@ + d.author_email + ">"@,
            "--date"@,
            d.author_date,
        ],
        env: seq![
            ("GIT_COMMITTER_NAME"@, d.committer),
            ("GIT_COMMITTER_EMAIL"@, d.committer_email),
            ("GIT_COMMITTER_DATE"@, d.committer_date),
        ],
        stdin: None,
    }
}

/// `git merge-base --is-ancestor <full> <head>`: is the commit an ancestor
/// of the current tip (exit status 0)?
pub open spec fn ancestor_command(full: Seq<char>, head: Seq<char>) -> CommandModel {
    plain(seq!["merge-base"@, "--is-ancestor"@, full, head])
}

/// `git rev-parse -q --verify <full>^{tree}`: the tree of the commit.
pub open spec fn tree_command(full: Seq<char>) -> CommandModel {
    plain(seq!["rev-parse"@, "-q"@, "--verify"@, full + "^{tree}"@])
}

/// `git log -1 --format=%P <full>`: the parents of the commit.
pub open spec fn parents_command(full: Seq<char>) -> CommandModel {
    plain(seq!["log"@, "-1"@, "--format=%P"@, full])
}

/// `-p <parent>` for every parent.
pub open spec fn parent_args(parents: Seq<Seq<char>>) -> Seq<Seq<char>>
    decreases parents.len(),
{
    if parents.len() == 0 {
        Seq::empty()
    } else {
        parent_args(parents.drop_last()) + seq!["-p"@, parents.last()]
    }
}

/// The author and committer environment of `git commit-tree`.
pub open spec fn identity_env(
    an: Seq<char>,
    ae: Seq<char>,
    ad: Seq<char>,
    cn: Seq<char>,
    ce: Seq<char>,
    cd: Seq<char>,
) -> Seq<(Seq<char>, Seq<char>)> {
    seq![
        ("GIT_AUTHOR_NAME"@, an),
        ("GIT_AUTHOR_EMAIL"@, ae),
        ("GIT_AUTHOR_DATE"@, ad),
        ("GIT_COMMITTER_NAME"@, cn),
        ("GIT_COMMITTER_EMAIL"@, ce),
        ("GIT_COMMITTER_DATE"@, cd),
    ]
}

/// `git commit-tree <tree> -p <parent>... -m <message>` with the new
/// details: the edited commit, same tree and parents.
pub open spec fn create_edited_command(tree: Seq<char>, parents: Seq<char>, d: DetailsModel) -> CommandModel {
    CommandModel {
        args: seq!["commit-tree"@, tree] + parent_args(words(parents)) + seq!["-m"@, d.message],
        env: identity_env(
            d.author,
            d.author_email,
            d.author_date,
            d.committer,
            d.committer_email,
            d.committer_date,
        ),
        stdin: None,
    }
}

/// `git rev-list --topo-order --reverse <full>..<head>`: the descendants,
/// parents before children.
pub open spec fn descendants_command(full: Seq<char>, head: Seq<char>) -> CommandModel {
    plain(seq!["rev-list"@, "--topo-order"@, "--reverse"@, full + ".."@ + head])
}

/// The NUL-separated tree, parents, author and committer of one commit;
/// the dates in git's raw form (unix time and zone), which keeps the zone.
pub open spec fn fields_command(h: Seq<char>) -> CommandModel {
    plain(
        seq![
            "log"@,
            "-1"@,
            "--date=raw"@,
            "--format=%T%x00%P%x00%an%x00%ae%x00%ad%x00%cn%x00%ce%x00%cd"@,
            h,
        ],
    )
}

/// A commit message as `git log --format=%B` prints it: git appends one
/// newline after the message, which is removed here; the message itself
/// stays as it is.
pub open spec fn without_terminator(out: Seq<char>) -> Seq<char> {
    if out.len() > 0 && out.last() == '\n' {
        out.drop_last()
    } else {
        out
    }
}

/// `git log -1 --format=%B <h>`: the message of one commit.
pub open spec fn message_command(h: Seq<char>) -> CommandModel {
    plain(seq!["log"@, "-1"@, "--format=%B"@, h])
}

/// The re-created hash of `h`, if it was re-created (the last entry wins).
pub open spec fn lookup(map: Seq<(Seq<char>, Seq<char>)>, h: Seq<char>) -> Option<Seq<char>>
    decreases map.len(),
{
    if map.len() == 0 {
        None
    } else if map.last().0 == h {
        Some(map.last().1)
    } else {
        lookup(map.drop_last(), h)
    }
}

/// A parent after the rewrite: its re-created hash, or itself.
pub open spec fn new_parent(map: Seq<(Seq<char>, Seq<char>)>, p: Seq<char>) -> Seq<char> {
    match lookup(map, p) {
        Some(n) => n,
        None => p,
    }
}

/// Every parent after the rewrite.
pub open spec fn new_parents(map: Seq<(Seq<char>, Seq<char>)>, ps: Seq<Seq<char>>) -> Seq<Seq<char>> {
    ps.map_values(|p: Seq<char>| new_parent(map, p))
}

/// `git commit-tree <tree> -p <parent>...` for a descendant: its own tree,
/// author and committer (raw dates), its parents mapped to their
/// re-created hashes, its message piped in as stored.
pub open spec fn create_descendant_command(
    f: Seq<Seq<char>>,
    map: Seq<(Seq<char>, Seq<char>)>,
    message: Seq<char>,
) -> CommandModel {
    CommandModel {
        args: seq!["commit-tree"@, f[0]] + parent_args(new_parents(map, words(f[1]))),
        env: identity_env(f[2], f[3], f[4], f[5], f[6], f[7]),
        stdin: Some(message),
    }
}

/// `git symbolic-ref -q HEAD`: the current branch's ref.
pub open spec fn symref_command() -> CommandModel {
    plain(seq!["symbolic-ref"@, "-q"@, "HEAD"@])
}

/// The local branches and their tips.
pub open spec fn heads_command() -> CommandModel {
    plain(seq!["for-each-ref"@, "--format=%(refname)%00%(objectname)"@, "refs/heads"@])
}

/// `git update-ref -m <reason> <name> <new>`: moves a branch.
pub open spec fn update_command(name: Seq<char>, new: Seq<char>) -> CommandModel {
    plain(seq!["update-ref"@, "-m"@, "gitrebase: edit commit details"@, name, new])
}

/// `git update-ref -m <reason> <ref> <new tip> <old tip>`: moves the
/// current branch (or a detached HEAD), only if it still is at the old tip.
pub open spec fn update_current_command(refname: Seq<char>, new_tip: Seq<char>, head: Seq<char>) -> CommandModel {
    plain(seq!["update-ref"@, "-m"@, "gitrebase: edit commit details"@, refname, new_tip, head])
}

// ---------------------------------------------------------------------------
// The decisions
// ---------------------------------------------------------------------------

/// Where the rewrite stands.
#[derive(Clone, Copy, PartialEq, Eq, Structural)]
pub enum Phase {
    CheckClean,
    ResolveHash,
    ReadHead,
    CheckAncestor,
    Amend,
    ReadTree,
    ReadParents,
    CreateEdited,
    ListDescendants,
    ReadFields,
    ReadMessage,
    CreateDescendant,
    ReadSymref,
    ListHeads,
    UpdateBranch,
    UpdateCurrent,
    Done,
}

pub struct RewriteModel {
    pub phase: Phase,
    pub hash: Seq<char>,
    pub details: DetailsModel,
    /// Full hash of the edited commit
    pub full: Seq<char>,
    /// The tip before the rewrite
    pub head: Seq<char>,
    pub tree: Seq<char>,
    /// The descendants, parents first, and the one being re-created
    pub list: Seq<Seq<char>>,
    pub idx: int,
    /// The fields of the descendant being re-created
    pub fields: Seq<Seq<char>>,
    /// (old hash, re-created hash) of every commit re-created so far
    pub rewritten: Seq<(Seq<char>, Seq<char>)>,
    pub refname: Seq<char>,
    pub new_tip: Seq<char>,
    /// `refname NUL tip` lines of the local branches, and the next to look at
    pub heads: Seq<Seq<char>>,
    pub hidx: int,
}

/// The captured output of a command that must succeed (`git_out`):
/// trimmed standard output, or the error.
pub open spec fn output_of(ev: EventModel) -> Result<Seq<char>, Seq<char>> {
    match ev {
        EventModel::SpawnFailed(m) => Err(m),
        EventModel::Exited { success, stdout, stderr } => if success {
            Ok(trim(stdout))
        } else {
            Err(failure_text(stderr, "git command failed"@))
        },
    }
}

/// The same, standard output untrimmed.
pub open spec fn raw_output_of(ev: EventModel) -> Result<Seq<char>, Seq<char>> {
    match ev {
        EventModel::SpawnFailed(m) => Err(m),
        EventModel::Exited { success, stdout, stderr } => if success {
            Ok(stdout)
        } else {
            Err(failure_text(stderr, "git command failed"@))
        },
    }
}

/// The result of a command that writes (`run_git`, amend, commit-tree):
/// the trimmed standard output, or the error with its own fallback text.
pub open spec fn write_result(ev: EventModel, fallback: Seq<char>) -> Result<Seq<char>, Seq<char>> {
    match ev {
        EventModel::SpawnFailed(m) => Err(m),
        EventModel::Exited { success, stdout, stderr } => if success {
            Ok(trim(stdout))
        } else {
            Err(failure_text(stderr, fallback))
        },
    }
}

pub open spec fn finish(m: RewriteModel, r: Result<(), Seq<char>>) -> (RewriteModel, NextModel) {
    (RewriteModel { phase: Phase::Done, ..m }, NextModel::Finished(r))
}

pub open spec fn fail(m: RewriteModel, e: Seq<char>) -> (RewriteModel, NextModel) {
    finish(m, Err(e))
}

pub open spec fn run(m: RewriteModel, phase: Phase, c: CommandModel) -> (RewriteModel, NextModel) {
    (RewriteModel { phase, ..m }, NextModel::Run(c))
}

/// A branch line that must move: its name and the re-created tip, unless
/// it is the current branch (moved last) or its tip was not re-created.
pub open spec fn branch_update(line: Seq<char>, refname: Seq<char>, map: Seq<(Seq<char>, Seq<char>)>) -> Option<(Seq<char>, Seq<char>)> {
    let f = split_all(line, '\0');
    if f.len() < 2 || f[0] == refname {
        None
    } else {
        match lookup(map, f[1]) {
            Some(n) => Some((f[0], n)),
            None => None,
        }
    }
}

/// The first branch line at or after `j` that must move.
pub open spec fn next_update(m: RewriteModel, j: int) -> int
    decreases m.heads.len() - j,
{
    if j < 0 || j >= m.heads.len() {
        m.heads.len() as int
    } else if branch_update(m.heads[j], m.refname, m.rewritten) is Some {
        j
    } else {
        next_update(m, j + 1)
    }
}

/// Moves the next branch that must move, or, when none is left, the
/// current branch.
pub open spec fn next_branch(m: RewriteModel) -> (RewriteModel, NextModel) {
    let j = next_update(m, m.hidx);
    if j < m.heads.len() {
        let (name, new) = branch_update(m.heads[j], m.refname, m.rewritten)->0;
        run(RewriteModel { hidx: j + 1, ..m }, Phase::UpdateBranch, update_command(name, new))
    } else {
        run(RewriteModel { hidx: j, ..m }, Phase::UpdateCurrent, update_current_command(m.refname, m.new_tip, m.head))
    }
}

/// Reads the next descendant, or, when all are re-created, the current
/// branch (the new tip is the re-created old tip; the edited commit must
/// be an ancestor of it).
pub open spec fn next_descendant(m: RewriteModel) -> (RewriteModel, NextModel) {
    if m.idx < m.list.len() {
        run(m, Phase::ReadFields, fields_command(m.list[m.idx]))
    } else {
        match lookup(m.rewritten, m.head) {
            None => fail(m, "commit is not on the current branch"@),
            Some(t) => run(RewriteModel { new_tip: t, ..m }, Phase::ReadSymref, symref_command()),
        }
    }
}

/// The state and the next step after the outcome `ev` of the command of
/// phase `m.phase`.
pub open spec fn rewrite_step(m: RewriteModel, ev: EventModel) -> (RewriteModel, NextModel) {
    match m.phase {
        Phase::CheckClean => match ev {
            EventModel::SpawnFailed(e) => fail(m, e),
            EventModel::Exited { success, stdout, stderr } => if success && trim(stdout).len() == 0 {
                run(m, Phase::ResolveHash, resolve_command(m.hash))
            } else {
                fail(m, "uncommitted changes in the work tree"@)
            },
        },
        Phase::ResolveHash => match ev {
            EventModel::SpawnFailed(e) => fail(m, e),
            EventModel::Exited { success, stdout, stderr } => if success {
                run(RewriteModel { full: trim(stdout), ..m }, Phase::ReadHead, head_command())
            } else {
                fail(m, "commit "@ + m.hash + " not found"@)
            },
        },
        Phase::ReadHead => match ev {
            EventModel::SpawnFailed(e) => fail(m, e),
            EventModel::Exited { success, stdout, stderr } => {
                let head = trim(stdout);
                if m.full == head {
                    run(RewriteModel { head, ..m }, Phase::Amend, amend_command(m.details))
                } else {
                    run(RewriteModel { head, ..m }, Phase::CheckAncestor, ancestor_command(m.full, head))
                }
            },
        },
        Phase::CheckAncestor => match ev {
            EventModel::SpawnFailed(e) => fail(m, e),
            EventModel::Exited { success, stdout, stderr } => if success {
                run(m, Phase::ReadTree, tree_command(m.full))
            } else {
                fail(m, "commit is not on the current branch"@)
            },
        },
        Phase::Amend => match write_result(ev, "git commit --amend failed"@) {
            Err(e) => fail(m, e),
            Ok(_) => finish(m, Ok(())),
        },
        Phase::ReadTree => match output_of(ev) {
            Err(e) => fail(m, e),
            Ok(t) => run(RewriteModel { tree: t, ..m }, Phase::ReadParents, parents_command(m.full)),
        },
        Phase::ReadParents => match output_of(ev) {
            Err(e) => fail(m, e),
            Ok(p) => run(m, Phase::CreateEdited, create_edited_command(m.tree, p, m.details)),
        },
        Phase::CreateEdited => match write_result(ev, "git commit-tree failed"@) {
            Err(e) => fail(m, e),
            Ok(edited) => run(
                RewriteModel { rewritten: seq![(m.full, edited)], ..m },
                Phase::ListDescendants,
                descendants_command(m.full, m.head),
            ),
        },
        Phase::ListDescendants => match output_of(ev) {
            Err(e) => fail(m, e),
            Ok(l) => next_descendant(RewriteModel { list: lines(l), idx: 0, ..m }),
        },
        Phase::ReadFields => match output_of(ev) {
            Err(e) => fail(m, e),
            Ok(f) => if split_all(f, '\0').len() != 8 {
                fail(m, "unexpected git output"@)
            } else {
                run(
                    RewriteModel { fields: split_all(f, '\0'), ..m },
                    Phase::ReadMessage,
                    message_command(m.list[m.idx]),
                )
            },
        },
        Phase::ReadMessage => match raw_output_of(ev) {
            Err(e) => fail(m, e),
            Ok(msg) => run(
                m,
                Phase::CreateDescendant,
                create_descendant_command(m.fields, m.rewritten, without_terminator(msg)),
            ),
        },
        Phase::CreateDescendant => match write_result(ev, "git commit-tree failed"@) {
            Err(e) => fail(m, e),
            Ok(new) => next_descendant(
                RewriteModel {
                    rewritten: m.rewritten.push((m.list[m.idx], new)),
                    idx: m.idx + 1,
                    ..m
                },
            ),
        },
        Phase::ReadSymref => match ev {
            EventModel::SpawnFailed(e) => fail(m, e),
            EventModel::Exited { success, stdout, stderr } => run(
                RewriteModel {
                    refname: if success {
                        trim(stdout)
                    } else {
                        "HEAD"@
                    },
                    ..m
                },
                Phase::ListHeads,
                heads_command(),
            ),
        },
        Phase::ListHeads => match output_of(ev) {
            Err(e) => fail(m, e),
            Ok(h) => next_branch(RewriteModel { heads: lines(h), hidx: 0, ..m }),
        },
        Phase::UpdateBranch => match write_result(ev, "git command failed"@) {
            Err(e) => fail(m, e),
            Ok(_) => next_branch(m),
        },
        Phase::UpdateCurrent => match write_result(ev, "git command failed"@) {
            Err(e) => fail(m, e),
            Ok(_) => finish(m, Ok(())),
        },
        Phase::Done => finish(m, Err("the rewrite has ended"@)),
    }
}

// ---------------------------------------------------------------------------
// Building the commands
// ---------------------------------------------------------------------------

fn lit(s: &str) -> (r: Vec<char>)
    ensures
        r@ == s@,
{
    chars_of(s)
}

fn dup(s: &Vec<char>) -> (r: Vec<char>)
    ensures
        r@ == s@,
{
    let r = copy_range(s, 0, s.len());
    assert(s@.subrange(0, s@.len() as int) =~= s@);
    r
}

pub open spec fn pair_views(v: Seq<(Vec<char>, Vec<char>)>) -> Seq<(Seq<char>, Seq<char>)> {
    v.map_values(|e: (Vec<char>, Vec<char>)| (e.0@, e.1@))
}

/// The command with these arguments, environment and input.
fn make_command(args: &Vec<Vec<char>>, env: &Vec<(Vec<char>, Vec<char>)>, stdin: Option<&Vec<char>>) -> (r: GitCommand)
    ensures
        r@.args == seqs(args@),
        r@.env == pair_views(env@),
        r@.stdin == match stdin {
            Some(s) => Some(s@),
            None => None,
        },
{
    let a = strings_of(args);
    let mut e: Vec<(String, String)> = Vec::new();
    let mut i: usize = 0;
    while i < env.len()
        invariant
            i <= env.len(),
            env_views(e@) == pair_views(env@).take(i as int),
        decreases env.len() - i,
    {
        let x = (string_of(&env[i].0), string_of(&env[i].1));
        let ghost before = e@;
        assert(env_views(before).len() == i);
        e.push(x);
        assert(e@ == before.push(x));
        assert forall|j: int| 0 <= j < i + 1 implies env_views(e@)[j] == pair_views(env@).take(i + 1)[j] by {
            if j < i {
                assert(env_views(before)[j] == pair_views(env@).take(i as int)[j]);
                assert(e@[j] == before[j]);
            }
        }
        assert(env_views(e@) =~= pair_views(env@).take(i + 1));
        i = i + 1;
    }
    assert(pair_views(env@).take(i as int) =~= pair_views(env@));
    let input = match stdin {
        Some(s) => Some(string_of(s)),
        None => None,
    };
    GitCommand { args: a, env: e, stdin: input }
}

pub(crate) fn plain_command(args: &Vec<Vec<char>>) -> (r: GitCommand)
    ensures
        r@ == plain(seqs(args@)),
{
    let env: Vec<(Vec<char>, Vec<char>)> = Vec::new();
    let r = make_command(args, &env, None);
    assert(pair_views(env@) =~= Seq::<(Seq<char>, Seq<char>)>::empty());
    r
}

fn push_arg(args: &mut Vec<Vec<char>>, a: Vec<char>)
    ensures
        seqs(final(args)@) == seqs(old(args)@).push(a@),
{
    args.push(a);
    assert(seqs(args@) =~= seqs(old(args)@).push(a@));
}

fn status_cmd() -> (r: GitCommand)
    ensures
        r@ == status_command(),
{
    let mut a: Vec<Vec<char>> = Vec::new();
    push_arg(&mut a, lit("status"));
    push_arg(&mut a, lit("--porcelain"));
    assert(seqs(a@) =~= seq!["status"@, "--porcelain"@]);
    plain_command(&a)
}

fn resolve_cmd(hash: &Vec<char>) -> (r: GitCommand)
    ensures
        r@ == resolve_command(hash@),
{
    let mut a: Vec<Vec<char>> = Vec::new();
    push_arg(&mut a, lit("rev-parse"));
    push_arg(&mut a, lit("-q"));
    push_arg(&mut a, lit("--verify"));
    push_arg(&mut a, concat(hash, &lit("^{commit}")));
    assert(seqs(a@) =~= seq!["rev-parse"@, "-q"@, "--verify"@, hash@ + "^{commit}"@]);
    plain_command(&a)
}

fn head_cmd() -> (r: GitCommand)
    ensures
        r@ == head_command(),
{
    let mut a: Vec<Vec<char>> = Vec::new();
    push_arg(&mut a, lit("rev-parse"));
    push_arg(&mut a, lit("-q"));
    push_arg(&mut a, lit("HEAD"));
    assert(seqs(a@) =~= seq!["rev-parse"@, "-q"@, "HEAD"@]);
    plain_command(&a)
}

/// The details as characters.
struct DetailsChars {
    author: Vec<char>,
    author_email: Vec<char>,
    author_date: Vec<char>,
    committer: Vec<char>,
    committer_email: Vec<char>,
    committer_date: Vec<char>,
    message: Vec<char>,
}

impl DetailsChars {
    spec fn model(&self) -> DetailsModel {
        DetailsModel {
            author: self.author@,
            author_email: self.author_email@,
            author_date: self.author_date@,
            committer: self.committer@,
            committer_email: self.committer_email@,
            committer_date: self.committer_date@,
            message: self.message@,
        }
    }
}

fn push_env(env: &mut Vec<(Vec<char>, Vec<char>)>, k: Vec<char>, v: Vec<char>)
    ensures
        pair_views(final(env)@) == pair_views(old(env)@).push((k@, v@)),
{
    let ghost kv = (k@, v@);
    env.push((k, v));
    assert(pair_views(env@) =~= pair_views(old(env)@).push(kv));
}

fn amend_cmd(d: &DetailsChars) -> (r: GitCommand)
    ensures
        r@ == amend_command(d.model()),
{
    let mut a: Vec<Vec<char>> = Vec::new();
    push_arg(&mut a, lit("commit"));
    push_arg(&mut a, lit("--amend"));
    push_arg(&mut a, lit("-m"));
    push_arg(&mut a, dup(&d.message));
    push_arg(&mut a, lit("--author"));
    let who = concat(&concat(&concat(&d.author, &lit(" <")), &d.author_email), &lit(">"));
    push_arg(&mut a, who);
    push_arg(&mut a, lit("--date"));
    push_arg(&mut a, dup(&d.author_date));
    let mut e: Vec<(Vec<char>, Vec<char>)> = Vec::new();
    push_env(&mut e, lit("GIT_COMMITTER_NAME"), dup(&d.committer));
    push_env(&mut e, lit("GIT_COMMITTER_EMAIL"), dup(&d.committer_email));
    push_env(&mut e, lit("GIT_COMMITTER_DATE"), dup(&d.committer_date));
    let ghost m = d.model();
    assert(seqs(a@) =~= amend_command(m).args);
    assert(pair_views(e@) =~= amend_command(m).env);
    make_command(&a, &e, None)
}

fn tree_cmd(full: &Vec<char>) -> (r: GitCommand)
    ensures
        r@ == tree_command(full@),
{
    let mut a: Vec<Vec<char>> = Vec::new();
    push_arg(&mut a, lit("rev-parse"));
    push_arg(&mut a, lit("-q"));
    push_arg(&mut a, lit("--verify"));
    push_arg(&mut a, concat(full, &lit("^{tree}")));
    assert(seqs(a@) =~= seq!["rev-parse"@, "-q"@, "--verify"@, full@ + "^{tree}"@]);
    plain_command(&a)
}

fn parents_cmd(full: &Vec<char>) -> (r: GitCommand)
    ensures
        r@ == parents_command(full@),
{
    let mut a: Vec<Vec<char>> = Vec::new();
    push_arg(&mut a, lit("log"));
    push_arg(&mut a, lit("-1"));
    push_arg(&mut a, lit("--format=%P"));
    push_arg(&mut a, dup(full));
    assert(seqs(a@) =~= seq!["log"@, "-1"@, "--format=%P"@, full@]);
    plain_command(&a)
}

/// Appends `-p <parent>` for every parent.
fn push_parent_args(a: &mut Vec<Vec<char>>, parents: &Vec<Vec<char>>)
    ensures
        seqs(final(a)@) == seqs(old(a)@) + parent_args(seqs(parents@)),
{
    let ghost base = seqs(a@);
    let mut i: usize = 0;
    assert(seqs(parents@).take(0) =~= Seq::<Seq<char>>::empty());
    assert(base + parent_args(Seq::<Seq<char>>::empty()) =~= base);
    while i < parents.len()
        invariant
            i <= parents.len(),
            seqs(a@) == base + parent_args(seqs(parents@).take(i as int)),
        decreases parents.len() - i,
    {
        let ghost t = seqs(parents@).take(i + 1);
        assert(t.drop_last() =~= seqs(parents@).take(i as int));
        assert(t.last() == parents@[i as int]@);
        push_arg(a, lit("-p"));
        push_arg(a, dup(&parents[i]));
        assert(seqs(a@) =~= base + parent_args(t));
        i = i + 1;
    }
    assert(seqs(parents@).take(i as int) =~= seqs(parents@));
}

fn identity(
    e: &mut Vec<(Vec<char>, Vec<char>)>,
    an: &Vec<char>,
    ae: &Vec<char>,
    ad: &Vec<char>,
    cn: &Vec<char>,
    ce: &Vec<char>,
    cd: &Vec<char>,
)
    requires
        old(e)@.len() == 0,
    ensures
        pair_views(final(e)@) == identity_env(an@, ae@, ad@, cn@, ce@, cd@),
{
    assert(pair_views(e@) =~= Seq::<(Seq<char>, Seq<char>)>::empty());
    push_env(e, lit("GIT_AUTHOR_NAME"), dup(an));
    push_env(e, lit("GIT_AUTHOR_EMAIL"), dup(ae));
    push_env(e, lit("GIT_AUTHOR_DATE"), dup(ad));
    push_env(e, lit("GIT_COMMITTER_NAME"), dup(cn));
    push_env(e, lit("GIT_COMMITTER_EMAIL"), dup(ce));
    push_env(e, lit("GIT_COMMITTER_DATE"), dup(cd));
    assert(pair_views(e@) =~= identity_env(an@, ae@, ad@, cn@, ce@, cd@));
}

fn create_edited_cmd(tree: &Vec<char>, parents: &Vec<char>, d: &DetailsChars) -> (r: GitCommand)
    ensures
        r@ == create_edited_command(tree@, parents@, d.model()),
{
    let mut a: Vec<Vec<char>> = Vec::new();
    push_arg(&mut a, lit("commit-tree"));
    push_arg(&mut a, dup(tree));
    let ws = words_exec(parents);
    push_parent_args(&mut a, &ws);
    push_arg(&mut a, lit("-m"));
    push_arg(&mut a, dup(&d.message));
    let mut e: Vec<(Vec<char>, Vec<char>)> = Vec::new();
    identity(
        &mut e,
        &d.author,
        &d.author_email,
        &d.author_date,
        &d.committer,
        &d.committer_email,
        &d.committer_date,
    );
    let ghost m = d.model();
    assert(seqs(a@) =~= create_edited_command(tree@, parents@, m).args);
    make_command(&a, &e, None)
}

fn descendants_cmd(full: &Vec<char>, head: &Vec<char>) -> (r: GitCommand)
    ensures
        r@ == descendants_command(full@, head@),
{
    let mut a: Vec<Vec<char>> = Vec::new();
    push_arg(&mut a, lit("rev-list"));
    push_arg(&mut a, lit("--topo-order"));
    push_arg(&mut a, lit("--reverse"));
    push_arg(&mut a, concat(&concat(full, &lit("..")), head));
    assert(seqs(a@) =~= seq!["rev-list"@, "--topo-order"@, "--reverse"@, full@ + ".."@ + head@]);
    plain_command(&a)
}

fn ancestor_cmd(full: &Vec<char>, head: &Vec<char>) -> (r: GitCommand)
    ensures
        r@ == ancestor_command(full@, head@),
{
    let mut a: Vec<Vec<char>> = Vec::new();
    push_arg(&mut a, lit("merge-base"));
    push_arg(&mut a, lit("--is-ancestor"));
    push_arg(&mut a, dup(full));
    push_arg(&mut a, dup(head));
    assert(seqs(a@) =~= seq!["merge-base"@, "--is-ancestor"@, full@, head@]);
    plain_command(&a)
}

fn without_terminator_exec(out: &Vec<char>) -> (r: Vec<char>)
    ensures
        r@ == without_terminator(out@),
{
    if out.len() > 0 && out[out.len() - 1] == '\n' {
        let r = copy_range(out, 0, out.len() - 1);
        assert(r@ =~= out@.drop_last());
        r
    } else {
        dup(out)
    }
}

fn fields_cmd(h: &Vec<char>) -> (r: GitCommand)
    ensures
        r@ == fields_command(h@),
{
    let mut a: Vec<Vec<char>> = Vec::new();
    push_arg(&mut a, lit("log"));
    push_arg(&mut a, lit("-1"));
    push_arg(&mut a, lit("--date=raw"));
    push_arg(&mut a, lit("--format=%T%x00%P%x00%an%x00%ae%x00%ad%x00%cn%x00%ce%x00%cd"));
    push_arg(&mut a, dup(h));
    assert(seqs(a@) =~= seq![
        "log"@,
        "-1"@,
        "--date=raw"@,
        "--format=%T%x00%P%x00%an%x00%ae%x00%ad%x00%cn%x00%ce%x00%cd"@,
        h@,
    ]);
    plain_command(&a)
}

fn message_cmd(h: &Vec<char>) -> (r: GitCommand)
    ensures
        r@ == message_command(h@),
{
    let mut a: Vec<Vec<char>> = Vec::new();
    push_arg(&mut a, lit("log"));
    push_arg(&mut a, lit("-1"));
    push_arg(&mut a, lit("--format=%B"));
    push_arg(&mut a, dup(h));
    assert(seqs(a@) =~= seq!["log"@, "-1"@, "--format=%B"@, h@]);
    plain_command(&a)
}

/// [`lookup`] of a hash.
fn lookup_exec(map: &Vec<(Vec<char>, Vec<char>)>, h: &Vec<char>) -> (r: Option<Vec<char>>)
    ensures
        match r {
            Some(n) => lookup(pair_views(map@), h@) == Some(n@),
            None => lookup(pair_views(map@), h@) is None,
        },
{
    let ghost pv = pair_views(map@);
    let mut j: usize = map.len();
    assert(pv.take(j as int) =~= pv);
    while j > 0
        invariant
            j <= map.len(),
            pv == pair_views(map@),
            lookup(pv, h@) == lookup(pv.take(j as int), h@),
        decreases j,
    {
        assert(pv.take(j as int).drop_last() =~= pv.take(j - 1));
        assert(pv.take(j as int).last() == pv[j - 1]);
        if chars_eq(&map[j - 1].0, h) {
            return Some(dup(&map[j - 1].1));
        }
        j = j - 1;
    }
    None
}

fn create_descendant_cmd(
    f: &Vec<Vec<char>>,
    map: &Vec<(Vec<char>, Vec<char>)>,
    message: &Vec<char>,
) -> (r: GitCommand)
    requires
        f.len() == 8,
    ensures
        r@ == create_descendant_command(seqs(f@), pair_views(map@), message@),
{
    let ghost fs = seqs(f@);
    let ghost pv = pair_views(map@);
    let ws = words_exec(&f[1]);
    let ghost wsv = seqs(ws@);
    let mut mapped: Vec<Vec<char>> = Vec::new();
    let mut i: usize = 0;
    while i < ws.len()
        invariant
            i <= ws.len(),
            wsv == seqs(ws@),
            pv == pair_views(map@),
            seqs(mapped@) == new_parents(pv, wsv.take(i as int)),
        decreases ws.len() - i,
    {
        let p = match lookup_exec(map, &ws[i]) {
            Some(n) => n,
            None => dup(&ws[i]),
        };
        let ghost before = mapped@;
        assert(ws@[i as int]@ == wsv[i as int]);
        assert(p@ == new_parent(pv, wsv[i as int]));
        mapped.push(p);
        assert(seqs(mapped@) =~= seqs(before).push(p@));
        assert(wsv.take(i + 1) =~= wsv.take(i as int).push(wsv[i as int]));
        assert(new_parents(pv, wsv.take(i + 1)) =~= new_parents(pv, wsv.take(i as int)).push(
            new_parent(pv, wsv[i as int]),
        ));
        i = i + 1;
    }
    assert(wsv.take(i as int) =~= wsv);
    assert(wsv == words(fs[1]));
    let mut a: Vec<Vec<char>> = Vec::new();
    push_arg(&mut a, lit("commit-tree"));
    push_arg(&mut a, dup(&f[0]));
    push_parent_args(&mut a, &mapped);
    let mut e: Vec<(Vec<char>, Vec<char>)> = Vec::new();
    identity(&mut e, &f[2], &f[3], &f[4], &f[5], &f[6], &f[7]);
    proof {
        assert forall|k: int| 0 <= k < 8 implies fs[k] == f@[k]@ by {}
        assert(seqs(a@) =~= create_descendant_command(fs, pv, message@).args);
    }
    make_command(&a, &e, Some(message))
}

fn symref_cmd() -> (r: GitCommand)
    ensures
        r@ == symref_command(),
{
    let mut a: Vec<Vec<char>> = Vec::new();
    push_arg(&mut a, lit("symbolic-ref"));
    push_arg(&mut a, lit("-q"));
    push_arg(&mut a, lit("HEAD"));
    assert(seqs(a@) =~= seq!["symbolic-ref"@, "-q"@, "HEAD"@]);
    plain_command(&a)
}

fn heads_cmd() -> (r: GitCommand)
    ensures
        r@ == heads_command(),
{
    let mut a: Vec<Vec<char>> = Vec::new();
    push_arg(&mut a, lit("for-each-ref"));
    push_arg(&mut a, lit("--format=%(refname)%00%(objectname)"));
    push_arg(&mut a, lit("refs/heads"));
    assert(seqs(a@) =~= seq!["for-each-ref"@, "--format=%(refname)%00%(objectname)"@, "refs/heads"@]);
    plain_command(&a)
}

fn update_cmd(name: &Vec<char>, new: &Vec<char>) -> (r: GitCommand)
    ensures
        r@ == update_command(name@, new@),
{
    let mut a: Vec<Vec<char>> = Vec::new();
    push_arg(&mut a, lit("update-ref"));
    push_arg(&mut a, lit("-m"));
    push_arg(&mut a, lit("gitrebase: edit commit details"));
    push_arg(&mut a, dup(name));
    push_arg(&mut a, dup(new));
    assert(seqs(a@) =~= seq!["update-ref"@, "-m"@, "gitrebase: edit commit details"@, name@, new@]);
    plain_command(&a)
}

fn update_current_cmd(refname: &Vec<char>, new_tip: &Vec<char>, head: &Vec<char>) -> (r: GitCommand)
    ensures
        r@ == update_current_command(refname@, new_tip@, head@),
{
    let mut a: Vec<Vec<char>> = Vec::new();
    push_arg(&mut a, lit("update-ref"));
    push_arg(&mut a, lit("-m"));
    push_arg(&mut a, lit("gitrebase: edit commit details"));
    push_arg(&mut a, dup(refname));
    push_arg(&mut a, dup(new_tip));
    push_arg(&mut a, dup(head));
    assert(seqs(a@) =~= seq![
        "update-ref"@,
        "-m"@,
        "gitrebase: edit commit details"@,
        refname@,
        new_tip@,
        head@,
    ]);
    plain_command(&a)
}

// ---------------------------------------------------------------------------
// The rewrite
// ---------------------------------------------------------------------------

/// A commit-details rewrite in progress (see [`rewrite_step`]).
pub struct Rewrite {
    phase: Phase,
    hash: Vec<char>,
    details: DetailsChars,
    full: Vec<char>,
    head: Vec<char>,
    tree: Vec<char>,
    list: Vec<Vec<char>>,
    idx: usize,
    fields: Vec<Vec<char>>,
    rewritten: Vec<(Vec<char>, Vec<char>)>,
    refname: Vec<char>,
    new_tip: Vec<char>,
    heads: Vec<Vec<char>>,
    hidx: usize,
}

impl View for Rewrite {
    type V = RewriteModel;

    closed spec fn view(&self) -> RewriteModel {
        RewriteModel {
            phase: self.phase,
            hash: self.hash@,
            details: self.details.model(),
            full: self.full@,
            head: self.head@,
            tree: self.tree@,
            list: seqs(self.list@),
            idx: self.idx as int,
            fields: seqs(self.fields@),
            rewritten: pair_views(self.rewritten@),
            refname: self.refname@,
            new_tip: self.new_tip@,
            heads: seqs(self.heads@),
            hidx: self.hidx as int,
        }
    }
}

/// The state a rewrite starts in: about to check the work tree.
pub open spec fn initial(hash: Seq<char>, d: DetailsModel) -> RewriteModel {
    RewriteModel {
        phase: Phase::CheckClean,
        hash,
        details: d,
        full: Seq::empty(),
        head: Seq::empty(),
        tree: Seq::empty(),
        list: Seq::empty(),
        idx: 0,
        fields: Seq::empty(),
        rewritten: Seq::empty(),
        refname: Seq::empty(),
        new_tip: Seq::empty(),
        heads: Seq::empty(),
        hidx: 0,
    }
}

pub open spec fn result_view(r: Result<Vec<char>, Vec<char>>) -> Result<Seq<char>, Seq<char>> {
    match r {
        Ok(v) => Ok(v@),
        Err(e) => Err(e@),
    }
}

fn output_exec(ev: &GitEvent) -> (r: Result<Vec<char>, Vec<char>>)
    ensures
        result_view(r) == output_of(ev@),
{
    match ev {
        GitEvent::SpawnFailed(m) => Err(chars_of(m.as_str())),
        GitEvent::Exited { success, stdout, stderr } => if *success {
            Ok(trim_exec(&chars_of(stdout.as_str())))
        } else {
            Err(chars_of(failure_message(stderr.as_str(), "git command failed").as_str()))
        },
    }
}

fn raw_output_exec(ev: &GitEvent) -> (r: Result<Vec<char>, Vec<char>>)
    ensures
        result_view(r) == raw_output_of(ev@),
{
    match ev {
        GitEvent::SpawnFailed(m) => Err(chars_of(m.as_str())),
        GitEvent::Exited { success, stdout, stderr } => if *success {
            Ok(chars_of(stdout.as_str()))
        } else {
            Err(chars_of(failure_message(stderr.as_str(), "git command failed").as_str()))
        },
    }
}

fn write_result_exec(ev: &GitEvent, fallback: &str) -> (r: Result<Vec<char>, Vec<char>>)
    ensures
        result_view(r) == write_result(ev@, fallback@),
{
    match ev {
        GitEvent::SpawnFailed(m) => Err(chars_of(m.as_str())),
        GitEvent::Exited { success, stdout, stderr } => if *success {
            Ok(trim_exec(&chars_of(stdout.as_str())))
        } else {
            Err(chars_of(failure_message(stderr.as_str(), fallback).as_str()))
        },
    }
}

fn branch_update_exec(line: &Vec<char>, refname: &Vec<char>, map: &Vec<(Vec<char>, Vec<char>)>) -> (r: Option<(Vec<char>, Vec<char>)>)
    ensures
        match r {
            Some((n, t)) => branch_update(line@, refname@, pair_views(map@)) == Some((n@, t@)),
            None => branch_update(line@, refname@, pair_views(map@)) is None,
        },
{
    let f = split_all_exec(line, '\0');
    if f.len() < 2 {
        return None;
    }
    assert(seqs(f@)[0] == f@[0]@ && seqs(f@)[1] == f@[1]@);
    if chars_eq(&f[0], refname) {
        return None;
    }
    match lookup_exec(map, &f[1]) {
        Some(n) => Some((dup(&f[0]), n)),
        None => None,
    }
}

impl Rewrite {
    /// The indices it works with are in range.
    pub closed spec fn wf(&self) -> bool {
        &&& self.idx <= self.list.len()
        &&& self.hidx <= self.heads.len()
        &&& (self.phase == Phase::ReadFields || self.phase == Phase::ReadMessage || self.phase
            == Phase::CreateDescendant) ==> self.idx < self.list.len()
        &&& (self.phase == Phase::ReadMessage || self.phase == Phase::CreateDescendant)
            ==> self.fields.len() == 8
    }

    /// Starts rewriting the details of commit `hash` to `d`: the state and
    /// the first command (the work-tree check).
    pub fn start(hash: &str, d: &CommitDetails) -> (r: (Rewrite, GitCommand))
        ensures
            r.0.wf(),
            r.0@ == initial(hash@, d@),
            r.1@ == status_command(),
    {
        let rw = Rewrite {
            phase: Phase::CheckClean,
            hash: chars_of(hash),
            details: DetailsChars {
                author: chars_of(d.author.as_str()),
                author_email: chars_of(d.author_email.as_str()),
                author_date: chars_of(d.author_date.as_str()),
                committer: chars_of(d.committer.as_str()),
                committer_email: chars_of(d.committer_email.as_str()),
                committer_date: chars_of(d.committer_date.as_str()),
                message: chars_of(d.message.as_str()),
            },
            full: Vec::new(),
            head: Vec::new(),
            tree: Vec::new(),
            list: Vec::new(),
            idx: 0,
            fields: Vec::new(),
            rewritten: Vec::new(),
            refname: Vec::new(),
            new_tip: Vec::new(),
            heads: Vec::new(),
            hidx: 0,
        };
        assert(seqs(rw.list@) =~= Seq::<Seq<char>>::empty());
        assert(seqs(rw.fields@) =~= Seq::<Seq<char>>::empty());
        assert(seqs(rw.heads@) =~= Seq::<Seq<char>>::empty());
        assert(pair_views(rw.rewritten@) =~= Seq::<(Seq<char>, Seq<char>)>::empty());
        assert(rw@ =~= initial(hash@, d@));
        (rw, status_cmd())
    }

    fn fail_with(&mut self, e: Vec<char>) -> (r: Next)
        requires
            old(self).idx <= old(self).list.len(),
            old(self).hidx <= old(self).heads.len(),
        ensures
            final(self)@ == (RewriteModel { phase: Phase::Done, ..old(self)@ }),
            final(self).wf(),
            r@ == NextModel::Finished(Err(e@)),
    {
        self.phase = Phase::Done;
        Next::Finished(Err(string_of(&e)))
    }

    fn succeed(&mut self) -> (r: Next)
        requires
            old(self).idx <= old(self).list.len(),
            old(self).hidx <= old(self).heads.len(),
        ensures
            final(self)@ == (RewriteModel { phase: Phase::Done, ..old(self)@ }),
            final(self).wf(),
            r@ == NextModel::Finished(Ok(())),
    {
        self.phase = Phase::Done;
        Next::Finished(Ok(()))
    }

    fn next_descendant_exec(&mut self) -> (r: Next)
        requires
            old(self).idx <= old(self).list.len(),
            old(self).hidx <= old(self).heads.len(),
        ensures
            final(self).wf(),
            (final(self)@, r@) == next_descendant(old(self)@),
    {
        if self.idx < self.list.len() {
            let c = fields_cmd(&self.list[self.idx]);
            assert(seqs(self.list@)[self.idx as int] == self.list@[self.idx as int]@);
            self.phase = Phase::ReadFields;
            return Next::Run(c);
        }
        match lookup_exec(&self.rewritten, &self.head) {
            None => {
                let e = lit("commit is not on the current branch");
                self.fail_with(e)
            },
            Some(t) => {
                self.new_tip = t;
                self.phase = Phase::ReadSymref;
                Next::Run(symref_cmd())
            },
        }
    }

    fn next_branch_exec(&mut self) -> (r: Next)
        requires
            old(self).idx <= old(self).list.len(),
            old(self).hidx <= old(self).heads.len(),
        ensures
            final(self).wf(),
            (final(self)@, r@) == next_branch(old(self)@),
    {
        let ghost m = self@;
        let mut j = self.hidx;
        while j < self.heads.len()
            invariant
                m == self@,
                m == old(self)@,
                self.idx <= self.list.len(),
                self.hidx <= j <= self.heads.len(),
                next_update(m, m.hidx) == next_update(m, j as int),
            decreases self.heads.len() - j,
        {
            assert(seqs(self.heads@)[j as int] == self.heads@[j as int]@);
            match branch_update_exec(&self.heads[j], &self.refname, &self.rewritten) {
                Some((name, new)) => {
                    assert(next_update(m, j as int) == j);
                    assert(branch_update(m.heads[j as int], m.refname, m.rewritten)->0 == (name@, new@));
                    let c = update_cmd(&name, &new);
                    self.hidx = j + 1;
                    self.phase = Phase::UpdateBranch;
                    return Next::Run(c);
                },
                None => {},
            }
            j = j + 1;
        }
        assert(next_update(m, j as int) == m.heads.len());
        let c = update_current_cmd(&self.refname, &self.new_tip, &self.head);
        self.hidx = j;
        self.phase = Phase::UpdateCurrent;
        Next::Run(c)
    }

    /// The next step after the outcome `ev` of the last command.
    pub fn advance(&mut self, ev: GitEvent) -> (r: Next)
        requires
            old(self).wf(),
        ensures
            final(self).wf(),
            (final(self)@, r@) == rewrite_step(old(self)@, ev@),
    {
        let ghost m = self@;
        match self.phase {
            Phase::CheckClean => match &ev {
                GitEvent::SpawnFailed(e) => self.fail_with(chars_of(e.as_str())),
                GitEvent::Exited { success, stdout, .. } => {
                    if *success && trim_exec(&chars_of(stdout.as_str())).len() == 0 {
                        self.phase = Phase::ResolveHash;
                        Next::Run(resolve_cmd(&self.hash))
                    } else {
                        self.fail_with(lit("uncommitted changes in the work tree"))
                    }
                },
            },
            Phase::ResolveHash => match &ev {
                GitEvent::SpawnFailed(e) => self.fail_with(chars_of(e.as_str())),
                GitEvent::Exited { success, stdout, .. } => {
                    if *success {
                        self.full = trim_exec(&chars_of(stdout.as_str()));
                        self.phase = Phase::ReadHead;
                        Next::Run(head_cmd())
                    } else {
                        let e = concat(&concat(&lit("commit "), &self.hash), &lit(" not found"));
                        self.fail_with(e)
                    }
                },
            },
            Phase::ReadHead => match &ev {
                GitEvent::SpawnFailed(e) => self.fail_with(chars_of(e.as_str())),
                GitEvent::Exited { stdout, .. } => {
                    self.head = trim_exec(&chars_of(stdout.as_str()));
                    if chars_eq(&self.full, &self.head) {
                        self.phase = Phase::Amend;
                        Next::Run(amend_cmd(&self.details))
                    } else {
                        self.phase = Phase::CheckAncestor;
                        Next::Run(ancestor_cmd(&self.full, &self.head))
                    }
                },
            },
            Phase::CheckAncestor => match &ev {
                GitEvent::SpawnFailed(e) => self.fail_with(chars_of(e.as_str())),
                GitEvent::Exited { success, .. } => {
                    if *success {
                        self.phase = Phase::ReadTree;
                        Next::Run(tree_cmd(&self.full))
                    } else {
                        self.fail_with(chars_of("commit is not on the current branch"))
                    }
                },
            },
            Phase::Amend => match write_result_exec(&ev, "git commit --amend failed") {
                Err(e) => self.fail_with(e),
                Ok(_) => self.succeed(),
            },
            Phase::ReadTree => match output_exec(&ev) {
                Err(e) => self.fail_with(e),
                Ok(t) => {
                    self.tree = t;
                    self.phase = Phase::ReadParents;
                    Next::Run(parents_cmd(&self.full))
                },
            },
            Phase::ReadParents => match output_exec(&ev) {
                Err(e) => self.fail_with(e),
                Ok(p) => {
                    self.phase = Phase::CreateEdited;
                    Next::Run(create_edited_cmd(&self.tree, &p, &self.details))
                },
            },
            Phase::CreateEdited => match write_result_exec(&ev, "git commit-tree failed") {
                Err(e) => self.fail_with(e),
                Ok(edited) => {
                    let mut map: Vec<(Vec<char>, Vec<char>)> = Vec::new();
                    let ghost pair = (self.full@, edited@);
                    map.push((dup(&self.full), edited));
                    assert(pair_views(map@) =~= seq![pair]);
                    self.rewritten = map;
                    self.phase = Phase::ListDescendants;
                    Next::Run(descendants_cmd(&self.full, &self.head))
                },
            },
            Phase::ListDescendants => match output_exec(&ev) {
                Err(e) => self.fail_with(e),
                Ok(l) => {
                    self.list = lines_exec(&l);
                    self.idx = 0;
                    self.next_descendant_exec()
                },
            },
            Phase::ReadFields => match output_exec(&ev) {
                Err(e) => self.fail_with(e),
                Ok(f) => {
                    let fs = split_all_exec(&f, '\0');
                    if fs.len() != 8 {
                        self.fail_with(lit("unexpected git output"))
                    } else {
                        self.fields = fs;
                        self.phase = Phase::ReadMessage;
                        assert(seqs(self.list@)[self.idx as int] == self.list@[self.idx as int]@);
                        Next::Run(message_cmd(&self.list[self.idx]))
                    }
                },
            },
            Phase::ReadMessage => match raw_output_exec(&ev) {
                Err(e) => self.fail_with(e),
                Ok(msg) => {
                    self.phase = Phase::CreateDescendant;
                    Next::Run(create_descendant_cmd(&self.fields, &self.rewritten, &without_terminator_exec(&msg)))
                },
            },
            Phase::CreateDescendant => match write_result_exec(&ev, "git commit-tree failed") {
                Err(e) => self.fail_with(e),
                Ok(new) => {
                    let old_hash = dup(&self.list[self.idx]);
                    assert(seqs(self.list@)[self.idx as int] == self.list@[self.idx as int]@);
                    let ghost pair = (old_hash@, new@);
                    let ghost before = self.rewritten@;
                    self.rewritten.push((old_hash, new));
                    assert(pair_views(self.rewritten@) =~= pair_views(before).push(pair));
                    self.idx = self.idx + 1;
                    self.next_descendant_exec()
                },
            },
            Phase::ReadSymref => match &ev {
                GitEvent::SpawnFailed(e) => self.fail_with(chars_of(e.as_str())),
                GitEvent::Exited { success, stdout, .. } => {
                    self.refname = if *success {
                        trim_exec(&chars_of(stdout.as_str()))
                    } else {
                        lit("HEAD")
                    };
                    self.phase = Phase::ListHeads;
                    Next::Run(heads_cmd())
                },
            },
            Phase::ListHeads => match output_exec(&ev) {
                Err(e) => self.fail_with(e),
                Ok(h) => {
                    self.heads = lines_exec(&h);
                    self.hidx = 0;
                    self.next_branch_exec()
                },
            },
            Phase::UpdateBranch => match write_result_exec(&ev, "git command failed") {
                Err(e) => self.fail_with(e),
                Ok(_) => self.next_branch_exec(),
            },
            Phase::UpdateCurrent => match write_result_exec(&ev, "git command failed") {
                Err(e) => self.fail_with(e),
                Ok(_) => self.succeed(),
            },
            Phase::Done => self.fail_with(lit("the rewrite has ended")),
        }
    }
}

// ---------------------------------------------------------------------------
// Laws
// ---------------------------------------------------------------------------

/// The steps for a sequence of outcomes: the last state and the move after
/// each outcome.
pub open spec fn run_events(m: RewriteModel, evs: Seq<EventModel>) -> (RewriteModel, Seq<NextModel>)
    decreases evs.len(),
{
    if evs.len() == 0 {
        (m, Seq::empty())
    } else {
        let (m0, ns) = run_events(m, evs.drop_last());
        let (m1, n) = rewrite_step(m0, evs.last());
        (m1, ns.push(n))
    }
}

proof fn lemma_run_events_step(m: RewriteModel, evs: Seq<EventModel>, ev: EventModel)
    ensures
        run_events(m, evs.push(ev)) == (
            rewrite_step(run_events(m, evs).0, ev).0,
            run_events(m, evs).1.push(rewrite_step(run_events(m, evs).0, ev).1),
        ),
{
    assert(evs.push(ev).drop_last() =~= evs);
}

/// A work tree that is not clean (or whose state git cannot report) is
/// refused before anything is written, with "uncommitted changes in the
/// work tree"; a rewrite that has ended runs no more commands.
pub proof fn law_dirty_tree_refused(
    hash: Seq<char>,
    d: DetailsModel,
    success: bool,
    stdout: Seq<char>,
    stderr: Seq<char>,
    later: EventModel,
)
    requires
        !(success && trim(stdout).len() == 0),
    ensures
        rewrite_step(initial(hash, d), EventModel::Exited { success, stdout, stderr }).1
            == NextModel::Finished(Err("uncommitted changes in the work tree"@)),
        rewrite_step(
            rewrite_step(initial(hash, d), EventModel::Exited { success, stdout, stderr }).0,
            later,
        ).1 is Finished,
{
}

/// Editing the checked-out tip: after the work tree is found clean, the
/// hash resolved and HEAD read as that same commit, the commit is amended
/// with the new details, and that is the whole rewrite.
pub proof fn law_head_commit_amended(
    hash: Seq<char>,
    d: DetailsModel,
    status: Seq<char>,
    full: Seq<char>,
    head: Seq<char>,
    head_ok: bool,
    amend_out: Seq<char>,
    err: Seq<char>,
)
    requires
        trim(status).len() == 0,
        trim(full) == trim(head),
    ensures
        run_events(
            initial(hash, d),
            seq![
                EventModel::Exited { success: true, stdout: status, stderr: err },
                EventModel::Exited { success: true, stdout: full, stderr: err },
                EventModel::Exited { success: head_ok, stdout: head, stderr: err },
                EventModel::Exited { success: true, stdout: amend_out, stderr: err },
            ],
        ).1 == seq![
            NextModel::Run(resolve_command(hash)),
            NextModel::Run(head_command()),
            NextModel::Run(amend_command(d)),
            NextModel::Finished(Ok(())),
        ],
{
    let e0 = EventModel::Exited { success: true, stdout: status, stderr: err };
    let e1 = EventModel::Exited { success: true, stdout: full, stderr: err };
    let e2 = EventModel::Exited { success: head_ok, stdout: head, stderr: err };
    let e3 = EventModel::Exited { success: true, stdout: amend_out, stderr: err };
    let m = initial(hash, d);
    let evs = seq![e0, e1, e2, e3];
    assert(run_events(m, Seq::empty()) == (m, Seq::<NextModel>::empty()));
    lemma_run_events_step(m, Seq::empty(), e0);
    lemma_run_events_step(m, seq![e0], e1);
    lemma_run_events_step(m, seq![e0, e1], e2);
    lemma_run_events_step(m, seq![e0, e1, e2], e3);
    assert(Seq::<EventModel>::empty().push(e0) =~= seq![e0]);
    assert(seq![e0].push(e1) =~= seq![e0, e1]);
    assert(seq![e0, e1].push(e2) =~= seq![e0, e1, e2]);
    assert(seq![e0, e1, e2].push(e3) =~= evs);
    let m1 = rewrite_step(m, e0).0;
    let m2 = rewrite_step(m1, e1).0;
    assert(m2.full == trim(full));
    assert(run_events(m, evs).1 =~= seq![
        NextModel::Run(resolve_command(hash)),
        NextModel::Run(head_command()),
        NextModel::Run(amend_command(d)),
        NextModel::Finished(Ok(())),
    ]);
}

/// A descendant of the edited commit is re-created with its own tree,
/// author and committer (names, e-mails and raw dates as read), its parents
/// mapped to their re-created hashes, and its message piped in as stored
/// (the output of `git log --format=%B` less the one newline git appends).
pub proof fn law_descendant_keeps_identity(
    m: RewriteModel,
    fields: Seq<char>,
    message: Seq<char>,
    err: Seq<char>,
)
    requires
        m.phase == Phase::ReadFields,
        0 <= m.idx < m.list.len(),
        split_all(trim(fields), '\0').len() == 8,
    ensures
        ({
            let f = split_all(trim(fields), '\0');
            run_events(
                m,
                seq![
                    EventModel::Exited { success: true, stdout: fields, stderr: err },
                    EventModel::Exited { success: true, stdout: message, stderr: err },
                ],
            ).1 == seq![
                NextModel::Run(message_command(m.list[m.idx])),
                NextModel::Run(
                    CommandModel {
                        args: seq!["commit-tree"@, f[0]] + parent_args(new_parents(m.rewritten, words(f[1]))),
                        env: seq![
                            ("GIT_AUTHOR_NAME"@, f[2]),
                            ("GIT_AUTHOR_EMAIL"@, f[3]),
                            ("GIT_AUTHOR_DATE"@, f[4]),
                            ("GIT_COMMITTER_NAME"@, f[5]),
                            ("GIT_COMMITTER_EMAIL"@, f[6]),
                            ("GIT_COMMITTER_DATE"@, f[7]),
                        ],
                        stdin: Some(without_terminator(message)),
                    },
                ),
            ]
        }),
{
    let e0 = EventModel::Exited { success: true, stdout: fields, stderr: err };
    let e1 = EventModel::Exited { success: true, stdout: message, stderr: err };
    assert(run_events(m, Seq::empty()) == (m, Seq::<NextModel>::empty()));
    lemma_run_events_step(m, Seq::empty(), e0);
    lemma_run_events_step(m, seq![e0], e1);
    assert(Seq::<EventModel>::empty().push(e0) =~= seq![e0]);
    assert(seq![e0].push(e1) =~= seq![e0, e1]);
    let f = split_all(trim(fields), '\0');
    let m1 = rewrite_step(m, e0).0;
    assert(m1.fields == f && m1.phase == Phase::ReadMessage && m1.rewritten == m.rewritten);
    assert(run_events(m, seq![e0, e1]).1 =~= seq![
        NextModel::Run(message_command(m.list[m.idx])),
        NextModel::Run(create_descendant_command(f, m.rewritten, without_terminator(message))),
    ]);
}

/// The branch phases know the new tip: it is the re-created old tip.
pub open spec fn tip_known(m: RewriteModel) -> bool {
    (m.phase == Phase::ReadSymref || m.phase == Phase::ListHeads || m.phase == Phase::UpdateBranch
        || m.phase == Phase::UpdateCurrent) ==> lookup(m.rewritten, m.head) == Some(m.new_tip)
}

proof fn lemma_next_update(m: RewriteModel, j: int)
    ensures
        next_update(m, j) < m.heads.len() ==> 0 <= next_update(m, j) && branch_update(
            m.heads[next_update(m, j)],
            m.refname,
            m.rewritten,
        ) is Some,
    decreases m.heads.len() - j,
{
    if 0 <= j < m.heads.len() && !(branch_update(m.heads[j], m.refname, m.rewritten) is Some) {
        lemma_next_update(m, j + 1);
    }
}

/// How the branches move: a branch other than the current one is moved
/// only when its tip was re-created, to the re-created commit; the
/// current branch (or a detached HEAD) is moved last, to the re-created
/// old tip, and only if it still is at the old tip. The new tip is known
/// from the start on and every step keeps it known.
pub proof fn law_branch_updates(hash: Seq<char>, d: DetailsModel, m: RewriteModel, ev: EventModel)
    ensures
        tip_known(initial(hash, d)),
        tip_known(m) ==> tip_known(rewrite_step(m, ev).0),
        tip_known(m) && rewrite_step(m, ev).0.phase == Phase::UpdateCurrent ==> (rewrite_step(
            m,
            ev,
        ).1 matches NextModel::Run(c) && lookup(m.rewritten, m.head) is Some && c
            == update_current_command(rewrite_step(m, ev).0.refname, lookup(m.rewritten, m.head)->0, m.head)),
        rewrite_step(m, ev).0.phase == Phase::UpdateBranch ==> (rewrite_step(m, ev).1 matches NextModel::Run(
            c,
        ) && exists|name: Seq<char>, tip: Seq<char>, new: Seq<char>|
            #![trigger update_command(name, new), lookup(m.rewritten, tip)]
            name != m.refname && lookup(m.rewritten, tip) == Some(new) && c == update_command(name, new)),
{
    let n = rewrite_step(m, ev).1;
    if m.phase == Phase::ListHeads {
        match output_of(ev) {
            Ok(h) => {
                let mm = RewriteModel { heads: lines(h), hidx: 0, ..m };
                lemma_next_update(mm, 0);
                let j = next_update(mm, 0);
                if j < mm.heads.len() {
                    let f = split_all(mm.heads[j], '\0');
                    let (name, new) = branch_update(mm.heads[j], mm.refname, mm.rewritten)->0;
                    assert(name != m.refname && lookup(m.rewritten, f[1]) == Some(new));
                    assert(n == NextModel::Run(update_command(name, new)));
                }
            },
            Err(_) => {},
        }
    } else if m.phase == Phase::UpdateBranch {
        match write_result(ev, "git command failed"@) {
            Ok(_) => {
                lemma_next_update(m, m.hidx);
                let j = next_update(m, m.hidx);
                if j < m.heads.len() {
                    let f = split_all(m.heads[j], '\0');
                    let (name, new) = branch_update(m.heads[j], m.refname, m.rewritten)->0;
                    assert(name != m.refname && lookup(m.rewritten, f[1]) == Some(new));
                    assert(n == NextModel::Run(update_command(name, new)));
                }
            },
            Err(_) => {},
        }
    }
}

/// The branch lines at or after `h` that must move, in order, each as
/// (branch name, re-created tip).
pub open spec fn moves_from(
    heads: Seq<Seq<char>>,
    refname: Seq<char>,
    map: Seq<(Seq<char>, Seq<char>)>,
    h: int,
) -> Seq<(Seq<char>, Seq<char>)>
    decreases heads.len() - h,
{
    if h < 0 || h >= heads.len() {
        Seq::empty()
    } else {
        match branch_update(heads[h], refname, map) {
            Some(p) => seq![p] + moves_from(heads, refname, map, h + 1),
            None => moves_from(heads, refname, map, h + 1),
        }
    }
}

/// `n` successful outcomes with empty output.
pub open spec fn successes(n: nat, err: Seq<char>) -> Seq<EventModel> {
    Seq::new(n, |i: int| EventModel::Exited { success: true, stdout: Seq::empty(), stderr: err })
}

/// The moves of a branch list as commands.
pub open spec fn move_commands(moves: Seq<(Seq<char>, Seq<char>)>) -> Seq<NextModel> {
    moves.map_values(|p: (Seq<char>, Seq<char>)| NextModel::Run(update_command(p.0, p.1)))
}

proof fn lemma_run_events_cons(m: RewriteModel, e: EventModel, rest: Seq<EventModel>)
    ensures
        run_events(m, seq![e] + rest) == (
            run_events(rewrite_step(m, e).0, rest).0,
            seq![rewrite_step(m, e).1] + run_events(rewrite_step(m, e).0, rest).1,
        ),
    decreases rest.len(),
{
    let m1 = rewrite_step(m, e).0;
    if rest.len() == 0 {
        assert(seq![e] + rest =~= Seq::<EventModel>::empty().push(e));
        lemma_run_events_step(m, Seq::empty(), e);
        assert(run_events(m, Seq::empty()) == (m, Seq::<NextModel>::empty()));
        assert(run_events(m1, rest) == (m1, Seq::<NextModel>::empty()));
        assert(seq![rewrite_step(m, e).1] + Seq::<NextModel>::empty() =~= Seq::<NextModel>::empty().push(
            rewrite_step(m, e).1,
        ));
    } else {
        let pre = rest.drop_last();
        let last = rest.last();
        lemma_run_events_cons(m, e, pre);
        assert((seq![e] + rest) =~= (seq![e] + pre).push(last));
        assert(rest =~= pre.push(last));
        lemma_run_events_step(m, seq![e] + pre, last);
        lemma_run_events_step(m1, pre, last);
        let ns = run_events(m1, pre).1;
        let n = rewrite_step(run_events(m1, pre).0, last).1;
        assert((seq![rewrite_step(m, e).1] + ns).push(n) =~= seq![rewrite_step(m, e).1] + ns.push(n));
    }
}

proof fn lemma_next_update_moves(m: RewriteModel, h: int)
    ensures
        next_update(m, h) < m.heads.len() ==> 0 <= next_update(m, h) && branch_update(
            m.heads[next_update(m, h)],
            m.refname,
            m.rewritten,
        ) is Some && moves_from(m.heads, m.refname, m.rewritten, h) == seq![
            branch_update(m.heads[next_update(m, h)], m.refname, m.rewritten)->0,
        ] + moves_from(m.heads, m.refname, m.rewritten, next_update(m, h) + 1),
        next_update(m, h) >= m.heads.len() ==> moves_from(m.heads, m.refname, m.rewritten, h)
            == Seq::<(Seq<char>, Seq<char>)>::empty(),
    decreases m.heads.len() - h,
{
    if 0 <= h < m.heads.len() && !(branch_update(m.heads[h], m.refname, m.rewritten) is Some) {
        lemma_next_update_moves(m, h + 1);
    }
}

proof fn lemma_branch_run(s: RewriteModel, err: Seq<char>)
    ensures
        ({
            let ms = moves_from(s.heads, s.refname, s.rewritten, s.hidx);
            seq![next_branch(s).1] + run_events(next_branch(s).0, successes(ms.len() + 1, err)).1
                == move_commands(ms) + seq![
                NextModel::Run(update_current_command(s.refname, s.new_tip, s.head)),
                NextModel::Finished(Ok(())),
            ]
        }),
    decreases moves_from(s.heads, s.refname, s.rewritten, s.hidx).len(),
{
    let ms = moves_from(s.heads, s.refname, s.rewritten, s.hidx);
    let e = EventModel::Exited { success: true, stdout: Seq::empty(), stderr: err };
    lemma_next_update_moves(s, s.hidx);
    let j = next_update(s, s.hidx);
    let (s1, n1) = next_branch(s);
    if j < s.heads.len() {
        let p = branch_update(s.heads[j], s.refname, s.rewritten)->0;
        assert(s1 == RewriteModel { hidx: j + 1, phase: Phase::UpdateBranch, ..s });
        assert(n1 == NextModel::Run(update_command(p.0, p.1)));
        let rest = moves_from(s1.heads, s1.refname, s1.rewritten, s1.hidx);
        assert(ms == seq![p] + rest);
        lemma_branch_run(s1, err);
        assert(successes(ms.len() + 1, err) =~= seq![e] + successes(rest.len() + 1, err));
        lemma_run_events_cons(s1, e, successes(rest.len() + 1, err));
        assert(rewrite_step(s1, e) == next_branch(s1));
        assert(move_commands(ms) =~= seq![n1] + move_commands(rest));
        assert(seq![n1] + (seq![next_branch(s1).1] + run_events(next_branch(s1).0, successes(rest.len() + 1, err)).1)
            =~= move_commands(ms) + seq![
            NextModel::Run(update_current_command(s.refname, s.new_tip, s.head)),
            NextModel::Finished(Ok(())),
        ]);
    } else {
        assert(ms.len() == 0);
        assert(n1 == NextModel::Run(update_current_command(s.refname, s.new_tip, s.head)));
        assert(s1.phase == Phase::UpdateCurrent);
        assert(successes(1, err) =~= seq![e] + Seq::<EventModel>::empty());
        lemma_run_events_cons(s1, e, Seq::empty());
        let (s2, n2) = rewrite_step(s1, e);
        assert(n2 == NextModel::Finished(Ok(())));
        assert(run_events(s2, Seq::empty()) == (s2, Seq::<NextModel>::empty()));
        assert(move_commands(ms) =~= Seq::<NextModel>::empty());
        assert(seq![n1] + run_events(s1, successes(1, err)).1 =~= move_commands(ms) + seq![
            NextModel::Run(update_current_command(s.refname, s.new_tip, s.head)),
            NextModel::Finished(Ok(())),
        ]);
    }
}

/// Every local branch whose tip was re-created is moved, in the order of
/// the branch list, to its re-created commit (the current branch is not
/// among them); then the current branch (or a detached HEAD) is moved to
/// the new tip, guarded by the old one, and the rewrite is done.
pub proof fn law_branches_follow_the_rewrite(m: RewriteModel, heads: Seq<char>, err: Seq<char>)
    requires
        m.phase == Phase::ListHeads,
    ensures
        ({
            let ms = moves_from(lines(trim(heads)), m.refname, m.rewritten, 0);
            run_events(
                m,
                seq![EventModel::Exited { success: true, stdout: heads, stderr: err }] + successes(
                    ms.len() + 1,
                    err,
                ),
            ).1 == move_commands(ms) + seq![
                NextModel::Run(update_current_command(m.refname, m.new_tip, m.head)),
                NextModel::Finished(Ok(())),
            ]
        }),
{
    let e0 = EventModel::Exited { success: true, stdout: heads, stderr: err };
    let s0 = RewriteModel { heads: lines(trim(heads)), hidx: 0, ..m };
    let ms = moves_from(lines(trim(heads)), m.refname, m.rewritten, 0);
    assert(rewrite_step(m, e0) == next_branch(s0));
    lemma_run_events_cons(m, e0, successes(ms.len() + 1, err));
    lemma_branch_run(s0, err);
}

/// The branch phases: the rewritten history is complete.
pub open spec fn moving_branches(p: Phase) -> bool {
    p == Phase::ReadSymref || p == Phase::ListHeads || p == Phase::UpdateBranch || p == Phase::UpdateCurrent
}

/// The descendant phases: one descendant is being re-created.
pub open spec fn recreating(p: Phase) -> bool {
    p == Phase::ReadFields || p == Phase::ReadMessage || p == Phase::CreateDescendant
}

/// The commits re-created so far are the edited one, then the listed
/// descendants before `idx`, in order; in the branch phases that is all of
/// them.
pub open spec fn descendants_recreated(m: RewriteModel) -> bool {
    &&& m.phase == Phase::ListDescendants ==> m.rewritten.len() == 1 && m.rewritten[0].0 == m.full
    &&& (recreating(m.phase) || moving_branches(m.phase)) ==> {
        &&& 0 <= m.idx <= m.list.len()
        &&& m.rewritten.len() == m.idx + 1
        &&& m.rewritten[0].0 == m.full
        &&& forall|i: int| 0 <= i < m.idx ==> (#[trigger] m.rewritten[i + 1]).0 == m.list[i]
    }
    &&& recreating(m.phase) ==> m.idx < m.list.len()
    &&& moving_branches(m.phase) ==> m.idx == m.list.len()
}

/// Every commit between the edited one and HEAD is re-created before any
/// branch moves: from the start on, the re-created commits are the edited
/// one, then the listed descendants (parents first) in order, and once the
/// branches move, every listed descendant has been re-created.
pub proof fn law_descendants_recreated(hash: Seq<char>, d: DetailsModel, m: RewriteModel, ev: EventModel)
    ensures
        descendants_recreated(initial(hash, d)),
        descendants_recreated(m) ==> descendants_recreated(rewrite_step(m, ev).0),
        descendants_recreated(m) && moving_branches(rewrite_step(m, ev).0.phase) ==> {
            let m1 = rewrite_step(m, ev).0;
            forall|i: int| 0 <= i < m1.list.len() ==> (#[trigger] m1.rewritten[i + 1]).0 == m1.list[i]
        },
{
    if descendants_recreated(m) {
        if m.phase == Phase::CreateDescendant {
            match write_result(ev, "git commit-tree failed"@) {
                Ok(new) => {
                    let mm = RewriteModel { rewritten: m.rewritten.push((m.list[m.idx], new)), idx: m.idx + 1, ..m };
                    assert forall|i: int| 0 <= i < mm.idx implies (#[trigger] mm.rewritten[i + 1]).0
                        == mm.list[i] by {
                        if i < m.idx {
                            assert(mm.rewritten[i + 1] == m.rewritten[i + 1]);
                        }
                    }
                },
                Err(_) => {},
            }
        }
    }
}

/// A commit that is not an ancestor of the current tip (one that has
/// diverged from HEAD) is refused with "commit is not on the current
/// branch" before anything is written: after the clean-tree check, the
/// hash and HEAD are read and the ancestry check fails, the rewrite ends.
/// The rewrite of history (from reading the tree on) starts only from a
/// successful ancestry check.
pub proof fn law_diverged_commit_refused(
    hash: Seq<char>,
    d: DetailsModel,
    status: Seq<char>,
    full: Seq<char>,
    head: Seq<char>,
    head_ok: bool,
    err: Seq<char>,
    m: RewriteModel,
    ev: EventModel,
)
    requires
        trim(status).len() == 0,
        trim(full) != trim(head),
    ensures
        run_events(
            initial(hash, d),
            seq![
                EventModel::Exited { success: true, stdout: status, stderr: err },
                EventModel::Exited { success: true, stdout: full, stderr: err },
                EventModel::Exited { success: head_ok, stdout: head, stderr: err },
                EventModel::Exited { success: false, stdout: Seq::empty(), stderr: err },
            ],
        ).1 == seq![
            NextModel::Run(resolve_command(hash)),
            NextModel::Run(head_command()),
            NextModel::Run(ancestor_command(trim(full), trim(head))),
            NextModel::Finished(Err("commit is not on the current branch"@)),
        ],
        rewrite_step(m, ev).0.phase == Phase::ReadTree ==> m.phase == Phase::CheckAncestor && (ev matches EventModel::Exited { success, .. } && success),
{
    let e0 = EventModel::Exited { success: true, stdout: status, stderr: err };
    let e1 = EventModel::Exited { success: true, stdout: full, stderr: err };
    let e2 = EventModel::Exited { success: head_ok, stdout: head, stderr: err };
    let e3 = EventModel::Exited { success: false, stdout: Seq::empty(), stderr: err };
    let i = initial(hash, d);
    assert(run_events(i, Seq::empty()) == (i, Seq::<NextModel>::empty()));
    lemma_run_events_step(i, Seq::empty(), e0);
    lemma_run_events_step(i, seq![e0], e1);
    lemma_run_events_step(i, seq![e0, e1], e2);
    lemma_run_events_step(i, seq![e0, e1, e2], e3);
    assert(Seq::<EventModel>::empty().push(e0) =~= seq![e0]);
    assert(seq![e0].push(e1) =~= seq![e0, e1]);
    assert(seq![e0, e1].push(e2) =~= seq![e0, e1, e2]);
    assert(seq![e0, e1, e2].push(e3) =~= seq![e0, e1, e2, e3]);
    let m1 = rewrite_step(i, e0).0;
    let m2 = rewrite_step(m1, e1).0;
    assert(m2.full == trim(full));
    assert(run_events(i, seq![e0, e1, e2, e3]).1 =~= seq![
        NextModel::Run(resolve_command(hash)),
        NextModel::Run(head_command()),
        NextModel::Run(ancestor_command(trim(full), trim(head))),
        NextModel::Finished(Err("commit is not on the current branch"@)),
    ]);
}

} // verus!

//! The history reader: turns the lines of
//! `git log -M --raw --numstat --pretty=format:<record format>` into
//! commits, one line at a time, so that the caller can stream commits
//! (newest first) while git is still printing.
use vstd::prelude::*;
use crate::text::{
    chars_eq, chars_of, keep_some, parse_i64, parse_i64_exec, seqs,
    split_all, split_all_exec, split_once, split_once_exec, string_of, string_views, is_digit,
    trim_end_char, trim_end_char_exec, trim_line_end, trim_line_end_exec, copy_range, words,
    words_exec, lacks, lemma_split_all_single, lemma_split_once_concat,
};
use crate::gitlog::{
    action_of_letter, action_of_letter_exec, names_at, groups_entries, group_views, tip_entries,
    tip_groups, Action, Commit, FileStat,
};

verus! {

/// Starts a record line (one per commit).
pub open spec fn mark() -> char {
    '\u{1}'
}

/// Separates the fields of a record line.
pub open spec fn sep() -> char {
    '\u{1f}'
}

/// The arguments of the `git log` run whose output the reader reads; its
/// record lines are `MARK %h SEP %H SEP %an <%ae> SEP %cn <%ce> SEP %ct
/// SEP %s SEP %B` (`%ct`: the committer's unix time).
pub fn log_args() -> (r: Vec<String>)
    ensures
        string_views(r@) == seq![
            "-c"@,
            "core.quotepath=false"@,
            "log"@,
            "-M"@,
            "--raw"@,
            "--numstat"@,
            "--pretty=format:\u{1}%h\u{1f}%H\u{1f}%an <%ae>\u{1f}%cn <%ce>\u{1f}%ct\u{1f}%s\u{1f}%B"@,
        ],
{
    let r = vec![
        "-c".to_owned(),
        "core.quotepath=false".to_owned(),
        "log".to_owned(),
        "-M".to_owned(),
        "--raw".to_owned(),
        "--numstat".to_owned(),
        "--pretty=format:\u{1}%h\u{1f}%H\u{1f}%an <%ae>\u{1f}%cn <%ce>\u{1f}%ct\u{1f}%s\u{1f}%B".to_owned(),
    ];
    assert(string_views(r@) =~= seq![
        "-c"@,
        "core.quotepath=false"@,
        "log"@,
        "-M"@,
        "--raw"@,
        "--numstat"@,
        "--pretty=format:\u{1}%h\u{1f}%H\u{1f}%an <%ae>\u{1f}%cn <%ce>\u{1f}%ct\u{1f}%s\u{1f}%B"@,
    ]);
    r
}

// ---------------------------------------------------------------------------
// Model
// ---------------------------------------------------------------------------

/// The value of a [`FileStat`].
pub struct FileStatModel {
    pub name: Seq<char>,
    pub added: Option<i64>,
    pub deleted: Option<i64>,
    pub action: Action,
}

impl View for FileStat {
    type V = FileStatModel;

    open spec fn view(&self) -> FileStatModel {
        FileStatModel { name: self.name@, added: self.added, deleted: self.deleted, action: self.action }
    }
}

pub open spec fn file_stats(v: Seq<FileStat>) -> Seq<FileStatModel> {
    v.map_values(|f: FileStat| f@)
}

/// The value of a [`Commit`].
pub struct CommitModel {
    pub hash: Seq<char>,
    pub full_hash: Seq<char>,
    pub branches: Seq<Seq<char>>,
    pub subject: Seq<char>,
    pub message: Seq<char>,
    pub author: Seq<char>,
    pub committer: Seq<char>,
    pub timestamp: i64,
    pub files: Seq<FileStatModel>,
}

impl View for Commit {
    type V = CommitModel;

    open spec fn view(&self) -> CommitModel {
        CommitModel {
            hash: self.hash@,
            full_hash: self.full_hash@,
            branches: string_views(self.branches@),
            subject: self.subject@,
            message: self.message@,
            author: self.author@,
            committer: self.committer@,
            timestamp: self.timestamp,
            files: file_stats(self.files@),
        }
    }
}

/// The header of the record being read.
pub struct PendingModel {
    pub hash: Seq<char>,
    pub full_hash: Seq<char>,
    pub author: Seq<char>,
    pub committer: Seq<char>,
    pub timestamp: i64,
}

/// What the reader holds between two lines.
pub struct LogModel {
    /// Header of the record in flight, if any
    pub pending: Option<PendingModel>,
    pub subject: Seq<char>,
    /// Message lines read so far
    pub message: Seq<Seq<char>>,
    pub files: Seq<FileStatModel>,
    /// Status letters of the `--raw` lines not yet paired with a numstat line
    pub actions: Seq<Action>,
    /// (tip hash, branch name) pairs of the branch tips
    pub tips: Seq<(Seq<char>, Seq<char>)>,
}

/// The lines of `m` joined with `'\n'`.
pub open spec fn join_lines(m: Seq<Seq<char>>) -> Seq<char>
    decreases m.len(),
{
    if m.len() == 0 {
        Seq::empty()
    } else if m.len() == 1 {
        m[0]
    } else {
        join_lines(m.drop_last()) + seq!['\n'] + m.last()
    }
}

/// The commit of the record in flight: its branches are those at its full
/// hash, its message the lines read joined, trailing newlines trimmed.
pub open spec fn commit_of(p: PendingModel, st: LogModel) -> CommitModel {
    CommitModel {
        hash: p.hash,
        full_hash: p.full_hash,
        branches: names_at(st.tips, p.full_hash),
        subject: st.subject,
        message: trim_end_char(join_lines(st.message), '\n'),
        author: p.author,
        committer: p.committer,
        timestamp: p.timestamp,
        files: st.files,
    }
}

/// Ends the record in flight: its commit, and a state without it.
pub open spec fn flush(st: LogModel) -> (LogModel, Option<CommitModel>) {
    match st.pending {
        None => (st, None),
        Some(p) => (
            LogModel {
                pending: None,
                subject: st.subject,
                message: Seq::empty(),
                files: Seq::empty(),
                actions: Seq::empty(),
                tips: st.tips,
            },
            Some(commit_of(p, st)),
        ),
    }
}

/// A numstat count field: digits and dashes (dashes for binary files).
pub open spec fn count_field(t: Seq<char>) -> bool {
    forall|i: int| 0 <= i < t.len() ==> is_digit(#[trigger] t[i]) || t[i] == '-'
}

/// The three tab-separated fields of a numstat line, if it has three.
pub open spec fn three_fields(l: Seq<char>) -> Option<(Seq<char>, Seq<char>, Seq<char>)> {
    match split_once(l, '\t') {
        None => None,
        Some((a, r)) => match split_once(r, '\t') {
            None => None,
            Some((d, p)) => Some((a, d, p)),
        },
    }
}

/// The next status letter's action, `Modified` when none is left.
pub open spec fn next_action(actions: Seq<Action>) -> (Action, Seq<Action>) {
    if actions.len() > 0 {
        (actions[0], actions.drop_first())
    } else {
        (Action::Modified, actions)
    }
}

/// A record line `MARK fields...` starts a new commit: it ends the one in
/// flight and, when it has all seven fields, takes the header, the subject
/// and the first message line from it.
pub open spec fn start_record(st: LogModel, line: Seq<char>) -> (LogModel, Option<CommitModel>) {
    let (s1, c) = flush(st);
    let f = split_all(line.drop_first(), sep());
    if f.len() < 7 {
        (s1, c)
    } else {
        (
            LogModel {
                pending: Some(
                    PendingModel {
                        hash: f[0],
                        full_hash: f[1],
                        author: f[2],
                        committer: f[3],
                        timestamp: match parse_i64(f[4]) {
                            Some(t) => t,
                            None => 0,
                        },
                    },
                ),
                subject: f[5],
                message: seq![f[6]],
                files: s1.files,
                actions: s1.actions,
                tips: s1.tips,
            },
            c,
        )
    }
}

/// The status of a `--raw` line `:<mode> <mode> <sha> <sha> <STATUS>\t<path>...`:
/// the fifth word before the first tab. Lines of another shape (such as a
/// message line that happens to start with `:`) have none.
pub open spec fn raw_status(line: Seq<char>) -> Option<Seq<char>> {
    if line.len() > 0 && line[0] == ':' {
        match split_once(line.drop_first(), '\t') {
            None => None,
            Some((head, _)) => {
                let w = words(head);
                if w.len() == 5 && w[4].len() > 0 {
                    Some(w[4])
                } else {
                    None
                }
            },
        }
    } else {
        None
    }
}

/// A line inside a record: a `--raw` line queues its status letter, a
/// numstat line (`<added>\t<deleted>\t<path>`) adds a file with the next
/// queued action, anything else continues the message.
pub open spec fn record_line(st: LogModel, line: Seq<char>) -> LogModel {
    match raw_status(line) {
        Some(w) => LogModel { actions: st.actions.push(action_of_letter(w[0])), ..st },
        None => match three_fields(line) {
            Some((a, d, p)) => {
                if count_field(a) && count_field(d) {
                    let (act, rest) = next_action(st.actions);
                    LogModel {
                        files: st.files.push(
                            FileStatModel {
                                name: p,
                                added: parse_i64(a),
                                deleted: parse_i64(d),
                                action: act,
                            },
                        ),
                        actions: rest,
                        ..st
                    }
                } else {
                    LogModel { message: st.message.push(line), ..st }
                }
            },
            None => LogModel { message: st.message.push(line), ..st },
        },
    }
}

/// One line (its line ending already removed): the new state, whether it
/// was a record line, and the commit it completed.
pub open spec fn step(st: LogModel, line: Seq<char>) -> (LogModel, bool, Option<CommitModel>) {
    if line.len() > 0 && line[0] == mark() {
        let (s, c) = start_record(st, line);
        (s, true, c)
    } else if st.pending is None {
        (st, false, None)
    } else {
        (record_line(st, line), false, None)
    }
}

// ---------------------------------------------------------------------------
// Reader
// ---------------------------------------------------------------------------

struct PendingChars {
    hash: Vec<char>,
    full_hash: Vec<char>,
    author: Vec<char>,
    committer: Vec<char>,
    timestamp: i64,
}

impl PendingChars {
    spec fn model(&self) -> PendingModel {
        PendingModel {
            hash: self.hash@,
            full_hash: self.full_hash@,
            author: self.author@,
            committer: self.committer@,
            timestamp: self.timestamp,
        }
    }
}

/// What one line did: whether it started a record, and the commit that
/// record ended, if any.
pub struct LineOutcome {
    pub record_start: bool,
    pub commit: Option<Commit>,
}

/// Reads `git log` output line by line (see [`step`]).
pub struct LogParser {
    tips: Vec<(Vec<char>, Vec<Vec<char>>)>,
    tip_list: Ghost<Seq<(Seq<char>, Seq<char>)>>,
    pending: Option<PendingChars>,
    subject: Vec<char>,
    message: Vec<Vec<char>>,
    files: Vec<FileStat>,
    actions: Vec<Action>,
}

impl View for LogParser {
    type V = LogModel;

    closed spec fn view(&self) -> LogModel {
        LogModel {
            pending: match self.pending {
                Some(p) => Some(p.model()),
                None => None,
            },
            subject: self.subject@,
            message: seqs(self.message@),
            files: file_stats(self.files@),
            actions: self.actions@,
            tips: self.tip_list@,
        }
    }
}

/// Exact branch names at `h`: those of the grouped tips.
fn tips_at(
    tips: &Vec<(Vec<char>, Vec<Vec<char>>)>,
    entries: Ghost<Seq<(Seq<char>, Seq<char>)>>,
    h: &Vec<char>,
) -> (r: Vec<String>)
    requires
        groups_entries(group_views(tips@), entries@),
    ensures
        string_views(r@) == names_at(entries@, h@),
{
    let mut i: usize = 0;
    while i < tips.len()
        invariant
            i <= tips.len(),
            groups_entries(group_views(tips@), entries@),
            forall|j: int| 0 <= j < i ==> group_views(tips@)[j].0 != h@,
        decreases tips.len() - i,
    {
        if chars_eq(&tips[i].0, h) {
            let names = &tips[i].1;
            let mut r: Vec<String> = Vec::new();
            let mut j: usize = 0;
            while j < names.len()
                invariant
                    j <= names.len(),
                    string_views(r@) == seqs(names@).take(j as int),
                decreases names.len() - j,
            {
                let x = string_of(&names[j]);
                let ghost before = r@;
                assert(string_views(before).len() == j);
                r.push(x);
                assert(r@ == before.push(x));
                assert forall|a: int| 0 <= a < j + 1 implies string_views(r@)[a] == seqs(names@).take(
                    j + 1,
                )[a] by {
                    if a < j {
                        assert(string_views(before)[a] == seqs(names@).take(j as int)[a]);
                        assert(r@[a] == before[a]);
                    }
                }
                assert(string_views(r@) =~= seqs(names@).take(j + 1));
                j = j + 1;
            }
            assert(seqs(names@).take(j as int) =~= seqs(names@));
            assert(group_views(tips@)[i as int].1 == seqs(names@));
            return r;
        }
        i = i + 1;
    }
    proof {
        let gv = group_views(tips@);
        assert forall|k: int| 0 <= k < entries@.len() implies (#[trigger] entries@[k]).0 != h@ by {
            let a = choose|a: int| 0 <= a < gv.len() && #[trigger] gv[a].0 == entries@[k].0;
        }
        lemma_names_absent(entries@, h@);
    }
    Vec::new()
}

proof fn lemma_names_absent(entries: Seq<(Seq<char>, Seq<char>)>, h: Seq<char>)
    requires
        forall|k: int| 0 <= k < entries.len() ==> (#[trigger] entries[k]).0 != h,
    ensures
        names_at(entries, h) == Seq::<Seq<char>>::empty(),
    decreases entries.len(),
{
    if entries.len() > 0 {
        lemma_names_absent(entries.drop_last(), h);
    }
}

/// The lines of `m` joined with `'\n'`.
fn join_lines_exec(m: &Vec<Vec<char>>) -> (r: Vec<char>)
    ensures
        r@ == join_lines(seqs(m@)),
{
    let mut r: Vec<char> = Vec::new();
    let mut i: usize = 0;
    while i < m.len()
        invariant
            i <= m.len(),
            r@ == join_lines(seqs(m@).take(i as int)),
        decreases m.len() - i,
    {
        let ghost t = seqs(m@).take(i + 1);
        assert(t.drop_last() =~= seqs(m@).take(i as int));
        assert(t.last() == m@[i as int]@);
        if i > 0 {
            r.push('\n');
        }
        let mut k: usize = 0;
        let ghost base = r@;
        while k < m[i].len()
            invariant
                i < m.len(),
                k <= m[i as int].len(),
                r@ == base + m@[i as int]@.take(k as int),
            decreases m[i as int].len() - k,
        {
            r.push(m[i][k]);
            k = k + 1;
            assert(r@ =~= base + m@[i as int]@.take(k as int));
        }
        assert(m@[i as int]@.take(k as int) =~= m@[i as int]@);
        if i == 0 {
            assert(seqs(m@).take(0) =~= Seq::<Seq<char>>::empty());
            assert(t =~= seq![m@[0]@]);
        }
        i = i + 1;
    }
    assert(seqs(m@).take(i as int) =~= seqs(m@));
    r
}

impl LogParser {
    /// Holds the tip groups of the tips it was made with.
    pub closed spec fn wf(&self) -> bool {
        groups_entries(group_views(self.tips@), self.tip_list@)
    }

    /// A reader for a history whose branch tips are given by the output of
    /// `git for-each-ref refs/heads refs/remotes
    /// --format=%(refname)\x01%(objectname)\x01%(refname:short)`.
    pub fn new(tips_output: &str) -> (p: Self)
        ensures
            p.wf(),
            p@ == (LogModel {
                pending: None,
                subject: Seq::empty(),
                message: Seq::empty(),
                files: Seq::empty(),
                actions: Seq::empty(),
                tips: tip_entries(tips_output@),
            }),
    {
        let text = chars_of(tips_output);
        let tips = tip_groups(&text);
        let p = LogParser {
            tips,
            tip_list: Ghost(tip_entries(tips_output@)),
            pending: None,
            subject: Vec::new(),
            message: Vec::new(),
            files: Vec::new(),
            actions: Vec::new(),
        };
        assert(seqs(p.message@) =~= Seq::<Seq<char>>::empty());
        assert(file_stats(p.files@) =~= Seq::<FileStatModel>::empty());
        p
    }

    /// Ends the record in flight (see [`flush`]).
    fn flush_exec(&mut self) -> (r: Option<Commit>)
        requires
            old(self).wf(),
        ensures
            final(self).wf(),
            (final(self)@, match r {
                Some(c) => Some(c@),
                None => None,
            }) == flush(old(self)@),
    {
        let p = match self.pending.take() {
            None => return None,
            Some(p) => p,
        };
        let ghost st = self@;
        let branches = tips_at(&self.tips, self.tip_list, &p.full_hash);
        let joined = join_lines_exec(&self.message);
        let message = trim_end_char_exec(&joined, '\n');
        let mut files: Vec<FileStat> = Vec::new();
        std::mem::swap(&mut files, &mut self.files);
        let c = Commit {
            hash: string_of(&p.hash),
            full_hash: string_of(&p.full_hash),
            branches,
            subject: string_of(&self.subject),
            message: string_of(&message),
            author: string_of(&p.author),
            committer: string_of(&p.committer),
            timestamp: p.timestamp,
            files,
        };
        self.actions = Vec::new();
        self.message = Vec::new();
        assert(seqs(self.message@) =~= Seq::<Seq<char>>::empty());
        assert(file_stats(self.files@) =~= Seq::<FileStatModel>::empty());
        Some(c)
    }

    /// Ends the history: the commit of the record in flight, if any.
    pub fn finish(&mut self) -> (r: Option<Commit>)
        requires
            old(self).wf(),
        ensures
            final(self).wf(),
            (final(self)@, match r {
                Some(c) => Some(c@),
                None => None,
            }) == flush(old(self)@),
    {
        self.flush_exec()
    }

    /// After a record line: whether reading goes on. It stops when the
    /// commit that line completed could not be handed on (`delivered` is
    /// false) or the load was cancelled; a stopped reader drops the record
    /// the line started, so [`LogParser::finish`] gives no further commit.
    pub fn record_done(&mut self, delivered: bool, cancelled: bool) -> (go_on: bool)
        requires
            old(self).wf(),
        ensures
            final(self).wf(),
            go_on == (delivered && !cancelled),
            go_on ==> final(self)@ == old(self)@,
            !go_on ==> final(self)@ == (LogModel { pending: None, ..old(self)@ }),
            !go_on ==> flush(final(self)@).1 is None,
    {
        if delivered && !cancelled {
            return true;
        }
        self.pending = None;
        false
    }

    /// Reads one line of the output (with or without its line ending).
    pub fn feed(&mut self, raw_line: &str) -> (r: LineOutcome)
        requires
            old(self).wf(),
        ensures
            final(self).wf(),
            (final(self)@, r.record_start, match r.commit {
                Some(c) => Some(c@),
                None => None,
            }) == step(old(self)@, trim_line_end(raw_line@)),
    {
        let line = trim_line_end_exec(&chars_of(raw_line));
        if line.len() > 0 && line[0] == '\u{1}' {
            let commit = self.flush_exec();
            let rest = copy_range(&line, 1, line.len());
            assert(rest@ =~= line@.drop_first());
            let f = split_all_exec(&rest, '\u{1f}');
            if f.len() >= 7 {
                proof {
                    assert forall|k: int| 0 <= k < 7 implies seqs(f@)[k] == f@[k]@ by {}
                }
                let ts = match parse_i64_exec(&f[4]) {
                    Some(t) => t,
                    None => 0,
                };
                self.pending = Some(
                    PendingChars {
                        hash: copy_range(&f[0], 0, f[0].len()),
                        full_hash: copy_range(&f[1], 0, f[1].len()),
                        author: copy_range(&f[2], 0, f[2].len()),
                        committer: copy_range(&f[3], 0, f[3].len()),
                        timestamp: ts,
                    },
                );
                self.subject = copy_range(&f[5], 0, f[5].len());
                let mut m: Vec<Vec<char>> = Vec::new();
                m.push(copy_range(&f[6], 0, f[6].len()));
                self.message = m;
                proof {
                    assert forall|k: int| 0 <= k < 7 implies f@[k]@.subrange(
                        0,
                        f@[k]@.len() as int,
                    ) =~= f@[k]@ by {}
                    assert(seqs(self.message@) =~= seq![f@[6]@]);
                }
            }
            return LineOutcome { record_start: true, commit };
        }
        if self.pending.is_none() {
            return LineOutcome { record_start: false, commit: None };
        }
        if let Some(w) = raw_status_exec(&line) {
            self.actions.push(action_of_letter_exec(w[0]));
            return LineOutcome { record_start: false, commit: None };
        }
        let ghost before = self@;
        match split_once_exec(&line, '\t') {
            Some((a, r1)) => match split_once_exec(&r1, '\t') {
                Some((d, p)) => {
                    if count_field_exec(&a) && count_field_exec(&d) {
                        let action = if self.actions.len() > 0 {
                            self.actions.remove(0)
                        } else {
                            Action::Modified
                        };
                        let fs = FileStat {
                            name: string_of(&p),
                            added: parse_i64_exec(&a),
                            deleted: parse_i64_exec(&d),
                            action,
                        };
                        let ghost old_files = self.files@;
                        self.files.push(fs);
                        proof {
                            assert(three_fields(line@) == Some((a@, d@, p@)));
                            assert(file_stats(self.files@) =~= file_stats(old_files).push(fs@));
                            assert(self.actions@ == next_action(before.actions).1);
                            assert(action == next_action(before.actions).0);
                            assert(self@ == record_line(before, line@));
                        }
                        return LineOutcome { record_start: false, commit: None };
                    }
                },
                None => {},
            },
            None => {},
        }
        let ghost old_message = self.message@;
        let ghost lv = line@;
        self.message.push(line);
        proof {
            assert(seqs(self.message@) =~= seqs(old_message).push(lv));
            assert(self@ == record_line(before, lv));
        }
        LineOutcome { record_start: false, commit: None }
    }
}

fn raw_status_exec(line: &Vec<char>) -> (r: Option<Vec<char>>)
    ensures
        match r {
            Some(w) => raw_status(line@) == Some(w@) && w@.len() > 0,
            None => raw_status(line@) is None,
        },
{
    if line.len() == 0 || line[0] != ':' {
        return None;
    }
    let rest = copy_range(line, 1, line.len());
    assert(rest@ =~= line@.drop_first());
    let (head, _) = match split_once_exec(&rest, '\t') {
        Some(x) => x,
        None => return None,
    };
    let w = words_exec(&head);
    if w.len() == 5 && w[4].len() > 0 {
        assert(seqs(w@)[4] == w@[4]@);
        Some(copy_range(&w[4], 0, w[4].len()))
    } else {
        proof {
            if w.len() == 5 {
                assert(seqs(w@)[4] == w@[4]@);
            }
        }
        None
    }
}

fn count_field_exec(t: &Vec<char>) -> (r: bool)
    ensures
        r == count_field(t@),
{
    let mut i: usize = 0;
    while i < t.len()
        invariant
            i <= t.len(),
            forall|j: int| 0 <= j < i ==> is_digit(#[trigger] t@[j]) || t@[j] == '-',
        decreases t.len() - i,
    {
        if !(('0' <= t[i] && t[i] <= '9') || t[i] == '-') {
            return false;
        }
        i = i + 1;
    }
    true
}

// ---------------------------------------------------------------------------
// Laws
// ---------------------------------------------------------------------------

/// The lines read one after the other: the state after them and the
/// commits they completed, in order.
pub open spec fn feed_all(st: LogModel, lines: Seq<Seq<char>>) -> (LogModel, Seq<CommitModel>)
    decreases lines.len(),
{
    if lines.len() == 0 {
        (st, Seq::empty())
    } else {
        let (s0, cs) = feed_all(st, lines.drop_last());
        let (s1, _, c) = step(s0, lines.last());
        (
            s1,
            match c {
                Some(x) => cs.push(x),
                None => cs,
            },
        )
    }
}

/// All commits of a complete output: those the lines completed, then the
/// one the end of the output completes.
pub open spec fn read_all(st: LogModel, lines: Seq<Seq<char>>) -> Seq<CommitModel> {
    let (s, cs) = feed_all(st, lines);
    match flush(s).1 {
        Some(c) => cs.push(c),
        None => cs,
    }
}

/// A record line with all seven fields.
pub open spec fn is_full_record(line: Seq<char>) -> bool {
    line.len() > 0 && line[0] == mark() && split_all(line.drop_first(), sep()).len() >= 7
}

/// The abbreviated hashes (first field) of the full record lines, in order.
pub open spec fn record_hashes(lines: Seq<Seq<char>>) -> Seq<Seq<char>>
    decreases lines.len(),
{
    if lines.len() == 0 {
        Seq::empty()
    } else {
        let r = record_hashes(lines.drop_last());
        if is_full_record(lines.last()) {
            r.push(split_all(lines.last().drop_first(), sep())[0])
        } else {
            r
        }
    }
}

pub open spec fn commit_hashes(cs: Seq<CommitModel>) -> Seq<Seq<char>> {
    cs.map_values(|c: CommitModel| c.hash)
}

pub open spec fn pending_hash(st: LogModel) -> Seq<Seq<char>> {
    match st.pending {
        Some(p) => seq![p.hash],
        None => Seq::empty(),
    }
}

proof fn lemma_hashes_push(cs: Seq<CommitModel>, c: CommitModel)
    ensures
        commit_hashes(cs.push(c)) == commit_hashes(cs).push(c.hash),
{
    assert(commit_hashes(cs.push(c)) =~= commit_hashes(cs).push(c.hash));
}

proof fn lemma_feed_all_hashes(st: LogModel, lines: Seq<Seq<char>>)
    requires
        st.pending is None,
    ensures
        commit_hashes(feed_all(st, lines).1) + pending_hash(feed_all(st, lines).0) == record_hashes(
            lines,
        ),
    decreases lines.len(),
{
    if lines.len() == 0 {
        assert(commit_hashes(Seq::<CommitModel>::empty()) + pending_hash(st) =~= Seq::<
            Seq<char>,
        >::empty());
    } else {
        let pre = lines.drop_last();
        let line = lines.last();
        lemma_feed_all_hashes(st, pre);
        let (s0, cs) = feed_all(st, pre);
        let (s1, _, c) = step(s0, line);
        let out = match c {
            Some(x) => cs.push(x),
            None => cs,
        };
        assert(feed_all(st, lines) == (s1, out));
        if line.len() > 0 && line[0] == mark() {
            let (sf, cf) = flush(s0);
            match s0.pending {
                Some(p) => {
                    assert(cf == Some(commit_of(p, s0)));
                    lemma_hashes_push(cs, commit_of(p, s0));
                    assert(commit_hashes(out) == commit_hashes(cs) + pending_hash(s0));
                },
                None => {
                    assert(commit_hashes(out) =~= commit_hashes(cs) + pending_hash(s0));
                },
            }
            assert(sf.pending is None);
            if is_full_record(line) {
                let f = split_all(line.drop_first(), sep());
                assert(pending_hash(s1) == seq![f[0]]);
                assert(commit_hashes(out) + pending_hash(s1) =~= record_hashes(pre).push(f[0]));
            } else {
                assert(pending_hash(s1) =~= Seq::<Seq<char>>::empty());
                assert(commit_hashes(out) + pending_hash(s1) =~= record_hashes(pre));
            }
        } else {
            assert(s1.pending == s0.pending);
            assert(out == cs);
        }
    }
}

/// The history reader gives one commit per record of the log, in the log's
/// order (newest first): none is lost, none comes twice, and each carries
/// the hash of its record.
pub proof fn law_one_commit_per_record(st: LogModel, lines: Seq<Seq<char>>)
    requires
        st.pending is None,
    ensures
        commit_hashes(read_all(st, lines)) == record_hashes(lines),
{
    lemma_feed_all_hashes(st, lines);
    let (s, cs) = feed_all(st, lines);
    match s.pending {
        Some(p) => {
            lemma_hashes_push(cs, commit_of(p, s));
        },
        None => {
            assert(commit_hashes(cs) + pending_hash(s) =~= commit_hashes(cs));
        },
    }
}

proof fn lemma_trim_end_char_last(s: Seq<char>, c: char)
    ensures
        trim_end_char(s, c).len() == 0 || trim_end_char(s, c).last() != c,
    decreases s.len(),
{
    if s.len() > 0 && s.last() == c {
        lemma_trim_end_char_last(s.drop_last(), c);
    }
}


/// What a commit the reader gives carries: the names of the branches whose
/// tip is its full hash (as the tips were read), its message without a
/// trailing newline, and the files read for its record; a numstat line of
/// a binary file (`-` for both counts) gives a file without line counts.
pub proof fn law_commit_contents(st: LogModel, line: Seq<char>)
    ensures
        step(st, line).2 matches Some(c) ==> c.branches == names_at(st.tips, c.full_hash) && (c.message.len()
            == 0 || c.message.last() != '\n') && c.files == st.files,
        flush(st).1 matches Some(c) ==> c.branches == names_at(st.tips, c.full_hash) && (c.message.len()
            == 0 || c.message.last() != '\n') && c.files == st.files,
        (st.pending is Some && !(line.len() > 0 && line[0] == mark()) && raw_status(line) is None
            && three_fields(line) == Some((seq!['-'], seq!['-'], line.skip(4)))) ==> step(st, line).0.files
            == st.files.push(
            FileStatModel {
                name: line.skip(4),
                added: None,
                deleted: None,
                action: next_action(st.actions).0,
            },
        ),
{
    lemma_trim_end_char_last(join_lines(st.message), '\n');
    assert(count_field(seq!['-']));
}

/// The record line of one commit: the marker, then its seven fields
/// (abbreviated hash, full hash, author, committer, time, subject, first
/// message line) separated by the field separator.
pub open spec fn record_text(
    hash: Seq<char>,
    full: Seq<char>,
    author: Seq<char>,
    committer: Seq<char>,
    time: Seq<char>,
    subject: Seq<char>,
    body: Seq<char>,
) -> Seq<char> {
    seq![mark()] + hash + seq![sep()] + full + seq![sep()] + author + seq![sep()] + committer + seq![sep()]
        + time + seq![sep()] + subject + seq![sep()] + body
}

/// A record line starts the commit it describes: its hash, full hash,
/// author, committer and committer time (0 when unreadable) are taken from
/// the fields in that order, the subject and the first message line too,
/// and the line ends the commit that was in flight.
pub proof fn law_record_fields(
    st: LogModel,
    hash: Seq<char>,
    full: Seq<char>,
    author: Seq<char>,
    committer: Seq<char>,
    time: Seq<char>,
    subject: Seq<char>,
    body: Seq<char>,
)
    requires
        lacks(hash, sep()),
        lacks(full, sep()),
        lacks(author, sep()),
        lacks(committer, sep()),
        lacks(time, sep()),
        lacks(subject, sep()),
        lacks(body, sep()),
    ensures
        ({
            let line = record_text(hash, full, author, committer, time, subject, body);
            let (s1, started, c) = step(st, line);
            &&& started
            &&& s1.pending == Some(
                PendingModel {
                    hash,
                    full_hash: full,
                    author,
                    committer,
                    timestamp: match parse_i64(time) {
                        Some(t) => t,
                        None => 0,
                    },
                },
            )
            &&& s1.subject == subject
            &&& s1.message == seq![body]
            &&& c == flush(st).1
        }),
{
    let sp = sep();
    let r6 = body;
    let r5 = subject + seq![sp] + r6;
    let r4 = time + seq![sp] + r5;
    let r3 = committer + seq![sp] + r4;
    let r2 = author + seq![sp] + r3;
    let r1 = full + seq![sp] + r2;
    let r0 = hash + seq![sp] + r1;
    let line = record_text(hash, full, author, committer, time, subject, body);
    assert(line.drop_first() =~= r0);
    assert(line[0] == mark());
    lemma_split_all_single(r6, sp);
    lemma_split_once_concat(subject, sp, r6);
    lemma_split_once_concat(time, sp, r5);
    lemma_split_once_concat(committer, sp, r4);
    lemma_split_once_concat(author, sp, r3);
    lemma_split_once_concat(full, sp, r2);
    lemma_split_once_concat(hash, sp, r1);
    assert(split_all(r0, sp) =~= seq![hash, full, author, committer, time, subject, body]);
}

/// The commit that ends a record carries that record's header as read:
/// hash, full hash, author, committer and time of the record in flight,
/// and its subject; a record in flight always gives a commit.
pub proof fn law_commit_header(st: LogModel)
    ensures
        st.pending is Some <==> flush(st).1 is Some,
        flush(st).1 matches Some(c) ==> {
            let p = st.pending->0;
            &&& c.hash == p.hash
            &&& c.full_hash == p.full_hash
            &&& c.author == p.author
            &&& c.committer == p.committer
            &&& c.timestamp == p.timestamp
            &&& c.subject == st.subject
        },
{
}

} // verus!

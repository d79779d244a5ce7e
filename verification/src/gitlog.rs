//! Git data model and the parsers for the output of the git commands that
//! the tools run (`git remote`, `git for-each-ref`, `git ls-tree`,
//! `git diff --name-status/--numstat`, `git status --porcelain`, ...).
//!
//! Running git is left to the caller; every function here takes the text
//! that git printed and returns what the tools show of it.
use vstd::prelude::*;
use crate::text::{
    renamed_new_path, renamed_new_path_exec, lacks, lemma_split_once_concat, lemma_split_once_parts,
    chars_eq, chars_of, ends_with, ends_with_exec, keep_some, lemma_keep_some_empty, lemma_keep_some_source,
    lemma_keep_some_step, lemma_take_all, lines, lines_exec, seqs, split_once, split_once_exec,
    last_word, last_word_exec, parse_u64, parse_u64_exec, lemma_idx_of, copy_range, rename_sep,
    rename_display, is_digit, parse_i64, parse_i64_exec,
    starts_with, starts_with_exec, trim_end_char, trim_end_char_exec, concat, split_all,
    split_all_exec,
    string_of, string_views, strings_of, trim, trim_exec,
};

verus! {

/// What happened to a file in a commit or in the work tree.
#[derive(Debug, Clone, Copy, PartialEq, Eq, Structural)]
pub enum Action {
    Added,
    Modified,
    Deleted,
    Renamed,
}

/// The action of a git status letter: `A`/`C` added, `D` deleted,
/// `R` renamed, anything else modified.
pub open spec fn action_of_letter(c: char) -> Action {
    if c == 'A' || c == 'C' {
        Action::Added
    } else if c == 'D' {
        Action::Deleted
    } else if c == 'R' {
        Action::Renamed
    } else {
        Action::Modified
    }
}

pub fn action_of_letter_exec(c: char) -> (a: Action)
    ensures
        a == action_of_letter(c),
{
    if c == 'A' || c == 'C' {
        Action::Added
    } else if c == 'D' {
        Action::Deleted
    } else if c == 'R' {
        Action::Renamed
    } else {
        Action::Modified
    }
}

/// One file of a commit in the history view.
#[derive(Clone, Debug)]
pub struct FileStat {
    pub name: String,
    /// None for binary files
    pub added: Option<i64>,
    /// None for binary files
    pub deleted: Option<i64>,
    pub action: Action,
}

/// One commit of the history view.
#[derive(Clone, Debug)]
pub struct Commit {
    /// Abbreviated hash, as shown in the commit list
    pub hash: String,
    /// Full 40-char hash
    pub full_hash: String,
    /// Names of local/remote branches whose tip is this commit (empty for
    /// commits that are not at the tip of any branch)
    pub branches: Vec<String>,
    pub subject: String,
    pub message: String,
    pub author: String,
    pub committer: String,
    /// Committer unix timestamp
    pub timestamp: i64,
    pub files: Vec<FileStat>,
}

/// A file entry for the commit UI: a working-tree change against `HEAD`
/// (or, in amend mode, a file of the previous commit).
#[derive(Clone, Debug)]
pub struct WorkFile {
    /// Path used for git operations (the new path for renames)
    pub path: String,
    /// Display name; renames are shown as "old => new"
    pub display_name: String,
    pub action: Action,
    /// None for binary files or files with no line-count diff (untracked)
    pub added: Option<i64>,
    pub deleted: Option<i64>,
    /// Already in the index (used to pre-check the stage checkbox)
    pub staged: bool,
    /// File exists at `HEAD` (false for untracked files)
    pub in_head: bool,
}

/// The value of a [`WorkFile`], its strings taken as characters.
pub struct WorkFileModel {
    pub path: Seq<char>,
    pub display_name: Seq<char>,
    pub action: Action,
    pub added: Option<i64>,
    pub deleted: Option<i64>,
    pub staged: bool,
    pub in_head: bool,
}

impl View for WorkFile {
    type V = WorkFileModel;

    open spec fn view(&self) -> WorkFileModel {
        WorkFileModel {
            path: self.path@,
            display_name: self.display_name@,
            action: self.action,
            added: self.added,
            deleted: self.deleted,
            staged: self.staged,
            in_head: self.in_head,
        }
    }
}

pub open spec fn work_files(v: Seq<WorkFile>) -> Seq<WorkFileModel> {
    v.map_values(|w: WorkFile| w@)
}

pub fn make_work_file(m: &WorkFileChars) -> (w: WorkFile)
    ensures
        w@ == m.model(),
{
    WorkFile {
        path: string_of(&m.path),
        display_name: string_of(&m.display_name),
        action: m.action,
        added: m.added,
        deleted: m.deleted,
        staged: m.staged,
        in_head: m.in_head,
    }
}

/// A [`WorkFile`] under construction, its strings held as characters.
pub struct WorkFileChars {
    pub path: Vec<char>,
    pub display_name: Vec<char>,
    pub action: Action,
    pub added: Option<i64>,
    pub deleted: Option<i64>,
    pub staged: bool,
    pub in_head: bool,
}

impl WorkFileChars {
    pub open spec fn model(&self) -> WorkFileModel {
        WorkFileModel {
            path: self.path@,
            display_name: self.display_name@,
            action: self.action,
            added: self.added,
            deleted: self.deleted,
            staged: self.staged,
            in_head: self.in_head,
        }
    }
}

pub open spec fn work_models(v: Seq<WorkFileChars>) -> Seq<WorkFileModel> {
    v.map_values(|w: WorkFileChars| w.model())
}

pub fn make_work_files(v: &Vec<WorkFileChars>) -> (r: Vec<WorkFile>)
    ensures
        work_files(r@) == work_models(v@),
{
    let mut r: Vec<WorkFile> = Vec::new();
    let mut i: usize = 0;
    while i < v.len()
        invariant
            i <= v.len(),
            work_files(r@) == work_models(v@).take(i as int),
        decreases v.len() - i,
    {
        let w = make_work_file(&v[i]);
        let ghost before = r@;
        assert(work_files(before).len() == i);
        r.push(w);
        assert(r@ == before.push(w));
        assert forall|j: int| 0 <= j < i + 1 implies work_files(r@)[j] == work_models(v@).take(
            i + 1,
        )[j] by {
            if j < i {
                assert(work_files(before)[j] == work_models(v@).take(i as int)[j]);
                assert(r@[j] == before[j]);
            }
        }
        assert(work_files(r@) =~= work_models(v@).take(i + 1));
        i = i + 1;
    }
    assert(work_models(v@).take(i as int) =~= work_models(v@));
    r
}

/// The editable fields of one existing commit (the rebase window).
pub struct CommitDetails {
    pub author: String,
    pub author_email: String,
    /// "YYYY-MM-DD HH:MM:SS" in local time
    pub author_date: String,
    pub committer: String,
    pub committer_email: String,
    /// "YYYY-MM-DD HH:MM:SS" in local time
    pub committer_date: String,
    pub message: String,
}

// ---------------------------------------------------------------------------
// git remote
// ---------------------------------------------------------------------------

/// A line of `git remote`: the trimmed name, if any.
pub open spec fn remote_of_line(l: Seq<char>) -> Option<Seq<char>> {
    if trim(l).len() > 0 {
        Some(trim(l))
    } else {
        None
    }
}

pub open spec fn remote_fn() -> spec_fn(Seq<char>) -> Option<Seq<char>> {
    |l: Seq<char>| remote_of_line(l)
}

pub open spec fn remotes_spec(output: Seq<char>) -> Seq<Seq<char>> {
    keep_some(lines(output), remote_fn())
}

/// Names of the configured remotes, in `git remote` order: the trimmed,
/// non-empty lines of its output.
pub fn remotes(output: &str) -> (r: Vec<String>)
    ensures
        string_views(r@) == remotes_spec(output@),
{
    let text = chars_of(output);
    let ls = lines_exec(&text);
    let mut names: Vec<Vec<char>> = Vec::new();
    let mut i: usize = 0;
    proof {
        lemma_keep_some_empty(seqs(ls@), remote_fn());
    }
    while i < ls.len()
        invariant
            i <= ls.len(),
            seqs(ls@) == lines(output@),
            seqs(names@) == keep_some(seqs(ls@).take(i as int), remote_fn()),
        decreases ls.len() - i,
    {
        proof {
            lemma_keep_some_step(seqs(ls@), remote_fn(), i as int);
        }
        let t = trim_exec(&ls[i]);
        assert(seqs(ls@)[i as int] == ls@[i as int]@);
        assert((remote_fn())(seqs(ls@)[i as int]) == remote_of_line(ls@[i as int]@));
        if t.len() > 0 {
            let ghost before = names@;
            names.push(t);
            assert(seqs(names@) =~= seqs(before).push(t@));
        }
        i = i + 1;
    }
    proof {
        lemma_take_all(seqs(ls@));
    }
    strings_of(&names)
}

// ---------------------------------------------------------------------------
// git for-each-ref: branch tips
// ---------------------------------------------------------------------------

/// `"/HEAD"`
pub open spec fn head_suffix() -> Seq<char> {
    seq!['/', 'H', 'E', 'A', 'D']
}

/// A line `refname \x01 hash \x01 short-name` of `git for-each-ref`:
/// (trimmed hash, short name), none for malformed lines and for symbolic
/// `.../HEAD` refs.
pub open spec fn tip_of_line(l: Seq<char>) -> Option<(Seq<char>, Seq<char>)> {
    match split_once(l, '\u{1}') {
        None => None,
        Some((refname, rest)) => match split_once(rest, '\u{1}') {
            None => None,
            Some((hash, name)) => {
                if ends_with(trim(refname), head_suffix()) {
                    None
                } else {
                    Some((trim(hash), name))
                }
            },
        },
    }
}

/// The (hash, branch name) pairs of a `git for-each-ref` output, in order.
pub open spec fn tip_entries(output: Seq<char>) -> Seq<(Seq<char>, Seq<char>)> {
    keep_some(lines(output), tip_fn())
}

pub open spec fn tip_fn() -> spec_fn(Seq<char>) -> Option<(Seq<char>, Seq<char>)> {
    |l: Seq<char>| tip_of_line(l)
}

pub open spec fn name_if_at(h: Seq<char>) -> spec_fn((Seq<char>, Seq<char>)) -> Option<Seq<char>> {
    |e: (Seq<char>, Seq<char>)| if e.0 == h { Some(e.1) } else { None }
}

/// The branch names of the entries at hash `h`, in order.
pub open spec fn names_at(entries: Seq<(Seq<char>, Seq<char>)>, h: Seq<char>) -> Seq<Seq<char>> {
    keep_some(entries, name_if_at(h))
}

/// `groups` holds, for every hash of `entries` exactly once, the names at
/// that hash in order (a map hash -> names).
pub open spec fn groups_entries(
    groups: Seq<(Seq<char>, Seq<Seq<char>>)>,
    entries: Seq<(Seq<char>, Seq<char>)>,
) -> bool {
    &&& forall|i: int, j: int|
        0 <= i < j < groups.len() ==> #[trigger] groups[i].0 != #[trigger] groups[j].0
    &&& forall|i: int| 0 <= i < groups.len() ==> #[trigger] groups[i].1 == names_at(entries, groups[i].0)
    &&& forall|i: int| 0 <= i < groups.len() ==> (#[trigger] groups[i].1).len() > 0
    &&& forall|k: int|
        0 <= k < entries.len() ==> exists|i: int| 0 <= i < groups.len() && #[trigger] groups[i].0 == (
        #[trigger] entries[k]).0
}

pub open spec fn group_views(g: Seq<(Vec<char>, Vec<Vec<char>>)>) -> Seq<(Seq<char>, Seq<Seq<char>>)> {
    g.map_values(|e: (Vec<char>, Vec<Vec<char>>)| (e.0@, seqs(e.1@)))
}

pub open spec fn tip_views(g: Seq<(String, Vec<String>)>) -> Seq<(Seq<char>, Seq<Seq<char>>)> {
    g.map_values(|e: (String, Vec<String>)| (e.0@, string_views(e.1@)))
}

/// `"/HEAD"` as characters.
fn head_suffix_exec() -> (r: Vec<char>)
    ensures
        r@ == head_suffix(),
{
    let r = vec!['/', 'H', 'E', 'A', 'D'];
    assert(r@ =~= head_suffix());
    r
}

/// The (hash, name) entry of one `for-each-ref` line.
fn tip_of_line_exec(l: &Vec<char>) -> (r: Option<(Vec<char>, Vec<char>)>)
    ensures
        match r {
            Some((h, n)) => tip_of_line(l@) == Some((h@, n@)),
            None => tip_of_line(l@) is None,
        },
{
    let (refname, rest) = match split_once_exec(l, '\u{1}') {
        Some(p) => p,
        None => return None,
    };
    let (hash, name) = match split_once_exec(&rest, '\u{1}') {
        Some(p) => p,
        None => return None,
    };
    let r = trim_exec(&refname);
    if ends_with_exec(&r, &head_suffix_exec()) {
        return None;
    }
    Some((trim_exec(&hash), name))
}

/// Index of the group whose hash is `h`.
fn find_group(groups: &Vec<(Vec<char>, Vec<Vec<char>>)>, h: &Vec<char>) -> (r: Option<usize>)
    ensures
        match r {
            Some(i) => i < groups.len() && group_views(groups@)[i as int].0 == h@,
            None => forall|i: int| 0 <= i < groups.len() ==> group_views(groups@)[i].0 != h@,
        },
{
    let mut i: usize = 0;
    while i < groups.len()
        invariant
            i <= groups.len(),
            forall|j: int| 0 <= j < i ==> group_views(groups@)[j].0 != h@,
        decreases groups.len() - i,
    {
        if chars_eq(&groups[i].0, h) {
            return Some(i);
        }
        i = i + 1;
    }
    None
}

proof fn lemma_names_at_absent(entries: Seq<(Seq<char>, Seq<char>)>, h: Seq<char>)
    requires
        forall|k: int| 0 <= k < entries.len() ==> (#[trigger] entries[k]).0 != h,
    ensures
        names_at(entries, h) == Seq::<Seq<char>>::empty(),
    decreases entries.len(),
{
    if entries.len() > 0 {
        lemma_names_at_absent(entries.drop_last(), h);
    }
}

/// The branch names of `for-each-ref` output grouped by tip hash.
pub fn tip_groups(text: &Vec<char>) -> (groups: Vec<(Vec<char>, Vec<Vec<char>>)>)
    ensures
        groups_entries(group_views(groups@), tip_entries(text@)),
{
    let ls = lines_exec(text);
    let ghost entries = tip_entries(text@);
    let mut groups: Vec<(Vec<char>, Vec<Vec<char>>)> = Vec::new();
    let mut i: usize = 0;
    proof {
        lemma_keep_some_empty(seqs(ls@), tip_fn());
    }
    while i < ls.len()
        invariant
            i <= ls.len(),
            seqs(ls@) == lines(text@),
            entries == tip_entries(text@),
            groups_entries(group_views(groups@), keep_some(seqs(ls@).take(i as int), tip_fn())),
        decreases ls.len() - i,
    {
        let ghost done = keep_some(seqs(ls@).take(i as int), tip_fn());
        proof {
            lemma_keep_some_step(seqs(ls@), tip_fn(), i as int);
        }
        match tip_of_line_exec(&ls[i]) {
            None => {},
            Some((h, n)) => {
                let ghost e = (h@, n@);
                let ghost now = done.push(e);
                let ghost gv = group_views(groups@);
                proof {
                    assert forall|k: Seq<char>| #[trigger] names_at(now, k) == if k == h@ {
                        names_at(done, k).push(n@)
                    } else {
                        names_at(done, k)
                    } by {
                        assert(now.drop_last() =~= done);
                    }
                }
                match find_group(&groups, &h) {
                    Some(j) => {
                        let ghost old_groups = groups@;
                        let ghost nv = n@;
                        let mut entry = (Vec::new(), Vec::new());
                        groups.set_and_swap(j, &mut entry);
                        entry.1.push(n);
                        groups.set_and_swap(j, &mut entry);
                        assert(groups@ == old_groups.update(j as int, groups@[j as int]));
                        assert(seqs(groups@[j as int].1@) =~= seqs(old_groups[j as int].1@).push(nv));
                        let ghost gv2 = group_views(groups@);
                        assert(gv2 =~= gv.update(j as int, (gv[j as int].0, gv[j as int].1.push(e.1))));
                        assert forall|a: int| 0 <= a < gv2.len() implies #[trigger] gv2[a].1 == names_at(
                            now,
                            gv2[a].0,
                        ) by {
                            if a != j {
                                assert(gv[a].0 != gv[j as int].0);
                            }
                        }
                        assert forall|k: int| 0 <= k < now.len() implies exists|a: int|
                            0 <= a < gv2.len() && #[trigger] gv2[a].0 == (#[trigger] now[k]).0 by {
                            if k < done.len() {
                                assert(now[k] == done[k]);
                                let a = choose|a: int| 0 <= a < gv.len() && #[trigger] gv[a].0 == done[k].0;
                                assert(gv2[a].0 == gv[a].0);
                            } else {
                                assert(gv2[j as int].0 == now[k].0);
                            }
                        }
                    },
                    None => {
                        let ghost nm = n@;
                        let mut names: Vec<Vec<char>> = Vec::new();
                        names.push(n);
                        assert(seqs(names@) =~= seq![nm]);
                        groups.push((h, names));
                        let ghost gv2 = group_views(groups@);
                        assert(gv2 =~= gv.push((e.0, seq![nm])));
                        proof {
                            assert forall|k: int| 0 <= k < done.len() implies (#[trigger] done[k]).0 != e.0 by {
                                let a = choose|a: int| 0 <= a < gv.len() && #[trigger] gv[a].0 == done[k].0;
                            }
                            lemma_names_at_absent(done, e.0);
                            assert(names_at(now, e.0) =~= seq![nm]);
                        }
                        assert forall|a: int| 0 <= a < gv2.len() implies #[trigger] gv2[a].1 == names_at(
                            now,
                            gv2[a].0,
                        ) by {
                            if a < gv.len() {
                                assert(gv2[a] == gv[a]);
                            }
                        }
                        assert forall|k: int| 0 <= k < now.len() implies exists|a: int|
                            0 <= a < gv2.len() && #[trigger] gv2[a].0 == (#[trigger] now[k]).0 by {
                            if k < done.len() {
                                assert(now[k] == done[k]);
                                let a = choose|a: int| 0 <= a < gv.len() && #[trigger] gv[a].0 == done[k].0;
                                assert(gv2[a].0 == gv[a].0);
                            } else {
                                assert(gv2[gv.len() as int].0 == now[k].0);
                            }
                        }
                    },
                }
            },
        }
        i = i + 1;
    }
    proof {
        lemma_take_all(seqs(ls@));
    }
    groups
}

/// The tips of `git for-each-ref refs/heads refs/remotes
/// --format=%(refname)\x01%(objectname)\x01%(refname:short)`: for every
/// tip hash the names of the branches there, in refname order. Symbolic
/// `.../HEAD` refs (whose short name is just the remote's name) are left
/// out.
pub fn branch_tips(output: &str) -> (r: Vec<(String, Vec<String>)>)
    ensures
        groups_entries(tip_views(r@), tip_entries(output@)),
{
    let text = chars_of(output);
    let g = tip_groups(&text);
    let mut r: Vec<(String, Vec<String>)> = Vec::new();
    let mut i: usize = 0;
    while i < g.len()
        invariant
            i <= g.len(),
            tip_views(r@) == group_views(g@).take(i as int),
        decreases g.len() - i,
    {
        let e = (string_of(&g[i].0), strings_of(&g[i].1));
        let ghost before = r@;
        assert(tip_views(before).len() == i);
        r.push(e);
        assert(r@ == before.push(e));
        assert forall|j: int| 0 <= j < i + 1 implies tip_views(r@)[j] == group_views(g@).take(
            i + 1,
        )[j] by {
            if j < i {
                assert(tip_views(before)[j] == group_views(g@).take(i as int)[j]);
                assert(r@[j] == before[j]);
            }
        }
        assert(tip_views(r@) =~= group_views(g@).take(i + 1));
        i = i + 1;
    }
    assert(group_views(g@).take(i as int) =~= group_views(g@));
    r
}

/// The branch names at `hash` in a tips map (none if `hash` is no tip).
pub fn branches_at(tips: &Vec<(String, Vec<String>)>, hash: &str) -> (r: Vec<String>)
    ensures
        (exists|i: int| 0 <= i < tips.len() && tip_views(tips@)[i].0 == hash@) ==> exists|i: int|
            0 <= i < tips.len() && tip_views(tips@)[i].0 == hash@ && string_views(r@) == tip_views(
                tips@,
            )[i].1,
        (forall|i: int| 0 <= i < tips.len() ==> tip_views(tips@)[i].0 != hash@) ==> r@.len() == 0,
{
    let h = chars_of(hash);
    let mut i: usize = 0;
    while i < tips.len()
        invariant
            i <= tips.len(),
            h@ == hash@,
            forall|j: int| 0 <= j < i ==> tip_views(tips@)[j].0 != hash@,
        decreases tips.len() - i,
    {
        let k = chars_of(tips[i].0.as_str());
        assert(k@ == tip_views(tips@)[i as int].0);
        if chars_eq(&k, &h) {
            let names = &tips[i].1;
            let mut r: Vec<String> = Vec::new();
            let mut j: usize = 0;
            while j < names.len()
                invariant
                    j <= names.len(),
                    string_views(r@) == string_views(names@).take(j as int),
                decreases names.len() - j,
            {
                let x = names[j].clone();
                let ghost before = r@;
                assert(string_views(before).len() == j);
                r.push(x);
                assert(r@ == before.push(x));
                assert forall|a: int| 0 <= a < j + 1 implies string_views(r@)[a] == string_views(
                    names@,
                ).take(j + 1)[a] by {
                    if a < j {
                        assert(string_views(before)[a] == string_views(names@).take(j as int)[a]);
                        assert(r@[a] == before[a]);
                    }
                }
                assert(string_views(r@) =~= string_views(names@).take(j + 1));
                j = j + 1;
            }
            assert(string_views(names@).take(j as int) =~= string_views(names@));
            assert(tip_views(tips@)[i as int].1 == string_views(names@));
            return r;
        }
        i = i + 1;
    }
    Vec::new()
}

// ---------------------------------------------------------------------------
// git ls-tree -r -l: file sizes
// ---------------------------------------------------------------------------

/// A line `<mode> <type> <size>\t<path>` of `git ls-tree -r -l`: the path
/// and the size, none where the size is not a number.
pub open spec fn size_of_line(l: Seq<char>) -> Option<(Seq<char>, u64)> {
    match split_once(l, '\t') {
        None => None,
        Some((meta, path)) => match last_word(meta) {
            None => None,
            Some(w) => match parse_u64(w) {
                None => None,
                Some(v) => Some((path, v)),
            },
        },
    }
}

pub open spec fn size_fn() -> spec_fn(Seq<char>) -> Option<(Seq<char>, u64)> {
    |l: Seq<char>| size_of_line(l)
}

pub open spec fn size_entries(output: Seq<char>) -> Seq<(Seq<char>, u64)> {
    keep_some(lines(output), size_fn())
}

/// The size of the last entry for `p`.
pub open spec fn last_size(entries: Seq<(Seq<char>, u64)>, p: Seq<char>) -> Option<u64>
    decreases entries.len(),
{
    if entries.len() == 0 {
        None
    } else if entries.last().0 == p {
        Some(entries.last().1)
    } else {
        last_size(entries.drop_last(), p)
    }
}

/// `sizes` maps each path of `entries` exactly once to its last size.
pub open spec fn sizes_map(sizes: Seq<(Seq<char>, u64)>, entries: Seq<(Seq<char>, u64)>) -> bool {
    &&& forall|i: int, j: int|
        0 <= i < j < sizes.len() ==> #[trigger] sizes[i].0 != #[trigger] sizes[j].0
    &&& forall|i: int| 0 <= i < sizes.len() ==> Some(#[trigger] sizes[i].1) == last_size(entries, sizes[i].0)
    &&& forall|k: int|
        0 <= k < entries.len() ==> exists|i: int| 0 <= i < sizes.len() && #[trigger] sizes[i].0 == (
        #[trigger] entries[k]).0
}

pub open spec fn size_views(v: Seq<(Vec<char>, u64)>) -> Seq<(Seq<char>, u64)> {
    v.map_values(|e: (Vec<char>, u64)| (e.0@, e.1))
}

pub open spec fn size_string_views(v: Seq<(String, u64)>) -> Seq<(Seq<char>, u64)> {
    v.map_values(|e: (String, u64)| (e.0@, e.1))
}

fn size_of_line_exec(l: &Vec<char>) -> (r: Option<(Vec<char>, u64)>)
    ensures
        match r {
            Some((p, v)) => size_of_line(l@) == Some((p@, v)),
            None => size_of_line(l@) is None,
        },
{
    let (meta, path) = match split_once_exec(l, '\t') {
        Some(x) => x,
        None => return None,
    };
    let w = match last_word_exec(&meta) {
        Some(w) => w,
        None => return None,
    };
    match parse_u64_exec(&w) {
        Some(v) => Some((path, v)),
        None => None,
    }
}

fn find_size(sizes: &Vec<(Vec<char>, u64)>, p: &Vec<char>) -> (r: Option<usize>)
    ensures
        match r {
            Some(i) => i < sizes.len() && size_views(sizes@)[i as int].0 == p@,
            None => forall|i: int| 0 <= i < sizes.len() ==> size_views(sizes@)[i].0 != p@,
        },
{
    let mut i: usize = 0;
    while i < sizes.len()
        invariant
            i <= sizes.len(),
            forall|j: int| 0 <= j < i ==> size_views(sizes@)[j].0 != p@,
        decreases sizes.len() - i,
    {
        if chars_eq(&sizes[i].0, p) {
            return Some(i);
        }
        i = i + 1;
    }
    None
}

/// File sizes (bytes) of all files at a commit, keyed by path, from the
/// output of `git ls-tree -r -l <commit>`; a path listed twice keeps its
/// last size, lines without a numeric size are skipped.
pub fn file_sizes(output: &str) -> (r: Vec<(String, u64)>)
    ensures
        sizes_map(size_string_views(r@), size_entries(output@)),
{
    let text = chars_of(output);
    let ls = lines_exec(&text);
    let mut sizes: Vec<(Vec<char>, u64)> = Vec::new();
    let mut i: usize = 0;
    proof {
        lemma_keep_some_empty(seqs(ls@), size_fn());
    }
    while i < ls.len()
        invariant
            i <= ls.len(),
            seqs(ls@) == lines(text@),
            text@ == output@,
            sizes_map(size_views(sizes@), keep_some(seqs(ls@).take(i as int), size_fn())),
        decreases ls.len() - i,
    {
        let ghost done = keep_some(seqs(ls@).take(i as int), size_fn());
        proof {
            lemma_keep_some_step(seqs(ls@), size_fn(), i as int);
            assert(seqs(ls@)[i as int] == ls@[i as int]@);
        }
        match size_of_line_exec(&ls[i]) {
            None => {},
            Some((p, v)) => {
                let ghost e = (p@, v);
                let ghost now = done.push(e);
                let ghost sv = size_views(sizes@);
                assert forall|q: Seq<char>| #[trigger] last_size(now, q) == if q == e.0 {
                    Some(v)
                } else {
                    last_size(done, q)
                } by {
                    assert(now.drop_last() =~= done);
                }
                match find_size(&sizes, &p) {
                    Some(j) => {
                        sizes.set(j, (p, v));
                        let ghost sv2 = size_views(sizes@);
                        assert(sv2 =~= sv.update(j as int, e));
                        assert forall|a: int| 0 <= a < sv2.len() implies Some(#[trigger] sv2[a].1)
                            == last_size(now, sv2[a].0) by {
                            if a != j {
                                assert(sv[a].0 != sv[j as int].0);
                            }
                        }
                        assert forall|k: int| 0 <= k < now.len() implies exists|a: int|
                            0 <= a < sv2.len() && #[trigger] sv2[a].0 == (#[trigger] now[k]).0 by {
                            if k < done.len() {
                                assert(now[k] == done[k]);
                                let a = choose|a: int| 0 <= a < sv.len() && #[trigger] sv[a].0 == done[k].0;
                                assert(sv2[a].0 == sv[a].0);
                            } else {
                                assert(sv2[j as int].0 == now[k].0);
                            }
                        }
                    },
                    None => {
                        sizes.push((p, v));
                        let ghost sv2 = size_views(sizes@);
                        assert(sv2 =~= sv.push(e));
                        assert forall|a: int| 0 <= a < sv2.len() implies Some(#[trigger] sv2[a].1)
                            == last_size(now, sv2[a].0) by {
                            if a < sv.len() {
                                assert(sv2[a] == sv[a]);
                            }
                        }
                        assert forall|k: int| 0 <= k < now.len() implies exists|a: int|
                            0 <= a < sv2.len() && #[trigger] sv2[a].0 == (#[trigger] now[k]).0 by {
                            if k < done.len() {
                                assert(now[k] == done[k]);
                                let a = choose|a: int| 0 <= a < sv.len() && #[trigger] sv[a].0 == done[k].0;
                                assert(sv2[a].0 == sv[a].0);
                            } else {
                                assert(sv2[sv.len() as int].0 == now[k].0);
                            }
                        }
                    },
                }
            },
        }
        i = i + 1;
    }
    proof {
        lemma_take_all(seqs(ls@));
    }
    let mut r: Vec<(String, u64)> = Vec::new();
    let mut k: usize = 0;
    while k < sizes.len()
        invariant
            k <= sizes.len(),
            size_string_views(r@) == size_views(sizes@).take(k as int),
        decreases sizes.len() - k,
    {
        let e = (string_of(&sizes[k].0), sizes[k].1);
        let ghost before = r@;
        assert(size_string_views(before).len() == k);
        r.push(e);
        assert(r@ == before.push(e));
        assert forall|j: int| 0 <= j < k + 1 implies size_string_views(r@)[j] == size_views(
            sizes@,
        ).take(k + 1)[j] by {
            if j < k {
                assert(size_string_views(before)[j] == size_views(sizes@).take(k as int)[j]);
                assert(r@[j] == before[j]);
            }
        }
        assert(size_string_views(r@) =~= size_views(sizes@).take(k + 1));
        k = k + 1;
    }
    assert(size_views(sizes@).take(k as int) =~= size_views(sizes@));
    r
}

// ---------------------------------------------------------------------------
// git diff --name-status / --numstat, git status --porcelain
// ---------------------------------------------------------------------------

/// No line of `text` starts with a tab (a line whose status field is empty,
/// which git never prints and on which the parsers would stop).
pub open spec fn no_tab_led_line(text: Seq<char>) -> bool {
    forall|i: int|
        0 <= i < lines(text).len() ==> (#[trigger] lines(text)[i]).len() > 0 ==> lines(text)[i][0]
            != '\t'
}

/// A `git diff --name-status` line `<X>[<score>]\t<file>` or
/// `<R|C><score>\t<old>\t<new>`: (path, action, display name); renames are
/// shown as "old => new" and carry the new path.
pub open spec fn ns_entry(l: Seq<char>) -> Option<(Seq<char>, Action, Seq<char>)> {
    match split_once(l, '\t') {
        None => None,
        Some((code, rest)) => match split_once(rest, '\t') {
            None => Some((rest, action_of_letter(code[0]), rest)),
            Some((first, new)) => Some((new, action_of_letter(code[0]), first + rename_sep() + new)),
        },
    }
}

pub open spec fn ns_fn() -> spec_fn(Seq<char>) -> Option<(Seq<char>, Action, Seq<char>)> {
    |l: Seq<char>| ns_entry(l)
}

pub open spec fn ns_entries(output: Seq<char>) -> Seq<(Seq<char>, Action, Seq<char>)> {
    keep_some(lines(output), ns_fn())
}

pub open spec fn ns_views(v: Seq<(Vec<char>, Action, Vec<char>)>) -> Seq<(Seq<char>, Action, Seq<char>)> {
    v.map_values(|e: (Vec<char>, Action, Vec<char>)| (e.0@, e.1, e.2@))
}

pub open spec fn ns_string_views(v: Seq<(String, Action, String)>) -> Seq<(Seq<char>, Action, Seq<char>)> {
    v.map_values(|e: (String, Action, String)| (e.0@, e.1, e.2@))
}

fn ns_entry_exec(l: &Vec<char>) -> (r: Option<(Vec<char>, Action, Vec<char>)>)
    requires
        l@.len() > 0 ==> l@[0] != '\t',
    ensures
        match r {
            Some((p, a, d)) => ns_entry(l@) == Some((p@, a, d@)),
            None => ns_entry(l@) is None,
        },
{
    let (code, rest) = match split_once_exec(l, '\t') {
        Some(x) => x,
        None => return None,
    };
    proof {
        lemma_idx_of(l@, '\t');
    }
    let action = action_of_letter_exec(code[0]);
    match split_once_exec(&rest, '\t') {
        None => {
            let path = copy_range(&rest, 0, rest.len());
            assert(path@ =~= rest@);
            Some((path, action, rest))
        },
        Some((first, new)) => {
            let display = rename_display(&first, &new);
            Some((new, action, display))
        },
    }
}

fn ns_entries_exec(text: &Vec<char>) -> (r: Vec<(Vec<char>, Action, Vec<char>)>)
    requires
        no_tab_led_line(text@),
    ensures
        ns_views(r@) == ns_entries(text@),
{
    let ls = lines_exec(text);
    let mut r: Vec<(Vec<char>, Action, Vec<char>)> = Vec::new();
    let mut i: usize = 0;
    proof {
        lemma_keep_some_empty(seqs(ls@), ns_fn());
    }
    while i < ls.len()
        invariant
            i <= ls.len(),
            seqs(ls@) == lines(text@),
            no_tab_led_line(text@),
            ns_views(r@) == keep_some(seqs(ls@).take(i as int), ns_fn()),
        decreases ls.len() - i,
    {
        proof {
            lemma_keep_some_step(seqs(ls@), ns_fn(), i as int);
            assert(seqs(ls@)[i as int] == ls@[i as int]@);
            assert(lines(text@)[i as int] == ls@[i as int]@);
        }
        match ns_entry_exec(&ls[i]) {
            None => {},
            Some(e) => {
                let ghost before = r@;
                let ghost ev = (e.0@, e.1, e.2@);
                r.push(e);
                assert(ns_views(r@) =~= ns_views(before).push(ev));
            },
        }
        i = i + 1;
    }
    proof {
        lemma_take_all(seqs(ls@));
    }
    r
}

/// The entries of `git diff --name-status` output: (path, action, display
/// name) per line with a tab.
pub fn name_status(output: &str) -> (r: Vec<(String, Action, String)>)
    requires
        no_tab_led_line(output@),
    ensures
        ns_string_views(r@) == ns_entries(output@),
{
    let text = chars_of(output);
    let es = ns_entries_exec(&text);
    let mut r: Vec<(String, Action, String)> = Vec::new();
    let mut i: usize = 0;
    while i < es.len()
        invariant
            i <= es.len(),
            ns_string_views(r@) == ns_views(es@).take(i as int),
        decreases es.len() - i,
    {
        let e = (string_of(&es[i].0), es[i].1, string_of(&es[i].2));
        let ghost before = r@;
        assert(ns_string_views(before).len() == i);
        r.push(e);
        assert(r@ == before.push(e));
        assert forall|j: int| 0 <= j < i + 1 implies ns_string_views(r@)[j] == ns_views(es@).take(
            i + 1,
        )[j] by {
            if j < i {
                assert(ns_string_views(before)[j] == ns_views(es@).take(i as int)[j]);
                assert(r@[j] == before[j]);
            }
        }
        assert(ns_string_views(r@) =~= ns_views(es@).take(i + 1));
        i = i + 1;
    }
    assert(ns_views(es@).take(i as int) =~= ns_views(es@));
    r
}

/// A diff line count field: digits and dashes, not empty.
pub open spec fn is_count_spec(t: Seq<char>) -> bool {
    t.len() > 0 && forall|i: int| 0 <= i < t.len() ==> is_digit(#[trigger] t[i]) || t[i] == '-'
}

/// `git diff --numstat` shows renames as "old => new"; the index and the
/// tree only know the new path, the trimmed text after the last arrow.
pub open spec fn numstat_path_spec(p: Seq<char>) -> Seq<char> {
    renamed_new_path(p)
}

pub fn is_count_exec(t: &Vec<char>) -> (r: bool)
    ensures
        r == is_count_spec(t@),
{
    if t.len() == 0 {
        return false;
    }
    let mut i: usize = 0;
    while i < t.len()
        invariant
            i <= t.len(),
            forall|j: int| 0 <= j < i ==> is_digit(#[trigger] t@[j]) || t@[j] == '-',
        decreases t.len() - i,
    {
        if !(('0' <= t[i] && t[i] <= '9') || t[i] == '-') {
            return false;
        }
        i = i + 1;
    }
    true
}

/// True when `t` is a line count field of `git diff --numstat` (digits and
/// dashes, not empty).
pub fn is_count(t: &str) -> (r: bool)
    ensures
        r == is_count_spec(t@),
{
    is_count_exec(&chars_of(t))
}

pub fn numstat_path_exec(p: &Vec<char>) -> (r: Vec<char>)
    ensures
        r@ == numstat_path_spec(p@),
{
    renamed_new_path_exec(p)
}

/// The path of a `--numstat` file field as the index and the tree know
/// it: for a rename "old => new" the new path, for git's short form
/// "dir/{old => new}/rest" the expanded "dir/new/rest"; trimmed.
pub fn numstat_path(p: &str) -> (r: String)
    ensures
        r@ == numstat_path_spec(p@),
{
    string_of(&numstat_path_exec(&chars_of(p)))
}

/// Line counts of a `--numstat` line; `-` (binary) gives none.
pub type Counts = (Option<i64>, Option<i64>);

/// A `git diff --numstat` line `<added>\t<deleted>\t<path>`: (path, counts).
pub open spec fn numstat_entry(l: Seq<char>) -> Option<(Seq<char>, Counts)> {
    match split_once(l, '\t') {
        None => None,
        Some((a, r1)) => match split_once(r1, '\t') {
            None => None,
            Some((d, p)) => {
                if is_count_spec(a) && is_count_spec(d) {
                    Some((numstat_path_spec(p), (parse_i64(a), parse_i64(d))))
                } else {
                    None
                }
            },
        },
    }
}

pub open spec fn numstat_fn() -> spec_fn(Seq<char>) -> Option<(Seq<char>, Counts)> {
    |l: Seq<char>| numstat_entry(l)
}

pub open spec fn numstat_entries(output: Seq<char>) -> Seq<(Seq<char>, Counts)> {
    keep_some(lines(output), numstat_fn())
}

/// The counts of the last entry for `p`, none of either if there is none.
pub open spec fn counts_at(entries: Seq<(Seq<char>, Counts)>, p: Seq<char>) -> Counts
    decreases entries.len(),
{
    if entries.len() == 0 {
        (None, None)
    } else if entries.last().0 == p {
        entries.last().1
    } else {
        counts_at(entries.drop_last(), p)
    }
}

pub open spec fn count_views(v: Seq<(Vec<char>, Counts)>) -> Seq<(Seq<char>, Counts)> {
    v.map_values(|e: (Vec<char>, Counts)| (e.0@, e.1))
}

fn numstat_entry_exec(l: &Vec<char>) -> (r: Option<(Vec<char>, Counts)>)
    ensures
        match r {
            Some((p, c)) => numstat_entry(l@) == Some((p@, c)),
            None => numstat_entry(l@) is None,
        },
{
    let (a, r1) = match split_once_exec(l, '\t') {
        Some(x) => x,
        None => return None,
    };
    let (d, p) = match split_once_exec(&r1, '\t') {
        Some(x) => x,
        None => return None,
    };
    if is_count_exec(&a) && is_count_exec(&d) {
        Some((numstat_path_exec(&p), (parse_i64_exec(&a), parse_i64_exec(&d))))
    } else {
        None
    }
}

/// The (path, counts) entries of `git diff --numstat` output, in order;
/// a path listed twice counts by its last entry (see [`counts_at`]).
pub fn numstat_entries_exec(text: &Vec<char>) -> (r: Vec<(Vec<char>, Counts)>)
    ensures
        count_views(r@) == numstat_entries(text@),
{
    let ls = lines_exec(text);
    let mut r: Vec<(Vec<char>, Counts)> = Vec::new();
    let mut i: usize = 0;
    proof {
        lemma_keep_some_empty(seqs(ls@), numstat_fn());
    }
    while i < ls.len()
        invariant
            i <= ls.len(),
            seqs(ls@) == lines(text@),
            count_views(r@) == keep_some(seqs(ls@).take(i as int), numstat_fn()),
        decreases ls.len() - i,
    {
        proof {
            lemma_keep_some_step(seqs(ls@), numstat_fn(), i as int);
            assert(seqs(ls@)[i as int] == ls@[i as int]@);
        }
        match numstat_entry_exec(&ls[i]) {
            None => {},
            Some(e) => {
                let ghost before = r@;
                let ghost ev = (e.0@, e.1);
                r.push(e);
                assert(count_views(r@) =~= count_views(before).push(ev));
            },
        }
        i = i + 1;
    }
    proof {
        lemma_take_all(seqs(ls@));
    }
    r
}

/// `counts_at` of a path.
pub fn counts_lookup(entries: &Vec<(Vec<char>, Counts)>, p: &Vec<char>) -> (r: Counts)
    ensures
        r == counts_at(count_views(entries@), p@),
{
    let ghost cv = count_views(entries@);
    let mut j: usize = entries.len();
    assert(cv.take(j as int) =~= cv);
    while j > 0
        invariant
            j <= entries.len(),
            cv == count_views(entries@),
            counts_at(cv, p@) == counts_at(cv.take(j as int), p@),
        decreases j,
    {
        assert(cv.take(j as int).drop_last() =~= cv.take(j - 1));
        assert(cv.take(j as int).last() == cv[j - 1]);
        if chars_eq(&entries[j - 1].0, p) {
            return entries[j - 1].1;
        }
        j = j - 1;
    }
    (None, None)
}

/// `"?? "`, the prefix of an untracked file in `git status --porcelain=v1`.
pub open spec fn untracked_prefix() -> Seq<char> {
    seq!['?', '?', ' ']
}

pub open spec fn untracked_of_line(l: Seq<char>) -> Option<Seq<char>> {
    if starts_with(l, untracked_prefix()) {
        Some(l.skip(3))
    } else {
        None
    }
}

pub open spec fn untracked_fn() -> spec_fn(Seq<char>) -> Option<Seq<char>> {
    |l: Seq<char>| untracked_of_line(l)
}

/// Untracked files of `git status --porcelain=v1` output.
pub open spec fn untracked_spec(output: Seq<char>) -> Seq<Seq<char>> {
    keep_some(lines(output), untracked_fn())
}

fn untracked_exec(text: &Vec<char>) -> (r: Vec<Vec<char>>)
    ensures
        seqs(r@) == untracked_spec(text@),
{
    let ls = lines_exec(text);
    let prefix = vec!['?', '?', ' '];
    assert(prefix@ =~= untracked_prefix());
    let mut r: Vec<Vec<char>> = Vec::new();
    let mut i: usize = 0;
    proof {
        lemma_keep_some_empty(seqs(ls@), untracked_fn());
    }
    while i < ls.len()
        invariant
            i <= ls.len(),
            seqs(ls@) == lines(text@),
            prefix@ == untracked_prefix(),
            seqs(r@) == keep_some(seqs(ls@).take(i as int), untracked_fn()),
        decreases ls.len() - i,
    {
        proof {
            lemma_keep_some_step(seqs(ls@), untracked_fn(), i as int);
            assert(seqs(ls@)[i as int] == ls@[i as int]@);
        }
        if starts_with_exec(&ls[i], &prefix) {
            let p = copy_range(&ls[i], 3, ls[i].len());
            assert(p@ =~= ls@[i as int]@.skip(3));
            let ghost before = r@;
            r.push(p);
            assert(seqs(r@) =~= seqs(before).push(p@));
        }
        i = i + 1;
    }
    proof {
        lemma_take_all(seqs(ls@));
    }
    r
}

/// Untracked files, from `git status --porcelain=v1` output: the lines
/// that start with "?? ", without that prefix.
pub fn untracked_files(output: &str) -> (r: Vec<String>)
    ensures
        string_views(r@) == untracked_spec(output@),
{
    strings_of(&untracked_exec(&chars_of(output)))
}

// ---------------------------------------------------------------------------
// Working-tree changes
// ---------------------------------------------------------------------------

/// A changed file of `git diff --name-status -M HEAD`, with its line counts
/// and whether it is staged.
pub open spec fn changed_file(
    e: (Seq<char>, Action, Seq<char>),
    counts: Seq<(Seq<char>, Counts)>,
    staged: Seq<(Seq<char>, Action, Seq<char>)>,
) -> WorkFileModel {
    WorkFileModel {
        path: e.0,
        display_name: e.2,
        action: e.1,
        added: counts_at(counts, e.0).0,
        deleted: counts_at(counts, e.0).1,
        staged: exists|k: int| 0 <= k < staged.len() && #[trigger] staged[k].0 == e.0,
        in_head: true,
    }
}

/// An untracked file: added, without line counts, not staged, not in HEAD.
pub open spec fn untracked_file(p: Seq<char>) -> WorkFileModel {
    WorkFileModel {
        path: p,
        display_name: p,
        action: Action::Added,
        added: None,
        deleted: None,
        staged: false,
        in_head: false,
    }
}

/// What `worktree_changes` lists for the outputs of `git diff --numstat -M
/// HEAD`, `git diff --name-status -M --cached HEAD`, `git diff
/// --name-status -M HEAD` and `git status --porcelain=v1`.
pub open spec fn worktree_spec(
    numstat: Seq<char>,
    cached: Seq<char>,
    changed: Seq<char>,
    status: Seq<char>,
) -> Seq<WorkFileModel> {
    ns_entries(changed).map_values(
        |e: (Seq<char>, Action, Seq<char>)|
            changed_file(e, numstat_entries(numstat), ns_entries(cached)),
    ) + untracked_spec(status).map_values(|p: Seq<char>| untracked_file(p))
}

fn staged_contains(staged: &Vec<(Vec<char>, Action, Vec<char>)>, p: &Vec<char>) -> (r: bool)
    ensures
        r == exists|k: int| 0 <= k < staged.len() && #[trigger] ns_views(staged@)[k].0 == p@,
{
    let mut i: usize = 0;
    while i < staged.len()
        invariant
            i <= staged.len(),
            forall|k: int| 0 <= k < i ==> #[trigger] ns_views(staged@)[k].0 != p@,
        decreases staged.len() - i,
    {
        if chars_eq(&staged[i].0, p) {
            assert(ns_views(staged@)[i as int].0 == p@);
            return true;
        }
        i = i + 1;
    }
    false
}

/// Files that differ between the working tree and `HEAD`, plus untracked
/// files. Renames are shown as "old => new" and carry the new path.
///
/// The arguments are the outputs of `git diff --numstat -M HEAD`,
/// `git diff --name-status -M --cached HEAD`,
/// `git diff --name-status -M HEAD` and `git status --porcelain=v1`.
pub fn worktree_changes(numstat: &str, cached: &str, changed: &str, status: &str) -> (r: Vec<
    WorkFile,
>)
    requires
        no_tab_led_line(cached@),
        no_tab_led_line(changed@),
    ensures
        work_files(r@) == worktree_spec(numstat@, cached@, changed@, status@),
{
    let counts = numstat_entries_exec(&chars_of(numstat));
    let staged = ns_entries_exec(&chars_of(cached));
    let changes = ns_entries_exec(&chars_of(changed));
    let untracked = untracked_exec(&chars_of(status));
    let ghost cs = numstat_entries(numstat@);
    let ghost st = ns_entries(cached@);
    let ghost chg = ns_entries(changed@);
    let ghost unt = untracked_spec(status@);
    let ghost first = chg.map_values(|e: (Seq<char>, Action, Seq<char>)| changed_file(e, cs, st));
    let mut files: Vec<WorkFileChars> = Vec::new();
    let mut i: usize = 0;
    while i < changes.len()
        invariant
            i <= changes.len(),
            ns_views(changes@) == chg,
            count_views(counts@) == cs,
            ns_views(staged@) == st,
            first == chg.map_values(|e: (Seq<char>, Action, Seq<char>)| changed_file(e, cs, st)),
            work_models(files@) == first.take(i as int),
        decreases changes.len() - i,
    {
        let e = &changes[i];
        let c = counts_lookup(&counts, &e.0);
        let is_staged = staged_contains(&staged, &e.0);
        let w = WorkFileChars {
            path: copy_range(&e.0, 0, e.0.len()),
            display_name: copy_range(&e.2, 0, e.2.len()),
            action: e.1,
            added: c.0,
            deleted: c.1,
            staged: is_staged,
            in_head: true,
        };
        assert(e.0@.subrange(0, e.0@.len() as int) =~= e.0@);
        assert(e.2@.subrange(0, e.2@.len() as int) =~= e.2@);
        assert(ns_views(changes@)[i as int] == (e.0@, e.1, e.2@));
        assert(w.model() == first[i as int]);
        let ghost before = files@;
        files.push(w);
        assert(work_models(files@) =~= work_models(before).push(w.model()));
        assert(work_models(files@) =~= first.take(i + 1));
        i = i + 1;
    }
    assert(first.take(i as int) =~= first);
    let ghost second = unt.map_values(|p: Seq<char>| untracked_file(p));
    let mut k: usize = 0;
    while k < untracked.len()
        invariant
            k <= untracked.len(),
            seqs(untracked@) == unt,
            second == unt.map_values(|p: Seq<char>| untracked_file(p)),
            work_models(files@) == first + second.take(k as int),
        decreases untracked.len() - k,
    {
        let p = &untracked[k];
        let w = WorkFileChars {
            path: copy_range(p, 0, p.len()),
            display_name: copy_range(p, 0, p.len()),
            action: Action::Added,
            added: None,
            deleted: None,
            staged: false,
            in_head: false,
        };
        assert(p@.subrange(0, p@.len() as int) =~= p@);
        assert(seqs(untracked@)[k as int] == p@);
        assert(w.model() == second[k as int]);
        let ghost before = files@;
        files.push(w);
        assert(work_models(files@) =~= work_models(before).push(w.model()));
        assert(work_models(files@) =~= first + second.take(k + 1));
        k = k + 1;
    }
    assert(second.take(k as int) =~= second);
    make_work_files(&files)
}

// ---------------------------------------------------------------------------
// The previous commit
// ---------------------------------------------------------------------------

/// The status letters of `git show --name-status`.
pub open spec fn is_status_letter(c: char) -> bool {
    c == 'A' || c == 'M' || c == 'D' || c == 'R' || c == 'C' || c == 'T'
}

/// A `--name-status` line of `git show`: the file it names, staged and in
/// HEAD, without line counts yet; none for other lines (numstat lines, the
/// ones with two count fields, are left to `numstat_entry`).
pub open spec fn head_file_of_line(l: Seq<char>) -> Option<WorkFileModel> {
    match split_once(l, '\t') {
        None => None,
        Some((a, r1)) => {
            let b = match split_once(r1, '\t') {
                None => r1,
                Some((b, _)) => b,
            };
            if is_count_spec(a) && is_count_spec(b) {
                None
            } else if a.len() > 0 && is_status_letter(a[0]) {
                Some(
                    match split_once(r1, '\t') {
                        None => WorkFileModel {
                            path: r1,
                            display_name: r1,
                            action: action_of_letter(a[0]),
                            added: None,
                            deleted: None,
                            staged: true,
                            in_head: true,
                        },
                        Some((old, new)) => WorkFileModel {
                            path: new,
                            display_name: old + rename_sep() + new,
                            action: action_of_letter(a[0]),
                            added: None,
                            deleted: None,
                            staged: true,
                            in_head: true,
                        },
                    },
                )
            } else {
                None
            }
        },
    }
}

pub open spec fn head_file_fn() -> spec_fn(Seq<char>) -> Option<WorkFileModel> {
    |l: Seq<char>| head_file_of_line(l)
}

/// A file of the previous commit with the line counts of the last numstat
/// entry for its path.
pub open spec fn with_counts(f: WorkFileModel, counts: Seq<(Seq<char>, Counts)>) -> WorkFileModel {
    WorkFileModel {
        path: f.path,
        display_name: f.display_name,
        action: f.action,
        added: counts_at(counts, f.path).0,
        deleted: counts_at(counts, f.path).1,
        staged: f.staged,
        in_head: f.in_head,
    }
}

/// The files of the previous commit, from the output of `git show -M
/// --name-status --format= HEAD` followed by that of `git show -M
/// --numstat --format= HEAD`.
pub open spec fn head_files_spec(output: Seq<char>) -> Seq<WorkFileModel> {
    keep_some(lines(output), head_file_fn()).map_values(
        |f: WorkFileModel| with_counts(f, numstat_entries(output)),
    )
}

fn head_file_of_line_exec(l: &Vec<char>) -> (r: Option<WorkFileChars>)
    ensures
        match r {
            Some(w) => head_file_of_line(l@) == Some(w.model()),
            None => head_file_of_line(l@) is None,
        },
{
    let (a, r1) = match split_once_exec(l, '\t') {
        Some(x) => x,
        None => return None,
    };
    let second = split_once_exec(&r1, '\t');
    let b = match &second {
        None => copy_range(&r1, 0, r1.len()),
        Some((b, _)) => copy_range(b, 0, b.len()),
    };
    assert(r1@.subrange(0, r1@.len() as int) =~= r1@);
    proof {
        if let Some(pair) = &second {
            assert(pair.0@.subrange(0, pair.0@.len() as int) =~= pair.0@);
        }
    }
    if is_count_exec(&a) && is_count_exec(&b) {
        return None;
    }
    if a.len() == 0 {
        return None;
    }
    let c = a[0];
    if !(c == 'A' || c == 'M' || c == 'D' || c == 'R' || c == 'C' || c == 'T') {
        return None;
    }
    let action = action_of_letter_exec(c);
    match second {
        None => {
            let path = copy_range(&r1, 0, r1.len());
            Some(
                WorkFileChars {
                    path,
                    display_name: r1,
                    action,
                    added: None,
                    deleted: None,
                    staged: true,
                    in_head: true,
                },
            )
        },
        Some((old, new)) => {
            let display = rename_display(&old, &new);
            Some(
                WorkFileChars {
                    path: new,
                    display_name: display,
                    action,
                    added: None,
                    deleted: None,
                    staged: true,
                    in_head: true,
                },
            )
        },
    }
}

/// Files of the previous commit (`None` if there is no commit yet). All are
/// in the index, so `staged` and `in_head` are set.
///
/// `output` is the output of `git show -M --name-status --format= HEAD`
/// followed by that of `git show -M --numstat --format= HEAD` (git shows
/// only one diff format at a time).
pub fn head_files(has_head: bool, output: &str) -> (r: Option<Vec<WorkFile>>)
    ensures
        !has_head ==> r is None,
        has_head ==> (r matches Some(v) && work_files(v@) == head_files_spec(output@)),
{
    if !has_head {
        return None;
    }
    let text = chars_of(output);
    let counts = numstat_entries_exec(&text);
    let ls = lines_exec(&text);
    let ghost cs = numstat_entries(output@);
    let ghost found = keep_some(lines(output@), head_file_fn());
    let mut files: Vec<WorkFileChars> = Vec::new();
    let mut i: usize = 0;
    proof {
        lemma_keep_some_empty(seqs(ls@), head_file_fn());
    }
    while i < ls.len()
        invariant
            i <= ls.len(),
            seqs(ls@) == lines(output@),
            count_views(counts@) == cs,
            work_models(files@) == keep_some(seqs(ls@).take(i as int), head_file_fn()).map_values(
                |f: WorkFileModel| with_counts(f, cs),
            ),
        decreases ls.len() - i,
    {
        let ghost done = keep_some(seqs(ls@).take(i as int), head_file_fn());
        proof {
            lemma_keep_some_step(seqs(ls@), head_file_fn(), i as int);
            assert(seqs(ls@)[i as int] == ls@[i as int]@);
        }
        match head_file_of_line_exec(&ls[i]) {
            None => {},
            Some(w) => {
                let c = counts_lookup(&counts, &w.path);
                let w2 = WorkFileChars {
                    path: w.path,
                    display_name: w.display_name,
                    action: w.action,
                    added: c.0,
                    deleted: c.1,
                    staged: w.staged,
                    in_head: w.in_head,
                };
                let ghost before = files@;
                let ghost m = w.model();
                assert(w2.model() == with_counts(m, cs));
                files.push(w2);
                assert(work_models(files@) =~= work_models(before).push(w2.model()));
                assert(work_models(files@) =~= done.push(m).map_values(
                    |f: WorkFileModel| with_counts(f, cs),
                ));
            },
        }
        i = i + 1;
    }
    proof {
        lemma_take_all(seqs(ls@));
    }
    Some(make_work_files(&files))
}

/// Full message of the previous commit from `git log -1 --format=%B HEAD`
/// (none if git failed), trailing newlines trimmed.
pub fn head_message(succeeded: bool, output: &str) -> (r: Option<String>)
    ensures
        !succeeded ==> r is None,
        succeeded ==> (r matches Some(m) && m@ == trim_end_char(output@, '\n')),
{
    if !succeeded {
        return None;
    }
    Some(string_of(&trim_end_char_exec(&chars_of(output), '\n')))
}

// ---------------------------------------------------------------------------
// Branch, remote state and failures
// ---------------------------------------------------------------------------

/// Name of the checked-out branch from `git branch --show-current`
/// (`None` when git printed no valid text): trimmed, "" in detached HEAD.
pub fn current_branch(output: Option<&str>) -> (r: String)
    ensures
        match output {
            Some(o) => r@ == trim(o@),
            None => r@.len() == 0,
        },
{
    match output {
        Some(o) => string_of(&trim_exec(&chars_of(o))),
        None => String::new(),
    }
}

pub open spec fn detached_label(sha: Seq<char>) -> Seq<char> {
    "(detached @ "@ + sha + ")"@
}

/// "branch name", or "(detached @ short-hash)" when no branch is checked
/// out; `short_sha` is the output of `git rev-parse --short HEAD` (`None`
/// when it was no valid text, shown as "?").
pub fn head_info(branch: &str, short_sha: Option<&str>) -> (r: String)
    ensures
        branch@.len() > 0 ==> r@ == branch@,
        branch@.len() == 0 ==> r@ == detached_label(
            trim(
                match short_sha {
                    Some(s) => s@,
                    None => "?"@,
                },
            ),
        ),
{
    if !branch.is_empty() {
        return branch.to_owned();
    }
    let raw = match short_sha {
        Some(s) => chars_of(s),
        None => chars_of("?"),
    };
    let sha = trim_exec(&raw);
    let a = concat(&chars_of("(detached @ "), &sha);
    let b = concat(&a, &chars_of(")"));
    string_of(&b)
}

/// True if `git branch -r --contains <commit>` succeeded and listed a
/// remote-tracking branch.
pub fn is_pushed(succeeded: bool, output: &str) -> (r: bool)
    ensures
        r == (succeeded && trim(output@).len() > 0),
{
    if !succeeded {
        return false;
    }
    trim_exec(&chars_of(output)).len() > 0
}

/// The error text of a failed git command: its trimmed stderr, or
/// `fallback` when that is empty.
pub open spec fn failure_text(stderr: Seq<char>, fallback: Seq<char>) -> Seq<char> {
    if trim(stderr).len() == 0 {
        fallback
    } else {
        trim(stderr)
    }
}

pub fn failure_message(stderr: &str, fallback: &str) -> (r: String)
    ensures
        r@ == failure_text(stderr@, fallback@),
{
    let t = trim_exec(&chars_of(stderr));
    if t.len() == 0 {
        fallback.to_owned()
    } else {
        string_of(&t)
    }
}

/// The result of a git command run by `run_git`: `Ok` on success, else the
/// trimmed stderr ("git command failed" when it is empty).
pub fn run_git(succeeded: bool, stderr: &str) -> (r: Result<(), String>)
    ensures
        succeeded ==> r is Ok,
        !succeeded ==> (r matches Err(e) && e@ == failure_text(stderr@, "git command failed"@)),
{
    if succeeded {
        Ok(())
    } else {
        Err(failure_message(stderr, "git command failed"))
    }
}

pub open spec fn views4(a: Seq<char>, b: Seq<char>, c: Seq<char>, d: Seq<char>) -> Seq<Seq<char>> {
    seq![a, b, c, d]
}

/// The git arguments that stage the working-tree state of one path:
/// `add -A -- <path>`.
pub fn stage_path(path: &str) -> (r: Vec<String>)
    ensures
        string_views(r@) == views4("add"@, "-A"@, "--"@, path@),
{
    let r = vec!["add".to_owned(), "-A".to_owned(), "--".to_owned(), path.to_owned()];
    assert(string_views(r@) =~= views4("add"@, "-A"@, "--"@, path@));
    r
}

/// The git arguments that remove one path from the index, keeping the
/// working-tree file: `restore --staged -- <path>`.
pub fn unstage_path(path: &str) -> (r: Vec<String>)
    ensures
        string_views(r@) == views4("restore"@, "--staged"@, "--"@, path@),
{
    let r = vec!["restore".to_owned(), "--staged".to_owned(), "--".to_owned(), path.to_owned()];
    assert(string_views(r@) =~= views4("restore"@, "--staged"@, "--"@, path@));
    r
}

/// The git arguments that remove one path from the index only (the
/// working-tree file stays), used to drop a file from an amended commit:
/// `rm -q -r --cached -- <path>`.
pub fn rm_cached_path(path: &str) -> (r: Vec<String>)
    ensures
        string_views(r@) == seq!["rm"@, "-q"@, "-r"@, "--cached"@, "--"@, path@],
{
    let r = vec![
        "rm".to_owned(),
        "-q".to_owned(),
        "-r".to_owned(),
        "--cached".to_owned(),
        "--".to_owned(),
        path.to_owned(),
    ];
    assert(string_views(r@) =~= seq!["rm"@, "-q"@, "-r"@, "--cached"@, "--"@, path@]);
    r
}

// ---------------------------------------------------------------------------
// Commit details
// ---------------------------------------------------------------------------

/// The fields of `git log -1 --format=%an%x00%ae%x00%ad%x00%cn%x00%ce%x00%cd%x00%B`.
pub open spec fn detail_fields(output: Seq<char>) -> Seq<Seq<char>> {
    split_all(output, '\0')
}

/// The author/committer fields and the message of one commit, from the
/// NUL-separated output of `git log -1
/// --date=format-local:%Y-%m-%d %H:%M:%S
/// --format=%an%x00%ae%x00%ad%x00%cn%x00%ce%x00%cd%x00%B <commit>`;
/// `succeeded` and `stderr` tell how git ended. The message keeps no
/// trailing newline.
pub fn commit_details(succeeded: bool, output: &str, stderr: &str) -> (r: Result<
    CommitDetails,
    String,
>)
    ensures
        !succeeded ==> (r matches Err(e) && e@ == failure_text(stderr@, "git command failed"@)),
        succeeded && detail_fields(output@).len() < 7 ==> (r matches Err(e) && e@
            == "unexpected git output"@),
        succeeded && detail_fields(output@).len() >= 7 ==> (r matches Ok(d) && {
            let f = detail_fields(output@);
            &&& d.author@ == f[0]
            &&& d.author_email@ == f[1]
            &&& d.author_date@ == f[2]
            &&& d.committer@ == f[3]
            &&& d.committer_email@ == f[4]
            &&& d.committer_date@ == f[5]
            &&& d.message@ == trim_end_char(f[6], '\n')
        }),
{
    if !succeeded {
        return Err(failure_message(stderr, "git command failed"));
    }
    let fields = split_all_exec(&chars_of(output), '\0');
    if fields.len() < 7 {
        return Err("unexpected git output".to_owned());
    }
    proof {
        assert forall|k: int| 0 <= k < 7 implies seqs(fields@)[k] == fields@[k]@ by {}
    }
    Ok(
        CommitDetails {
            author: string_of(&fields[0]),
            author_email: string_of(&fields[1]),
            author_date: string_of(&fields[2]),
            committer: string_of(&fields[3]),
            committer_email: string_of(&fields[4]),
            committer_date: string_of(&fields[5]),
            message: string_of(&trim_end_char_exec(&fields[6], '\n')),
        },
    )
}

// ---------------------------------------------------------------------------
// Laws
// ---------------------------------------------------------------------------

/// No remote name is blank, and each is a line of `git remote`, trimmed.
pub proof fn law_remote_names(output: Seq<char>)
    ensures
        forall|k: int|
            0 <= k < remotes_spec(output).len() ==> (#[trigger] remotes_spec(output)[k]).len() > 0
                && exists|j: int|
                0 <= j < lines(output).len() && trim(#[trigger] lines(output)[j]) == remotes_spec(output)[k],
{
    lemma_keep_some_source(lines(output), remote_fn());
    assert forall|k: int| 0 <= k < remotes_spec(output).len() implies (#[trigger] remotes_spec(
        output,
    )[k]).len() > 0 && exists|j: int|
        0 <= j < lines(output).len() && trim(#[trigger] lines(output)[j]) == remotes_spec(output)[k] by {
        let j = choose|j: int|
            #![trigger lines(output)[j]]
            0 <= j < lines(output).len() && remote_of_line(lines(output)[j]) == Some(remotes_spec(output)[k]);
        assert(trim(lines(output)[j]) == remotes_spec(output)[k]);
    }
}

/// The ref name of a `for-each-ref` line: the text before the first
/// `\x01` (the whole line without one).
pub open spec fn refname_of(l: Seq<char>) -> Seq<char> {
    match split_once(l, '\u{1}') {
        Some((r, _)) => r,
        None => l,
    }
}

/// `e` is the entry of a line of `output` whose ref name (trimmed) does not
/// end with "/HEAD".
pub open spec fn from_plain_ref(output: Seq<char>, e: (Seq<char>, Seq<char>)) -> bool {
    exists|j: int|
        #![trigger lines(output)[j]]
        0 <= j < lines(output).len() && !ends_with(trim(refname_of(lines(output)[j])), head_suffix())
            && tip_of_line(lines(output)[j]) == Some(e)
}

/// No branch at a tip comes from a symbolic `.../HEAD` ref: every entry is
/// read from a line whose ref name does not end with "/HEAD".
pub proof fn law_tips_skip_symbolic_heads(output: Seq<char>)
    ensures
        forall|k: int|
            0 <= k < tip_entries(output).len() ==> from_plain_ref(output, #[trigger] tip_entries(output)[k]),
{
    lemma_keep_some_source(lines(output), tip_fn());
    assert forall|k: int| 0 <= k < tip_entries(output).len() implies from_plain_ref(
        output,
        #[trigger] tip_entries(output)[k],
    ) by {
        let j = choose|j: int|
            #![trigger lines(output)[j]]
            0 <= j < lines(output).len() && tip_of_line(lines(output)[j]) == Some(tip_entries(output)[k]);
        let l = lines(output)[j];
        assert(split_once(l, '\u{1}') is Some);
        assert(!ends_with(trim(refname_of(l)), head_suffix()));
    }
}

/// Every file of the previous commit is listed as staged and in HEAD.
pub proof fn law_head_files_staged(output: Seq<char>)
    ensures
        forall|i: int|
            0 <= i < head_files_spec(output).len() ==> (#[trigger] head_files_spec(output)[i]).staged
                && head_files_spec(output)[i].in_head,
{
    let found = keep_some(lines(output), head_file_fn());
    lemma_keep_some_source(lines(output), head_file_fn());
    assert forall|i: int| 0 <= i < head_files_spec(output).len() implies (#[trigger] head_files_spec(
        output,
    )[i]).staged && head_files_spec(output)[i].in_head by {
        let j = choose|j: int|
            #![trigger lines(output)[j]]
            0 <= j < lines(output).len() && head_file_of_line(lines(output)[j]) == Some(found[i]);
        assert(found[i].staged && found[i].in_head);
        assert(head_files_spec(output)[i] == with_counts(found[i], numstat_entries(output)));
    }
}

/// The work-tree list: one row per changed file, in HEAD, carrying the
/// changed path, then one row per untracked file: added, without counts,
/// neither staged nor in HEAD.
pub proof fn law_worktree_rows(numstat: Seq<char>, cached: Seq<char>, changed: Seq<char>, status: Seq<char>)
    ensures
        worktree_spec(numstat, cached, changed, status).len() == ns_entries(changed).len()
            + untracked_spec(status).len(),
        forall|i: int|
            0 <= i < ns_entries(changed).len() ==> (#[trigger] worktree_spec(numstat, cached, changed, status)[i]).in_head
                && worktree_spec(numstat, cached, changed, status)[i].path == ns_entries(changed)[i].0,
        forall|i: int|
            ns_entries(changed).len() <= i < worktree_spec(numstat, cached, changed, status).len() ==> {
                let w = #[trigger] worktree_spec(numstat, cached, changed, status)[i];
                &&& w.path == untracked_spec(status)[i - ns_entries(changed).len()]
                &&& w.action == Action::Added && w.added is None && w.deleted is None
                &&& !w.staged && !w.in_head
            },
{
    let n = ns_entries(changed).len();
    let r = worktree_spec(numstat, cached, changed, status);
    assert forall|i: int| n <= i < r.len() implies {
        let w = #[trigger] r[i];
        &&& w.path == untracked_spec(status)[i - n]
        &&& w.action == Action::Added && w.added is None && w.deleted is None
        &&& !w.staged && !w.in_head
    } by {
        assert(r[i] == untracked_file(untracked_spec(status)[i - n]));
    }
}

/// `l` is a numstat line `a \t d \t q`: two count fields, then the path
/// field.
pub open spec fn numstat_line(l: Seq<char>, a: Seq<char>, d: Seq<char>, q: Seq<char>) -> bool {
    &&& l == a + seq!['\t'] + d + seq!['\t'] + q
    &&& lacks(a, '\t')
    &&& lacks(d, '\t')
    &&& is_count_spec(a)
    &&& is_count_spec(d)
}

/// `l` is a numstat line for the file at `path` (after a rename, its new
/// path).
pub open spec fn counts_line_for(l: Seq<char>, path: Seq<char>) -> bool {
    exists|a: Seq<char>, d: Seq<char>, q: Seq<char>|
        #![trigger numstat_line(l, a, d, q)]
        numstat_line(l, a, d, q) && renamed_new_path(q) == path
}

/// `added` and `deleted` are the counts that the lines `ls` give for the
/// file at `path`: the first and the second field of the last numstat
/// line for it; none of either when there is no such line.
pub open spec fn counts_from_lines(
    ls: Seq<Seq<char>>,
    path: Seq<char>,
    added: Option<i64>,
    deleted: Option<i64>,
) -> bool {
    &&& (forall|k: int| 0 <= k < ls.len() ==> !counts_line_for(#[trigger] ls[k], path)) ==> added is None
        && deleted is None
    &&& (exists|k: int| 0 <= k < ls.len() && counts_line_for(#[trigger] ls[k], path)) ==> exists|
        k: int,
        a: Seq<char>,
        d: Seq<char>,
        q: Seq<char>,
    |
        #![trigger numstat_line(ls[k], a, d, q)]
        0 <= k < ls.len() && numstat_line(ls[k], a, d, q) && renamed_new_path(q) == path && added
            == parse_i64(a) && deleted == parse_i64(d) && forall|k2: int|
            k < k2 < ls.len() ==> !counts_line_for(#[trigger] ls[k2], path)
}

pub open spec fn entry_for(l: Seq<char>, p: Seq<char>) -> bool {
    match numstat_entry(l) {
        Some(e) => e.0 == p,
        None => false,
    }
}

proof fn lemma_numstat_entry_line(l: Seq<char>)
    ensures
        numstat_entry(l) matches Some((p, c)) ==> exists|a: Seq<char>, d: Seq<char>, q: Seq<char>|
            #![trigger numstat_line(l, a, d, q)]
            numstat_line(l, a, d, q) && renamed_new_path(q) == p && c == (parse_i64(a), parse_i64(d)),
        forall|a: Seq<char>, d: Seq<char>, q: Seq<char>|
            #[trigger] numstat_line(l, a, d, q) ==> numstat_entry(l) == Some(
                (renamed_new_path(q), (parse_i64(a), parse_i64(d))),
            ),
{
    lemma_split_once_parts(l, '\t');
    if let Some((a, r1)) = split_once(l, '\t') {
        lemma_split_once_parts(r1, '\t');
        if let Some((d, q)) = split_once(r1, '\t') {
            assert(l =~= a + seq!['\t'] + d + seq!['\t'] + q);
            if is_count_spec(a) && is_count_spec(d) {
                assert(numstat_line(l, a, d, q));
            }
        }
    }
    assert forall|a: Seq<char>, d: Seq<char>, q: Seq<char>|
        #[trigger] numstat_line(l, a, d, q) implies numstat_entry(l) == Some(
            (renamed_new_path(q), (parse_i64(a), parse_i64(d))),
        ) by {
        let r1 = d + seq!['\t'] + q;
        assert(l =~= a + seq!['\t'] + r1);
        lemma_split_once_concat(a, '\t', r1);
        lemma_split_once_concat(d, '\t', q);
    }
}

proof fn lemma_entry_for_line(l: Seq<char>, p: Seq<char>)
    ensures
        entry_for(l, p) <==> counts_line_for(l, p),
{
    lemma_numstat_entry_line(l);
    if counts_line_for(l, p) {
        let (a, d, q) = choose|a: Seq<char>, d: Seq<char>, q: Seq<char>|
            #![trigger numstat_line(l, a, d, q)]
            numstat_line(l, a, d, q) && renamed_new_path(q) == p;
        assert(numstat_line(l, a, d, q));
    }
}

proof fn lemma_counts_at_lines(ls: Seq<Seq<char>>, p: Seq<char>)
    ensures
        (forall|k: int| 0 <= k < ls.len() ==> !entry_for(#[trigger] ls[k], p)) ==> counts_at(
            keep_some(ls, numstat_fn()),
            p,
        ) == (None::<i64>, None::<i64>),
        (exists|k: int| 0 <= k < ls.len() && entry_for(#[trigger] ls[k], p)) ==> exists|k: int|
            0 <= k < ls.len() && #[trigger] numstat_entry(ls[k]) == Some(
                (p, counts_at(keep_some(ls, numstat_fn()), p)),
            ) && forall|k2: int| k < k2 < ls.len() ==> !entry_for(#[trigger] ls[k2], p),
    decreases ls.len(),
{
    if ls.len() > 0 {
        let pre = ls.drop_last();
        let last = ls.last();
        lemma_counts_at_lines(pre, p);
        let e = keep_some(pre, numstat_fn());
        assert forall|k: int| 0 <= k < pre.len() implies pre[k] == ls[k] by {}
        match numstat_entry(last) {
            Some(x) => {
                assert(keep_some(ls, numstat_fn()) == e.push(x));
                assert(e.push(x).drop_last() =~= e);
                if x.0 == p {
                    assert(entry_for(ls[ls.len() - 1], p));
                } else {
                    assert(!entry_for(ls[ls.len() - 1], p));
                    if exists|k: int| 0 <= k < ls.len() && entry_for(#[trigger] ls[k], p) {
                        let k0 = choose|k: int| 0 <= k < ls.len() && entry_for(#[trigger] ls[k], p);
                        assert(entry_for(pre[k0], p));
                        let k = choose|k: int|
                            0 <= k < pre.len() && #[trigger] numstat_entry(pre[k]) == Some((p, counts_at(e, p)))
                                && forall|k2: int| k < k2 < pre.len() ==> !entry_for(#[trigger] pre[k2], p);
                        assert(numstat_entry(ls[k]) == Some((p, counts_at(e, p))));
                        assert forall|k2: int| k < k2 < ls.len() implies !entry_for(#[trigger] ls[k2], p) by {
                            if k2 < pre.len() {
                                assert(!entry_for(pre[k2], p));
                            }
                        }
                    } else {
                        assert forall|k: int| 0 <= k < pre.len() implies !entry_for(#[trigger] pre[k], p) by {
                            assert(!entry_for(ls[k], p));
                        }
                    }
                }
            },
            None => {
                assert(keep_some(ls, numstat_fn()) == e);
                assert(!entry_for(ls[ls.len() - 1], p));
                if exists|k: int| 0 <= k < ls.len() && entry_for(#[trigger] ls[k], p) {
                    let k0 = choose|k: int| 0 <= k < ls.len() && entry_for(#[trigger] ls[k], p);
                    assert(entry_for(pre[k0], p));
                    let k = choose|k: int|
                        0 <= k < pre.len() && #[trigger] numstat_entry(pre[k]) == Some((p, counts_at(e, p)))
                            && forall|k2: int| k < k2 < pre.len() ==> !entry_for(#[trigger] pre[k2], p);
                    assert(numstat_entry(ls[k]) == Some((p, counts_at(e, p))));
                    assert forall|k2: int| k < k2 < ls.len() implies !entry_for(#[trigger] ls[k2], p) by {
                        if k2 < pre.len() {
                            assert(!entry_for(pre[k2], p));
                        }
                    }
                } else {
                    assert forall|k: int| 0 <= k < pre.len() implies !entry_for(#[trigger] pre[k], p) by {
                        assert(!entry_for(ls[k], p));
                    }
                }
            },
        }
    }
}

/// The counts looked up for a path in numstat output are those its lines
/// give (see [`counts_from_lines`]).
proof fn lemma_counts_from_lines(text: Seq<char>, p: Seq<char>)
    ensures
        counts_from_lines(lines(text), p, counts_at(numstat_entries(text), p).0, counts_at(numstat_entries(text), p).1),
{
    let ls = lines(text);
    lemma_counts_at_lines(ls, p);
    assert forall|k: int| 0 <= k < ls.len() implies (entry_for(#[trigger] ls[k], p) <==> counts_line_for(ls[k], p)) by {
        lemma_entry_for_line(ls[k], p);
    }
    let c = counts_at(numstat_entries(text), p);
    if exists|k: int| 0 <= k < ls.len() && counts_line_for(#[trigger] ls[k], p) {
        let k0 = choose|k: int| 0 <= k < ls.len() && counts_line_for(#[trigger] ls[k], p);
        assert(entry_for(ls[k0], p));
        let k = choose|k: int|
            0 <= k < ls.len() && #[trigger] numstat_entry(ls[k]) == Some((p, c)) && forall|k2: int|
                k < k2 < ls.len() ==> !entry_for(#[trigger] ls[k2], p);
        lemma_numstat_entry_line(ls[k]);
        let (a, d, q) = choose|a: Seq<char>, d: Seq<char>, q: Seq<char>|
            #![trigger numstat_line(ls[k], a, d, q)]
            numstat_line(ls[k], a, d, q) && renamed_new_path(q) == p && c == (parse_i64(a), parse_i64(d));
        assert forall|k2: int| k < k2 < ls.len() implies !counts_line_for(#[trigger] ls[k2], p) by {
            assert(!entry_for(ls[k2], p));
        }
        assert(numstat_line(ls[k], a, d, q));
    }
}

/// Each file of the previous commit gets its line counts from the numstat
/// part of the output: added from the first field and deleted from the
/// second field of the last numstat line for its path, none without one.
pub proof fn law_head_file_counts(output: Seq<char>)
    ensures
        forall|i: int|
            0 <= i < head_files_spec(output).len() ==> counts_from_lines(
                lines(output),
                (#[trigger] head_files_spec(output)[i]).path,
                head_files_spec(output)[i].added,
                head_files_spec(output)[i].deleted,
            ),
{
    let found = keep_some(lines(output), head_file_fn());
    assert forall|i: int| 0 <= i < head_files_spec(output).len() implies counts_from_lines(
        lines(output),
        (#[trigger] head_files_spec(output)[i]).path,
        head_files_spec(output)[i].added,
        head_files_spec(output)[i].deleted,
    ) by {
        assert(head_files_spec(output)[i] == with_counts(found[i], numstat_entries(output)));
        lemma_counts_from_lines(output, found[i].path);
    }
}

/// Each changed file of the work tree gets its line counts from the
/// `git diff --numstat` output: added from the first field and deleted
/// from the second field of the last numstat line for its path, none
/// without one.
pub proof fn law_worktree_counts(numstat: Seq<char>, cached: Seq<char>, changed: Seq<char>, status: Seq<char>)
    ensures
        forall|i: int|
            0 <= i < ns_entries(changed).len() ==> counts_from_lines(
                lines(numstat),
                (#[trigger] worktree_spec(numstat, cached, changed, status)[i]).path,
                worktree_spec(numstat, cached, changed, status)[i].added,
                worktree_spec(numstat, cached, changed, status)[i].deleted,
            ),
{
    assert forall|i: int| 0 <= i < ns_entries(changed).len() implies counts_from_lines(
        lines(numstat),
        (#[trigger] worktree_spec(numstat, cached, changed, status)[i]).path,
        worktree_spec(numstat, cached, changed, status)[i].added,
        worktree_spec(numstat, cached, changed, status)[i].deleted,
    ) by {
        let e = ns_entries(changed)[i];
        assert(worktree_spec(numstat, cached, changed, status)[i] == changed_file(
            e,
            numstat_entries(numstat),
            ns_entries(cached),
        ));
        lemma_counts_from_lines(numstat, e.0);
    }
}

} // verus!

//! The texts the windows show for the data: file paths of rename rows,
//! line counts, committer and subject of the history list, short hashes,
//! and the shape check of the date fields.
use vstd::prelude::*;
use crate::text::{
    chars_eq,
    chars_of, concat, copy_range, i64_text, i64_text_exec, is_digit, string_of, string_views, trim,
    trim_exec, has_rename_arrow_at, first_rename_arrow_from, last_rename_arrow_before, rename_sep,
    is_ws, trim_start, trim_end, renamed_new_path, renamed_old_path, renamed_new_path_exec,
    renamed_old_path_exec, brace_rename, last_char_before,
};

verus! {

/// The path a rename row stands for in the tree: "old => new" gives
/// "new", git's "dir/{old => new}/rest" gives "dir/new/rest" (the whole
/// name, trimmed, for other rows).
pub open spec fn new_path_of(name: Seq<char>) -> Seq<char> {
    renamed_new_path(name)
}

/// The pre-rename path of a rename row: "old => new" gives "old",
/// "dir/{old => new}/rest" gives "dir/old/rest" (the whole name, trimmed,
/// for other rows).
pub open spec fn old_path_of_name(name: Seq<char>) -> Seq<char> {
    renamed_old_path(name)
}

/// Renames are displayed as "old => new" (or git's "dir/{old => new}");
/// the tree only knows the new path.
pub fn lookup_path(display_name: &str) -> (r: String)
    ensures
        r@ == new_path_of(display_name@),
{
    string_of(&renamed_new_path_exec(&chars_of(display_name)))
}

/// The pre-rename path of a rename ("a => b" -> "a"); "b" otherwise.
pub fn lookup_old_path(display_name: &str) -> (r: String)
    ensures
        r@ == old_path_of_name(display_name@),
{
    string_of(&renamed_old_path_exec(&chars_of(display_name)))
}

/// A line count for the +/- columns; "•" marks a binary file.
pub open spec fn count_text(n: Option<i64>) -> Seq<char> {
    match n {
        Some(v) => i64_text(v),
        None => "•"@,
    }
}

pub fn count_label(n: Option<i64>) -> (r: String)
    ensures
        r@ == count_text(n),
{
    match n {
        Some(v) => string_of(&i64_text_exec(v)),
        None => "•".to_owned(),
    }
}

/// The committer column: commits whose committer differs from the author
/// (a bot, an amend) are marked with `*`.
pub open spec fn committer_text(committer: Seq<char>, author: Seq<char>) -> Seq<char> {
    if committer != author {
        "*"@ + committer
    } else {
        committer
    }
}

pub fn committer_label(committer: &str, author: &str) -> (r: String)
    ensures
        r@ == committer_text(committer@, author@),
{
    let c = chars_of(committer);
    if !chars_eq(&c, &chars_of(author)) {
        string_of(&concat(&chars_of("*"), &c))
    } else {
        string_of(&c)
    }
}

/// "[b1] [b2] " for the branches at a commit.
pub open spec fn branch_prefix(branches: Seq<Seq<char>>) -> Seq<char>
    decreases branches.len(),
{
    if branches.len() == 0 {
        Seq::empty()
    } else {
        branch_prefix(branches.drop_last()) + "["@ + branches.last() + "] "@
    }
}

/// The message column: branch tips are marked in the list, e.g.
/// "[master] [origin/master] msg".
pub fn subject_label(branches: &Vec<String>, subject: &str) -> (r: String)
    ensures
        r@ == branch_prefix(string_views(branches@)) + subject@,
{
    let ghost bv = string_views(branches@);
    let mut t: Vec<char> = Vec::new();
    let mut i: usize = 0;
    assert(bv.take(0) =~= Seq::<Seq<char>>::empty());
    while i < branches.len()
        invariant
            i <= branches.len(),
            bv == string_views(branches@),
            t@ == branch_prefix(bv.take(i as int)),
        decreases branches.len() - i,
    {
        let ghost u = bv.take(i + 1);
        assert(u.drop_last() =~= bv.take(i as int));
        assert(u.last() == branches@[i as int]@);
        t = concat(&concat(&concat(&t, &chars_of("[")), &chars_of(branches[i].as_str())), &chars_of("] "));
        i = i + 1;
    }
    assert(bv.take(i as int) =~= bv);
    string_of(&concat(&t, &chars_of(subject)))
}

/// UTF-8 length of a character.
pub open spec fn utf8_len(c: char) -> int {
    if (c as u32) < 0x80 {
        1
    } else if (c as u32) < 0x800 {
        2
    } else if (c as u32) < 0x10000 {
        3
    } else {
        4
    }
}

/// UTF-8 length of the first `k` characters.
pub open spec fn utf8_prefix_len(s: Seq<char>, k: int) -> int
    decreases k,
{
    if k <= 0 {
        0
    } else {
        utf8_prefix_len(s, k - 1) + utf8_len(s[k - 1])
    }
}

/// `hash.get(..8).unwrap_or(hash)`: the first 8 bytes when they end at a
/// character boundary, else the whole hash.
pub open spec fn short_hash_text(hash: Seq<char>) -> Seq<char> {
    if exists|k: int| 0 <= k <= hash.len() && utf8_prefix_len(hash, k) == 8 {
        hash.take(choose|k: int| 0 <= k <= hash.len() && utf8_prefix_len(hash, k) == 8)
    } else {
        hash
    }
}

proof fn lemma_utf8_prefix_monotone(s: Seq<char>, a: int, b: int)
    requires
        0 <= a <= b,
    ensures
        utf8_prefix_len(s, a) + (b - a) <= utf8_prefix_len(s, b),
    decreases b - a,
{
    if a < b {
        lemma_utf8_prefix_monotone(s, a, b - 1);
    }
}

fn utf8_len_exec(c: char) -> (n: u64)
    ensures
        n == utf8_len(c),
{
    if (c as u32) < 0x80 {
        1
    } else if (c as u32) < 0x800 {
        2
    } else if (c as u32) < 0x10000 {
        3
    } else {
        4
    }
}

/// The short hash of the commit header.
pub fn short_hash(hash: &str) -> (r: String)
    ensures
        r@ == short_hash_text(hash@),
{
    let s = chars_of(hash);
    let mut k: usize = 0;
    let mut bytes: u64 = 0;
    while k < s.len() && bytes < 8
        invariant
            k <= s.len(),
            bytes == utf8_prefix_len(s@, k as int),
            bytes <= 11,
            k > 0 ==> utf8_prefix_len(s@, k - 1) < 8,
        decreases s.len() - k,
    {
        bytes = bytes + utf8_len_exec(s[k]);
        k = k + 1;
    }
    if bytes == 8 {
        let r = copy_range(&s, 0, k);
        proof {
            assert(s@.take(k as int) =~= s@.subrange(0, k as int));
            // k is the only prefix length of 8 bytes
            assert forall|j: int| 0 <= j <= s@.len() && utf8_prefix_len(s@, j) == 8 implies j == k by {
                if j < k {
                    lemma_utf8_prefix_monotone(s@, j, k - 1);
                } else if j > k {
                    lemma_utf8_prefix_monotone(s@, k as int, j);
                }
            }
        }
        string_of(&r)
    } else {
        proof {
            assert forall|j: int| 0 <= j <= s@.len() implies utf8_prefix_len(s@, j) != 8 by {
                if j < k {
                    lemma_utf8_prefix_monotone(s@, j, k - 1);
                } else if j > k {
                    lemma_utf8_prefix_monotone(s@, k as int, j);
                }
            }
        }
        string_of(&s)
    }
}

/// The "YYYY-MM-DD HH:MM:SS" shape: 19 characters, digits with `-`, ` `
/// and `:` in between (the values themselves are not checked - git
/// rejects dates that do not exist).
pub open spec fn is_date_shape(s: Seq<char>) -> bool {
    &&& s.len() == 19
    &&& forall|i: int|
        0 <= i < 19 && i != 4 && i != 7 && i != 10 && i != 13 && i != 16 ==> is_digit(#[trigger] s[i])
    &&& s[4] == '-' && s[7] == '-' && s[10] == ' ' && s[13] == ':' && s[16] == ':'
}

/// Structural check of "YYYY-MM-DD HH:MM:SS".
pub fn is_date_string(s: &str) -> (r: bool)
    ensures
        r == is_date_shape(s@),
{
    let c = chars_of(s);
    if c.len() != 19 {
        return false;
    }
    let mut i: usize = 0;
    while i < 19
        invariant
            c.len() == 19,
            c@ == s@,
            i <= 19,
            forall|j: int|
                0 <= j < i && j != 4 && j != 7 && j != 10 && j != 13 && j != 16 ==> is_digit(
                    #[trigger] c@[j],
                ),
        decreases 19 - i,
    {
        if i != 4 && i != 7 && i != 10 && i != 13 && i != 16 && !('0' <= c[i] && c[i] <= '9') {
            assert(!is_digit(s@[i as int]));
            return false;
        }
        i = i + 1;
    }
    c[4] == '-' && c[7] == '-' && c[10] == ' ' && c[13] == ':' && c[16] == ':'
}

// ---------------------------------------------------------------------------
// The rebase window's fields
// ---------------------------------------------------------------------------

/// Why the rebase window refuses to apply its fields.
#[derive(Clone, Copy, Debug, PartialEq, Eq, Structural)]
pub enum DetailsProblem {
    /// The message has no text but whitespace
    EmptyMessage,
    /// A date is not of the form "YYYY-MM-DD HH:MM:SS"
    InvalidDate,
}

/// What is tested before applying: the message must not be blank, then both
/// dates must have the date shape.
pub fn details_problem(message: &str, author_date: &str, committer_date: &str) -> (r: Option<DetailsProblem>)
    ensures
        trim(message@).len() == 0 ==> r == Some(DetailsProblem::EmptyMessage),
        trim(message@).len() > 0 && !(is_date_shape(author_date@) && is_date_shape(committer_date@)) ==> r
            == Some(DetailsProblem::InvalidDate),
        trim(message@).len() > 0 && is_date_shape(author_date@) && is_date_shape(committer_date@) ==> r
            is None,
{
    if trim_exec(&chars_of(message)).len() == 0 {
        return Some(DetailsProblem::EmptyMessage);
    }
    if !is_date_string(author_date) || !is_date_string(committer_date) {
        return Some(DetailsProblem::InvalidDate);
    }
    None
}

// ---------------------------------------------------------------------------
// Names of the temporary copies for the diff viewer
// ---------------------------------------------------------------------------

/// Index of the last `'/'` in `s`, or -1.
pub open spec fn last_slash(s: Seq<char>) -> int
    decreases s.len(),
{
    if s.len() == 0 {
        -1
    } else if s.last() == '/' {
        s.len() - 1
    } else {
        last_slash(s.drop_last())
    }
}

proof fn lemma_last_slash(s: Seq<char>)
    ensures
        -1 <= last_slash(s) < s.len(),
    decreases s.len(),
{
    if s.len() > 0 && s.last() != '/' {
        lemma_last_slash(s.drop_last());
    }
}

/// The last component of a path (`path.rsplit('/').next()`).
pub fn base_name(path: &str) -> (r: String)
    ensures
        r@ == path@.skip(last_slash(path@) + 1),
{
    let s = chars_of(path);
    let mut j: usize = s.len();
    proof {
        lemma_last_slash(s@);
        assert(s@.take(s.len() as int) =~= s@);
    }
    while j > 0 && s[j - 1] != '/'
        invariant
            j <= s.len(),
            last_slash(s@) == last_slash(s@.take(j as int)),
        decreases j,
    {
        assert(s@.take(j as int).drop_last() =~= s@.take(j - 1));
        j = j - 1;
    }
    if j > 0 {
        assert(s@.take(j as int).last() == '/');
    } else {
        assert(s@.take(0) =~= Seq::<char>::empty());
    }
    assert(s@.skip(j as int) =~= s@.subrange(j as int, s.len() as int));
    string_of(&copy_range(&s, j, s.len()))
}

/// `path` with every `'/'` replaced by `'-'`: one flat file name per path.
pub open spec fn flat_name_of(path: Seq<char>) -> Seq<char> {
    path.map_values(|c: char| if c == '/' { '-' } else { c })
}

pub fn flat_name(path: &str) -> (r: String)
    ensures
        r@ == flat_name_of(path@),
{
    let s = chars_of(path);
    let mut r: Vec<char> = Vec::new();
    let mut i: usize = 0;
    while i < s.len()
        invariant
            i <= s.len(),
            r@ == flat_name_of(s@.take(i as int)),
        decreases s.len() - i,
    {
        let c = if s[i] == '/' { '-' } else { s[i] };
        r.push(c);
        assert(r@ =~= flat_name_of(s@.take(i + 1)));
        i = i + 1;
    }
    assert(s@.take(i as int) =~= s@);
    string_of(&r)
}

// ---------------------------------------------------------------------------
// The history filter
// ---------------------------------------------------------------------------

/// What `str::to_lowercase` gives for `s`: the Unicode lower-case mapping,
/// which depends on the text alone.
pub uninterp spec fn lowercase_of(s: Seq<char>) -> Seq<char>;

/// Trusted: std's `str::to_lowercase`. The contract only names its result
/// (a function of `s` alone); the mapping itself is not stated.
#[verifier::external_body]
fn lowercase(s: &str) -> (r: String)
    ensures
        r@ == lowercase_of(s@),
{
    s.to_lowercase()
}

/// `t` occurs in `s` starting at `i`.
pub open spec fn occurs_at(s: Seq<char>, t: Seq<char>, i: int) -> bool {
    0 <= i && i + t.len() <= s.len() && s.subrange(i, i + t.len()) == t
}

/// `s.contains(t)`.
pub open spec fn contains_text(s: Seq<char>, t: Seq<char>) -> bool {
    exists|i: int| occurs_at(s, t, i)
}

fn occurs_at_exec(s: &Vec<char>, t: &Vec<char>, i: usize) -> (r: bool)
    requires
        i + t.len() <= s.len(),
    ensures
        r == occurs_at(s@, t@, i as int),
{
    let mut k: usize = 0;
    while k < t.len()
        invariant
            k <= t.len(),
            i + t.len() <= s.len(),
            forall|j: int| 0 <= j < k ==> s@[i + j] == t@[j],
        decreases t.len() - k,
    {
        if s[i + k] != t[k] {
            assert(s@.subrange(i as int, i + t.len())[k as int] != t@[k as int]);
            return false;
        }
        k = k + 1;
    }
    assert(s@.subrange(i as int, i + t.len()) =~= t@);
    true
}

fn contains_exec(s: &Vec<char>, t: &Vec<char>) -> (r: bool)
    ensures
        r == contains_text(s@, t@),
{
    if t.len() > s.len() {
        assert forall|i: int| !occurs_at(s@, t@, i) by {}
        return false;
    }
    if t.len() == 0 {
        assert(s@.subrange(0, 0) =~= t@);
        assert(occurs_at(s@, t@, 0));
        return true;
    }
    let last = s.len() - t.len();
    let mut i: usize = 0;
    while i <= last
        invariant
            last + t.len() == s.len(),
            t.len() > 0,
            forall|j: int| 0 <= j < i ==> !occurs_at(s@, t@, j),
        decreases last + 1 - i,
    {
        if occurs_at_exec(s, t, i) {
            return true;
        }
        i = i + 1;
    }
    assert forall|j: int| !occurs_at(s@, t@, j) by {
        if 0 <= j < i {
        }
    }
    false
}

/// Whether the history list shows a row for the filter text: the text is
/// empty, or the row's subject (with its branch marks) contains it,
/// both lower-cased.
pub fn subject_visible(subject: &str, query: &str) -> (r: bool)
    ensures
        r == (lowercase_of(query@).len() == 0 || contains_text(lowercase_of(subject@), lowercase_of(query@))),
{
    let q = chars_of(lowercase(query).as_str());
    if q.len() == 0 {
        return true;
    }
    let s = lowercase(subject);
    contains_exec(&chars_of(s.as_str()), &q)
}

// ---------------------------------------------------------------------------
// Rename rows
// ---------------------------------------------------------------------------

/// `s` has no whitespace at either end.
pub open spec fn is_trimmed(s: Seq<char>) -> bool {
    s.len() == 0 || (!is_ws(s[0]) && !is_ws(s.last()))
}

/// `s` holds no `'{'`.
pub open spec fn has_no_open_brace(s: Seq<char>) -> bool {
    forall|i: int| 0 <= i < s.len() ==> s[i] != '{'
}

proof fn lemma_no_char_before(s: Seq<char>, c: char, j: int)
    requires
        j <= s.len(),
        forall|i: int| 0 <= i < j ==> s[i] != c,
    ensures
        last_char_before(s, c, j) == -1,
    decreases j,
{
    if j > 0 {
        lemma_no_char_before(s, c, j - 1);
    }
}

/// `s` holds no `"=>"`.
pub open spec fn has_no_arrow(s: Seq<char>) -> bool {
    forall|i: int| !has_rename_arrow_at(s, i)
}

proof fn lemma_first_arrow_at(s: Seq<char>, i: int, k: int)
    requires
        0 <= i <= k,
        has_rename_arrow_at(s, k),
        forall|j: int| i <= j < k ==> !has_rename_arrow_at(s, j),
    ensures
        first_rename_arrow_from(s, i) == k,
    decreases k - i,
{
    if i < k {
        assert(!has_rename_arrow_at(s, i));
        lemma_first_arrow_at(s, i + 1, k);
    }
}

proof fn lemma_last_arrow_at(s: Seq<char>, j: int, k: int)
    requires
        0 <= k <= j - 2,
        has_rename_arrow_at(s, k),
        forall|i: int| k < i <= j - 2 ==> !has_rename_arrow_at(s, i),
    ensures
        last_rename_arrow_before(s, j) == k,
    decreases j,
{
    if j - 2 > k {
        assert(!has_rename_arrow_at(s, j - 2));
        lemma_last_arrow_at(s, j - 1, k);
    }
}

proof fn lemma_trim_padded(t: Seq<char>)
    requires
        is_trimmed(t),
    ensures
        trim(t.push(' ')) == t,
        trim(seq![' '] + t) == t,
{
    let a = t.push(' ');
    let b = seq![' '] + t;
    assert(a.drop_last() =~= t);
    assert(b.drop_first() =~= t);
    if t.len() == 0 {
        assert(trim_start(t) == t);
        assert(trim_start(a.drop_first()) == a.drop_first());
        assert(a.drop_first() =~= t);
        assert(trim_start(b) == trim_start(t));
    } else {
        assert(trim_start(a) == a);
        assert(trim_end(t) == t);
        assert(trim_end(a) == trim_end(t));
        assert(trim_start(t) == t);
        assert(trim_start(b) == trim_start(t));
    }
}

/// A rename row shown as "old => new", the way the name-status parsers
/// build it, gives back both paths: the new one for lookups in the tree,
/// the old one for the blob before the rename - for paths without
/// whitespace at their ends, without "=>" in them and without `{` in the
/// old one (which could read as git's brace form).
pub proof fn law_rename_row_paths(old: Seq<char>, new: Seq<char>)
    requires
        has_no_open_brace(old),
        is_trimmed(old),
        is_trimmed(new),
        has_no_arrow(old),
        has_no_arrow(new),
    ensures
        new_path_of(old + rename_sep() + new) == new,
        old_path_of_name(old + rename_sep() + new) == old,
{
    let s = old + rename_sep() + new;
    let k: int = old.len() as int + 1;
    assert(has_rename_arrow_at(s, k));
    assert forall|j: int| 0 <= j < k implies !has_rename_arrow_at(s, j) by {
        if j + 1 < old.len() {
            assert(!has_rename_arrow_at(old, j));
            assert(s[j] == old[j] && s[j + 1] == old[j + 1]);
        } else if j + 1 == old.len() {
            assert(s[j + 1] == ' ');
        } else {
            assert(s[j] == ' ');
        }
    }
    assert forall|j: int| k < j <= s.len() - 2 implies !has_rename_arrow_at(s, j) by {
        if j == k + 1 {
            assert(s[j] == '>');
        } else if j == k + 2 {
            assert(s[j] == ' ');
        } else {
            let i = j - (k + 3);
            assert(!has_rename_arrow_at(new, i));
            assert(s[j] == new[i] && s[j + 1] == new[i + 1]);
        }
    }
    lemma_first_arrow_at(s, 0, k);
    assert forall|i: int| 0 <= i < k implies s[i] != '{' by {
        if i < old.len() {
            assert(s[i] == old[i]);
        }
    }
    lemma_no_char_before(s, '{', k);
    assert(brace_rename(s) is None);
    lemma_last_arrow_at(s, s.len() as int, k);
    assert(s.take(k) =~= old.push(' '));
    assert(s.skip(k + 2) =~= seq![' '] + new);
    lemma_trim_padded(old);
    lemma_trim_padded(new);
}

} // verus!

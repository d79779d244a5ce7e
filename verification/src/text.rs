//! Character-level text model: the pieces of `str` behaviour that the git
//! output parsers rely on (lines, splitting, trimming, number parsing and
//! printing), stated over `Seq<char>` and implemented on `Vec<char>`.
use vstd::prelude::*;

verus! {

// ---------------------------------------------------------------------------
// Whitespace and trimming
// ---------------------------------------------------------------------------

/// Unicode `White_Space`, the set that `char::is_whitespace` (and thus
/// `str::trim` and `str::split_whitespace`) uses.
pub open spec fn is_ws(c: char) -> bool {
    ||| ('\u{9}' <= c && c <= '\u{d}')
    ||| c == ' '
    ||| c == '\u{85}'
    ||| c == '\u{a0}'
    ||| c == '\u{1680}'
    ||| ('\u{2000}' <= c && c <= '\u{200a}')
    ||| c == '\u{2028}'
    ||| c == '\u{2029}'
    ||| c == '\u{202f}'
    ||| c == '\u{205f}'
    ||| c == '\u{3000}'
}

pub fn is_ws_exec(c: char) -> (r: bool)
    ensures
        r == is_ws(c),
{
    ('\u{9}' <= c && c <= '\u{d}') || c == ' ' || c == '\u{85}' || c == '\u{a0}' || c
        == '\u{1680}' || ('\u{2000}' <= c && c <= '\u{200a}') || c == '\u{2028}' || c
        == '\u{2029}' || c == '\u{202f}' || c == '\u{205f}' || c == '\u{3000}'
}

/// `s` with leading whitespace removed.
pub open spec fn trim_start(s: Seq<char>) -> Seq<char>
    decreases s.len(),
{
    if s.len() > 0 && is_ws(s[0]) {
        trim_start(s.drop_first())
    } else {
        s
    }
}

/// `s` with trailing whitespace removed.
pub open spec fn trim_end(s: Seq<char>) -> Seq<char>
    decreases s.len(),
{
    if s.len() > 0 && is_ws(s.last()) {
        trim_end(s.drop_last())
    } else {
        s
    }
}

/// `str::trim`: whitespace removed at both ends.
pub open spec fn trim(s: Seq<char>) -> Seq<char> {
    trim_end(trim_start(s))
}

/// `s` with every trailing `c` removed (`str::trim_end_matches(c)`).
pub open spec fn trim_end_char(s: Seq<char>, c: char) -> Seq<char>
    decreases s.len(),
{
    if s.len() > 0 && s.last() == c {
        trim_end_char(s.drop_last(), c)
    } else {
        s
    }
}

/// `s` with every trailing `'\n'` or `'\r'` removed.
pub open spec fn trim_line_end(s: Seq<char>) -> Seq<char>
    decreases s.len(),
{
    if s.len() > 0 && (s.last() == '\n' || s.last() == '\r') {
        trim_line_end(s.drop_last())
    } else {
        s
    }
}

pub proof fn lemma_trim_start_skip(s: Seq<char>, i: int)
    requires
        0 <= i <= s.len(),
        forall|j: int| 0 <= j < i ==> is_ws(#[trigger] s[j]),
    ensures
        trim_start(s) == trim_start(s.skip(i)),
    decreases i,
{
    if i > 0 {
        assert(s.drop_first().skip(i - 1) =~= s.skip(i));
        lemma_trim_start_skip(s.drop_first(), i - 1);
    } else {
        assert(s.skip(0) =~= s);
    }
}

pub proof fn lemma_trim_end_take(s: Seq<char>, i: int)
    requires
        0 <= i <= s.len(),
        forall|j: int| i <= j < s.len() ==> is_ws(#[trigger] s[j]),
    ensures
        trim_end(s) == trim_end(s.take(i)),
    decreases s.len() - i,
{
    if i < s.len() {
        assert(s.drop_last().take(i) =~= s.take(i));
        lemma_trim_end_take(s.drop_last(), i);
    } else {
        assert(s.take(i) =~= s);
    }
}

pub proof fn lemma_trim_end_char_take(s: Seq<char>, c: char, i: int)
    requires
        0 <= i <= s.len(),
        forall|j: int| i <= j < s.len() ==> #[trigger] s[j] == c,
    ensures
        trim_end_char(s, c) == trim_end_char(s.take(i), c),
    decreases s.len() - i,
{
    if i < s.len() {
        assert(s.drop_last().take(i) =~= s.take(i));
        lemma_trim_end_char_take(s.drop_last(), c, i);
    } else {
        assert(s.take(i) =~= s);
    }
}

pub proof fn lemma_trim_line_end_take(s: Seq<char>, i: int)
    requires
        0 <= i <= s.len(),
        forall|j: int| i <= j < s.len() ==> (#[trigger] s[j] == '\n' || s[j] == '\r'),
    ensures
        trim_line_end(s) == trim_line_end(s.take(i)),
    decreases s.len() - i,
{
    if i < s.len() {
        assert(s.drop_last().take(i) =~= s.take(i));
        lemma_trim_line_end_take(s.drop_last(), i);
    } else {
        assert(s.take(i) =~= s);
    }
}

/// A copy of `s[a..b]`.
pub fn copy_range(s: &Vec<char>, a: usize, b: usize) -> (r: Vec<char>)
    requires
        a <= b <= s.len(),
    ensures
        r@ == s@.subrange(a as int, b as int),
{
    let mut r: Vec<char> = Vec::new();
    let mut i = a;
    while i < b
        invariant
            a <= i <= b <= s.len(),
            r@ == s@.subrange(a as int, i as int),
        decreases b - i,
    {
        r.push(s[i]);
        i = i + 1;
    }
    r
}

/// `str::trim` on characters.
pub fn trim_exec(s: &Vec<char>) -> (r: Vec<char>)
    ensures
        r@ == trim(s@),
{
    let mut a: usize = 0;
    while a < s.len() && is_ws_exec(s[a])
        invariant
            a <= s.len(),
            forall|j: int| 0 <= j < a ==> is_ws(#[trigger] s@[j]),
        decreases s.len() - a,
    {
        a = a + 1;
    }
    proof {
        lemma_trim_start_skip(s@, a as int);
    }
    let mut b: usize = s.len();
    while b > a && is_ws_exec(s[b - 1])
        invariant
            a <= b <= s.len(),
            forall|j: int| b <= j < s.len() ==> is_ws(#[trigger] s@[j]),
        decreases b,
    {
        b = b - 1;
    }
    let ghost t = s@.skip(a as int);
    proof {
        // trim_start(s) is s[a..]: the first character left is not whitespace
        if a < s.len() {
            assert(t[0] == s@[a as int]);
        }
        assert(trim_start(t) == t);
        lemma_trim_end_take(t, b - a);
        assert(t.take(b - a) =~= s@.subrange(a as int, b as int));
    }
    copy_range(s, a, b)
}

/// `str::trim_end_matches(c)` on characters.
pub fn trim_end_char_exec(s: &Vec<char>, c: char) -> (r: Vec<char>)
    ensures
        r@ == trim_end_char(s@, c),
{
    let mut b: usize = s.len();
    while b > 0 && s[b - 1] == c
        invariant
            b <= s.len(),
            forall|j: int| b <= j < s.len() ==> #[trigger] s@[j] == c,
        decreases b,
    {
        b = b - 1;
    }
    proof {
        lemma_trim_end_char_take(s@, c, b as int);
        assert(s@.take(b as int) =~= s@.subrange(0, b as int));
    }
    copy_range(s, 0, b)
}

/// `str::trim_end_matches(['\n', '\r'])` on characters.
pub fn trim_line_end_exec(s: &Vec<char>) -> (r: Vec<char>)
    ensures
        r@ == trim_line_end(s@),
{
    let mut b: usize = s.len();
    while b > 0 && (s[b - 1] == '\n' || s[b - 1] == '\r')
        invariant
            b <= s.len(),
            forall|j: int| b <= j < s.len() ==> (#[trigger] s@[j] == '\n' || s@[j] == '\r'),
        decreases b,
    {
        b = b - 1;
    }
    proof {
        lemma_trim_line_end_take(s@, b as int);
        assert(s@.take(b as int) =~= s@.subrange(0, b as int));
    }
    copy_range(s, 0, b)
}

// ---------------------------------------------------------------------------
// Searching and splitting at one character
// ---------------------------------------------------------------------------

/// Index of the first `c` in `s`, or -1.
pub open spec fn idx_of(s: Seq<char>, c: char) -> int
    decreases s.len(),
{
    if s.len() == 0 {
        -1
    } else if s[0] == c {
        0
    } else {
        let r = idx_of(s.drop_first(), c);
        if r < 0 {
            -1
        } else {
            r + 1
        }
    }
}

pub proof fn lemma_idx_of(s: Seq<char>, c: char)
    ensures
        -1 <= idx_of(s, c) < s.len(),
        idx_of(s, c) >= 0 ==> s[idx_of(s, c)] == c,
        forall|j: int| 0 <= j < idx_of(s, c) ==> s[j] != c,
        idx_of(s, c) < 0 ==> forall|j: int| 0 <= j < s.len() ==> s[j] != c,
    decreases s.len(),
{
    if s.len() > 0 && s[0] != c {
        lemma_idx_of(s.drop_first(), c);
        assert forall|j: int| 0 < j < s.len() implies s[j] == s.drop_first()[j - 1] by {}
    }
}

/// `s` holds no `c`.
pub open spec fn lacks(s: Seq<char>, c: char) -> bool {
    forall|i: int| 0 <= i < s.len() ==> s[i] != c
}

pub proof fn lemma_idx_of_after(x: Seq<char>, c: char, rest: Seq<char>)
    requires
        lacks(x, c),
    ensures
        idx_of(x + seq![c] + rest, c) == x.len(),
    decreases x.len(),
{
    let s = x + seq![c] + rest;
    if x.len() > 0 {
        assert(s.drop_first() =~= x.drop_first() + seq![c] + rest);
        assert(s[0] == x[0]);
        lemma_idx_of_after(x.drop_first(), c, rest);
    } else {
        assert(s[0] == c);
    }
}

pub proof fn lemma_idx_of_none(x: Seq<char>, c: char)
    requires
        lacks(x, c),
    ensures
        idx_of(x, c) == -1,
    decreases x.len(),
{
    if x.len() > 0 {
        assert(x[0] != c);
        lemma_idx_of_none(x.drop_first(), c);
    }
}

/// Splitting at the first `c` of `x c rest`, where `x` holds no `c`.
pub proof fn lemma_split_once_concat(x: Seq<char>, c: char, rest: Seq<char>)
    requires
        lacks(x, c),
    ensures
        split_once(x + seq![c] + rest, c) == Some((x, rest)),
        split_all(x + seq![c] + rest, c) == seq![x] + split_all(rest, c),
{
    lemma_idx_of_after(x, c, rest);
    let s = x + seq![c] + rest;
    assert(s.take(x.len() as int) =~= x);
    assert(s.skip(x.len() as int + 1) =~= rest);
}

pub proof fn lemma_split_all_single(x: Seq<char>, c: char)
    requires
        lacks(x, c),
    ensures
        split_all(x, c) == seq![x],
        split_once(x, c) is None,
{
    lemma_idx_of_none(x, c);
}

/// What `split_once` gives is `x c rest` with no `c` in `x`.
pub proof fn lemma_split_once_parts(s: Seq<char>, c: char)
    ensures
        split_once(s, c) matches Some((x, rest)) ==> s == x + seq![c] + rest && lacks(x, c),
{
    lemma_idx_of(s, c);
    if split_once(s, c) is Some {
        let i = idx_of(s, c);
        assert(s =~= s.take(i) + seq![c] + s.skip(i + 1));
    }
}

/// `s.split_once(c)`.
pub open spec fn split_once(s: Seq<char>, c: char) -> Option<(Seq<char>, Seq<char>)> {
    let i = idx_of(s, c);
    if i < 0 {
        None
    } else {
        Some((s.take(i), s.skip(i + 1)))
    }
}

/// All pieces of `s.split(c)`.
pub open spec fn split_all(s: Seq<char>, c: char) -> Seq<Seq<char>>
    decreases s.len(),
{
    let i = idx_of(s, c);
    if i < 0 {
        seq![s]
    } else {
        proof {
            lemma_idx_of(s, c);
        }
        seq![s.take(i)] + split_all(s.skip(i + 1), c)
    }
}

/// The character sequences held by a vector of character vectors.
pub open spec fn seqs(v: Seq<Vec<char>>) -> Seq<Seq<char>> {
    v.map_values(|x: Vec<char>| x@)
}

/// A line without its `'\r'` of a `"\r\n"` ending.
pub open spec fn strip_cr(l: Seq<char>) -> Seq<char> {
    if l.len() > 0 && l.last() == '\r' {
        l.drop_last()
    } else {
        l
    }
}

/// `str::lines`: split at `'\n'`, a `'\r'` before it dropped, no line for
/// a final line ending.
pub open spec fn lines(s: Seq<char>) -> Seq<Seq<char>>
    decreases s.len(),
{
    if s.len() == 0 {
        seq![]
    } else {
        let i = idx_of(s, '\n');
        if i < 0 {
            seq![s]
        } else {
            proof {
                lemma_idx_of(s, '\n');
            }
            seq![strip_cr(s.take(i))] + lines(s.skip(i + 1))
        }
    }
}

/// Index of the first `c` at or after `from`.
pub fn find_char_from(s: &Vec<char>, from: usize, c: char) -> (r: Option<usize>)
    requires
        from <= s.len(),
    ensures
        match r {
            Some(i) => from <= i < s.len() && idx_of(s@.skip(from as int), c) == i - from,
            None => idx_of(s@.skip(from as int), c) == -1,
        },
{
    let ghost t = s@.skip(from as int);
    let mut i = from;
    while i < s.len()
        invariant
            from <= i <= s.len(),
            t == s@.skip(from as int),
            forall|j: int| 0 <= j < i - from ==> t[j] != c,
        decreases s.len() - i,
    {
        if s[i] == c {
            proof {
                lemma_idx_of(t, c);
                assert(t[i - from] == c);
            }
            return Some(i);
        }
        i = i + 1;
    }
    proof {
        lemma_idx_of(t, c);
        if idx_of(t, c) >= 0 {
            assert(t[idx_of(t, c)] == c);
        }
    }
    None
}

pub fn find_char(s: &Vec<char>, c: char) -> (r: Option<usize>)
    ensures
        match r {
            Some(i) => i < s.len() && idx_of(s@, c) == i,
            None => idx_of(s@, c) == -1,
        },
{
    assert(s@.skip(0) =~= s@);
    find_char_from(s, 0, c)
}

/// `s.split_once(c)` on characters.
pub fn split_once_exec(s: &Vec<char>, c: char) -> (r: Option<(Vec<char>, Vec<char>)>)
    ensures
        match r {
            Some((a, b)) => split_once(s@, c) == Some((a@, b@)),
            None => split_once(s@, c) is None,
        },
{
    match find_char(s, c) {
        Some(i) => {
            let a = copy_range(s, 0, i);
            let b = copy_range(s, i + 1, s.len());
            assert(a@ =~= s@.take(i as int));
            assert(b@ =~= s@.skip(i + 1));
            Some((a, b))
        },
        None => None,
    }
}

/// All pieces of `s.split(c)`.
pub fn split_all_exec(s: &Vec<char>, c: char) -> (r: Vec<Vec<char>>)
    ensures
        seqs(r@) == split_all(s@, c),
{
    let mut r: Vec<Vec<char>> = Vec::new();
    let mut pos: usize = 0;
    assert(s@.skip(0) =~= s@);
    assert(seqs(r@) =~= Seq::<Seq<char>>::empty());
    loop
        invariant
            pos <= s.len(),
            seqs(r@) + split_all(s@.skip(pos as int), c) == split_all(s@, c),
        decreases s.len() - pos,
    {
        let ghost t = s@.skip(pos as int);
        match find_char_from(s, pos, c) {
            Some(i) => {
                let piece = copy_range(s, pos, i);
                proof {
                    lemma_idx_of(t, c);
                    assert(piece@ =~= t.take(i - pos));
                    assert(t.skip(i - pos + 1) =~= s@.skip(i + 1));
                    assert(seqs(r@).push(piece@) + split_all(s@.skip(i + 1), c) =~= seqs(r@)
                        + split_all(t, c));
                }
                let ghost before = seqs(r@);
                r.push(piece);
                assert(seqs(r@) =~= before.push(piece@));
                pos = i + 1;
            },
            None => {
                let piece = copy_range(s, pos, s.len());
                assert(piece@ =~= t);
                let ghost before = seqs(r@);
                r.push(piece);
                assert(seqs(r@) =~= before.push(piece@));
                assert(split_all(t, c) =~= seq![t]);
                assert(seqs(r@) =~= split_all(s@, c));
                return r;
            },
        }
    }
}

/// The lines of `s` (`str::lines`).
pub fn lines_exec(s: &Vec<char>) -> (r: Vec<Vec<char>>)
    ensures
        seqs(r@) == lines(s@),
{
    let mut r: Vec<Vec<char>> = Vec::new();
    let mut pos: usize = 0;
    assert(s@.skip(0) =~= s@);
    assert(seqs(r@) =~= Seq::<Seq<char>>::empty());
    loop
        invariant
            pos <= s.len(),
            seqs(r@) + lines(s@.skip(pos as int)) == lines(s@),
        decreases s.len() - pos,
    {
        let ghost t = s@.skip(pos as int);
        if pos == s.len() {
            assert(lines(t) =~= Seq::<Seq<char>>::empty());
            assert(seqs(r@) =~= lines(s@));
            return r;
        }
        match find_char_from(s, pos, '\n') {
            Some(i) => {
                let mut end = i;
                if end > pos && s[end - 1] == '\r' {
                    end = end - 1;
                }
                let piece = copy_range(s, pos, end);
                proof {
                    lemma_idx_of(t, '\n');
                    assert(piece@ =~= strip_cr(t.take(i - pos)));
                    assert(t.skip(i - pos + 1) =~= s@.skip(i + 1));
                    assert(seqs(r@).push(piece@) + lines(s@.skip(i + 1)) =~= seqs(r@)
                        + lines(t));
                }
                let ghost before = seqs(r@);
                r.push(piece);
                assert(seqs(r@) =~= before.push(piece@));
                pos = i + 1;
            },
            None => {
                let piece = copy_range(s, pos, s.len());
                assert(piece@ =~= t);
                let ghost before = seqs(r@);
                r.push(piece);
                assert(seqs(r@) =~= before.push(piece@));
                assert(lines(t) =~= seq![t]);
                assert(seqs(r@) =~= lines(s@));
                return r;
            },
        }
    }
}

// ---------------------------------------------------------------------------
// Conversion between `str` and characters
// ---------------------------------------------------------------------------

/// The characters of `s`, in order.
pub fn chars_of(s: &str) -> (res: Vec<char>)
    ensures
        res@ == s@,
{
    let mut res: Vec<char> = Vec::new();
    for c in it: s.chars()
        invariant
            res@ == it.seq().take(it.index() as int),
            it.seq() == s@,
    {
        res.push(c);
    }
    res
}

/// Trusted: std's `String::push`, which appends the character `c` at the
/// end of `s`, as its documentation says; the body is not checked.
#[verifier::external_body]
fn push_char(s: &mut String, c: char)
    ensures
        final(s)@ == old(s)@.push(c),
{
    s.push(c);
}

/// The string made of the characters `v`.
pub fn string_of(v: &Vec<char>) -> (s: String)
    ensures
        s@ == v@,
{
    let mut s = String::new();
    let mut i: usize = 0;
    while i < v.len()
        invariant
            i <= v.len(),
            s@ == v@.take(i as int),
        decreases v.len() - i,
    {
        push_char(&mut s, v[i]);
        i = i + 1;
        assert(s@ =~= v@.take(i as int));
    }
    assert(v@.take(i as int) =~= v@);
    s
}

/// `a == b` on characters.
pub fn chars_eq(a: &Vec<char>, b: &Vec<char>) -> (r: bool)
    ensures
        r == (a@ == b@),
{
    if a.len() != b.len() {
        return false;
    }
    let mut i: usize = 0;
    while i < a.len()
        invariant
            a.len() == b.len(),
            i <= a.len(),
            forall|j: int| 0 <= j < i ==> a@[j] == b@[j],
        decreases a.len() - i,
    {
        if a[i] != b[i] {
            return false;
        }
        i = i + 1;
    }
    assert(a@ =~= b@);
    true
}


// ---------------------------------------------------------------------------
// Prefixes, suffixes and the rename arrow
// ---------------------------------------------------------------------------

pub open spec fn starts_with(s: Seq<char>, p: Seq<char>) -> bool {
    p.len() <= s.len() && s.take(p.len() as int) == p
}

pub open spec fn ends_with(s: Seq<char>, p: Seq<char>) -> bool {
    p.len() <= s.len() && s.skip(s.len() - p.len()) == p
}

pub fn starts_with_exec(s: &Vec<char>, p: &Vec<char>) -> (r: bool)
    ensures
        r == starts_with(s@, p@),
{
    if p.len() > s.len() {
        return false;
    }
    let mut i: usize = 0;
    while i < p.len()
        invariant
            p.len() <= s.len(),
            i <= p.len(),
            forall|j: int| 0 <= j < i ==> s@[j] == p@[j],
        decreases p.len() - i,
    {
        if s[i] != p[i] {
            assert(s@.take(p.len() as int)[i as int] != p@[i as int]);
            return false;
        }
        i = i + 1;
    }
    assert(s@.take(p.len() as int) =~= p@);
    true
}

pub fn ends_with_exec(s: &Vec<char>, p: &Vec<char>) -> (r: bool)
    ensures
        r == ends_with(s@, p@),
{
    if p.len() > s.len() {
        return false;
    }
    let off = s.len() - p.len();
    let mut i: usize = 0;
    while i < p.len()
        invariant
            p.len() <= s.len(),
            off == s.len() - p.len(),
            i <= p.len(),
            forall|j: int| 0 <= j < i ==> s@[off + j] == p@[j],
        decreases p.len() - i,
    {
        if s[off + i] != p[i] {
            assert(s@.skip(off as int)[i as int] != p@[i as int]);
            return false;
        }
        i = i + 1;
    }
    assert(s@.skip(off as int) =~= p@);
    true
}

/// `"=>"` (the rename arrow of git's diff output) starts at `i`.
pub open spec fn has_rename_arrow_at(s: Seq<char>, i: int) -> bool {
    0 <= i && i + 1 < s.len() && s[i] == '=' && s[i + 1] == '>'
}

/// First start of `"=>"` at or after `i`, or -1.
pub open spec fn first_rename_arrow_from(s: Seq<char>, i: int) -> int
    decreases s.len() - i,
{
    if i < 0 || i + 1 >= s.len() {
        -1
    } else if has_rename_arrow_at(s, i) {
        i
    } else {
        first_rename_arrow_from(s, i + 1)
    }
}

/// Last start of `"=>"` ending before `j`, or -1.
pub open spec fn last_rename_arrow_before(s: Seq<char>, j: int) -> int
    decreases j,
{
    if j < 2 {
        -1
    } else if has_rename_arrow_at(s, j - 2) {
        j - 2
    } else {
        last_rename_arrow_before(s, j - 1)
    }
}

/// `s.split("=>").next()`: the text before the first arrow (all of `s`
/// without one).
pub open spec fn before_first_arrow(s: Seq<char>) -> Seq<char> {
    let i = first_rename_arrow_from(s, 0);
    if i < 0 {
        s
    } else {
        s.take(i)
    }
}

/// `s.rsplit("=>").next()`: the text after the last arrow (all of `s`
/// without one).
pub open spec fn after_last_arrow(s: Seq<char>) -> Seq<char> {
    let i = last_rename_arrow_before(s, s.len() as int);
    if i < 0 {
        s
    } else {
        s.skip(i + 2)
    }
}

pub proof fn lemma_last_rename_arrow_bounds(s: Seq<char>, j: int)
    requires
        j <= s.len(),
    ensures
        last_rename_arrow_before(s, j) < 0 || has_rename_arrow_at(s, last_rename_arrow_before(s, j)),
        last_rename_arrow_before(s, j) >= -1,
        last_rename_arrow_before(s, j) < 0 || last_rename_arrow_before(s, j) <= j - 2,
    decreases j,
{
    if j >= 2 && !has_rename_arrow_at(s, j - 2) {
        lemma_last_rename_arrow_bounds(s, j - 1);
    }
}

pub proof fn lemma_first_rename_arrow_bounds(s: Seq<char>, i: int)
    requires
        i >= 0,
    ensures
        first_rename_arrow_from(s, i) < 0 || has_rename_arrow_at(s, first_rename_arrow_from(s, i)),
        first_rename_arrow_from(s, i) >= -1,
        first_rename_arrow_from(s, i) < 0 || first_rename_arrow_from(s, i) >= i,
    decreases s.len() - i,
{
    if i + 1 < s.len() && !has_rename_arrow_at(s, i) {
        lemma_first_rename_arrow_bounds(s, i + 1);
    }
}

pub fn before_first_arrow_exec(s: &Vec<char>) -> (r: Vec<char>)
    ensures
        r@ == before_first_arrow(s@),
{
    let mut i: usize = 0;
    while s.len() > 1 && i < s.len() - 1
        invariant
            i <= s.len(),
            first_rename_arrow_from(s@, 0) == first_rename_arrow_from(s@, i as int),
        decreases s.len() - i,
    {
        if s[i] == '=' && s[i + 1] == '>' {
            assert(s@.take(i as int) =~= s@.subrange(0, i as int));
            return copy_range(s, 0, i);
        }
        i = i + 1;
    }
    assert(s@ =~= s@.subrange(0, s.len() as int));
    copy_range(s, 0, s.len())
}

pub fn after_last_arrow_exec(s: &Vec<char>) -> (r: Vec<char>)
    ensures
        r@ == after_last_arrow(s@),
{
    let mut j: usize = s.len();
    while j >= 2
        invariant
            j <= s.len(),
            last_rename_arrow_before(s@, s.len() as int) == last_rename_arrow_before(s@, j as int),
        decreases j,
    {
        if s[j - 2] == '=' && s[j - 1] == '>' {
            assert(s@.skip(j as int) =~= s@.subrange(j as int, s.len() as int));
            return copy_range(s, j, s.len());
        }
        j = j - 1;
    }
    assert(s@ =~= s@.subrange(0, s.len() as int));
    copy_range(s, 0, s.len())
}

/// The last whitespace-separated word (`s.split_whitespace().last()`).
pub open spec fn last_word(s: Seq<char>) -> Option<Seq<char>> {
    let t = trim_end(s);
    if t.len() == 0 {
        None
    } else {
        Some(t.skip(last_ws_before(t, t.len() as int) + 1))
    }
}

/// Index of the last whitespace character before `j`, or -1.
pub open spec fn last_ws_before(t: Seq<char>, j: int) -> int
    decreases j,
{
    if j <= 0 {
        -1
    } else if is_ws(t[j - 1]) {
        j - 1
    } else {
        last_ws_before(t, j - 1)
    }
}

pub fn last_word_exec(s: &Vec<char>) -> (r: Option<Vec<char>>)
    ensures
        match r {
            Some(w) => last_word(s@) == Some(w@) && w@.len() > 0,
            None => last_word(s@) is None,
        },
{
    let mut b: usize = s.len();
    while b > 0 && is_ws_exec(s[b - 1])
        invariant
            b <= s.len(),
            forall|j: int| b <= j < s.len() ==> is_ws(#[trigger] s@[j]),
        decreases b,
    {
        b = b - 1;
    }
    let ghost t = s@.take(b as int);
    proof {
        lemma_trim_end_take(s@, b as int);
        if b > 0 {
            assert(t.last() == s@[b - 1]);
        }
        assert(trim_end(t) == t);
    }
    if b == 0 {
        return None;
    }
    let mut a: usize = b;
    while a > 0 && !is_ws_exec(s[a - 1])
        invariant
            a <= b <= s.len(),
            t == s@.take(b as int),
            last_ws_before(t, b as int) == last_ws_before(t, a as int),
        decreases a,
    {
        a = a - 1;
    }
    let w = copy_range(s, a, b);
    assert(w@ =~= t.skip(a as int));
    Some(w)
}

// ---------------------------------------------------------------------------
// Decimal numbers
// ---------------------------------------------------------------------------

pub open spec fn is_digit(c: char) -> bool {
    '0' <= c && c <= '9'
}

pub open spec fn digit_val(c: char) -> int {
    c as int - '0' as int
}

pub open spec fn all_digits(s: Seq<char>) -> bool {
    forall|i: int| 0 <= i < s.len() ==> is_digit(#[trigger] s[i])
}

/// The value of a string of decimal digits.
pub open spec fn digits_value(s: Seq<char>) -> int
    decreases s.len(),
{
    if s.len() == 0 {
        0
    } else {
        digits_value(s.drop_last()) * 10 + digit_val(s.last())
    }
}

/// `s.parse::<u64>()`: an optional `'+'`, then at least one digit, in range.
pub open spec fn parse_u64(s: Seq<char>) -> Option<u64> {
    let d = if s.len() > 0 && s[0] == '+' {
        s.drop_first()
    } else {
        s
    };
    if d.len() > 0 && all_digits(d) && digits_value(d) <= u64::MAX {
        Some(digits_value(d) as u64)
    } else {
        None
    }
}

/// `s.parse::<i64>()`: an optional sign, then at least one digit, in range.
pub open spec fn parse_i64(s: Seq<char>) -> Option<i64> {
    if s.len() > 0 && s[0] == '-' {
        let d = s.drop_first();
        if d.len() > 0 && all_digits(d) && -digits_value(d) >= i64::MIN {
            Some((-digits_value(d)) as i64)
        } else {
            None
        }
    } else {
        let d = if s.len() > 0 && s[0] == '+' {
            s.drop_first()
        } else {
            s
        };
        if d.len() > 0 && all_digits(d) && digits_value(d) <= i64::MAX {
            Some(digits_value(d) as i64)
        } else {
            None
        }
    }
}

pub proof fn lemma_digits_value_prefix(s: Seq<char>, k: int)
    requires
        all_digits(s),
        0 <= k <= s.len(),
    ensures
        0 <= digits_value(s.take(k)) <= digits_value(s),
    decreases s.len(),
{
    if k == s.len() {
        assert(s.take(k) =~= s);
        if s.len() > 0 {
            lemma_digits_value_prefix(s.drop_last(), s.len() - 1);
            assert(s.drop_last().take(s.len() - 1) =~= s.drop_last());
        }
    } else {
        assert(s.drop_last().take(k) =~= s.take(k));
        lemma_digits_value_prefix(s.drop_last(), k);
        lemma_digits_value_prefix(s.drop_last(), s.len() - 1);
        assert(s.drop_last().take(s.len() - 1) =~= s.drop_last());
    }
}

/// The value of `s[from..]` if it is a non-empty run of digits that fits
/// in a `u64`.
pub fn parse_digits(s: &Vec<char>, from: usize) -> (r: Option<u64>)
    requires
        from <= s.len(),
    ensures
        ({
            let d = s@.skip(from as int);
            match r {
                Some(v) => d.len() > 0 && all_digits(d) && v == digits_value(d),
                None => !(d.len() > 0 && all_digits(d) && digits_value(d) <= u64::MAX),
            }
        }),
{
    let ghost d = s@.skip(from as int);
    if from == s.len() {
        return None;
    }
    let mut i = from;
    while i < s.len()
        invariant
            from <= i <= s.len(),
            d == s@.skip(from as int),
            forall|j: int| 0 <= j < i - from ==> is_digit(#[trigger] d[j]),
        decreases s.len() - i,
    {
        if !('0' <= s[i] && s[i] <= '9') {
            assert(!is_digit(d[i - from]));
            return None;
        }
        i = i + 1;
    }
    assert(all_digits(d));
    let mut v: u64 = 0;
    let mut i = from;
    assert(d.take(0) =~= Seq::<char>::empty());
    while i < s.len()
        invariant
            from <= i <= s.len(),
            d == s@.skip(from as int),
            all_digits(d),
            v == digits_value(d.take(i - from)),
        decreases s.len() - i,
    {
        let ghost k = i - from;
        assert(is_digit(d[k]) && d[k] == s@[i as int]);
        let dv = (s[i] as u32 - '0' as u32) as u64;
        proof {
            assert(d.take(k + 1).drop_last() =~= d.take(k));
            assert(d.take(k + 1).last() == d[k]);
            assert(digits_value(d.take(k + 1)) == v * 10 + dv);
        }
        match v.checked_mul(10) {
            Some(m) => match m.checked_add(dv) {
                Some(n) => {
                    v = n;
                },
                None => {
                    proof {
                        lemma_digits_value_prefix(d, k + 1);
                    }
                    return None;
                },
            },
            None => {
                proof {
                    lemma_digits_value_prefix(d, k + 1);
                    lemma_digits_value_prefix(d, k);
                }
                return None;
            },
        }
        i = i + 1;
    }
    assert(d.take(d.len() as int) =~= d);
    Some(v)
}

/// `s.parse::<u64>().ok()`.
pub fn parse_u64_exec(s: &Vec<char>) -> (r: Option<u64>)
    ensures
        r == parse_u64(s@),
{
    let from: usize = if s.len() > 0 && s[0] == '+' {
        1
    } else {
        0
    };
    assert(s@.skip(1) =~= s@.drop_first());
    assert(s@.skip(0) =~= s@);
    parse_digits(s, from)
}

/// `s.parse::<i64>().ok()`.
pub fn parse_i64_exec(s: &Vec<char>) -> (r: Option<i64>)
    ensures
        r == parse_i64(s@),
{
    assert(s@.skip(1) =~= s@.drop_first());
    assert(s@.skip(0) =~= s@);
    if s.len() > 0 && s[0] == '-' {
        match parse_digits(s, 1) {
            Some(m) => {
                if m <= 9223372036854775807 {
                    Some(0 - (m as i64))
                } else if m == 9223372036854775808 {
                    Some(i64::MIN)
                } else {
                    None
                }
            },
            None => None,
        }
    } else {
        let from: usize = if s.len() > 0 && s[0] == '+' {
            1
        } else {
            0
        };
        match parse_digits(s, from) {
            Some(m) => {
                if m <= 9223372036854775807 {
                    Some(m as i64)
                } else {
                    None
                }
            },
            None => None,
        }
    }
}

/// The character of decimal digit `d`.
pub open spec fn digit_char(d: int) -> char {
    (d + '0' as int) as char
}

/// Decimal notation of `n` without leading zeros.
pub open spec fn decimal(n: nat) -> Seq<char>
    decreases n,
{
    if n < 10 {
        seq![digit_char(n as int)]
    } else {
        decimal(n / 10) + seq![digit_char((n % 10) as int)]
    }
}

/// `n.to_string()` for an `i64`.
pub open spec fn i64_text(n: i64) -> Seq<char> {
    if n < 0 {
        seq!['-'] + decimal((-n) as nat)
    } else {
        decimal(n as nat)
    }
}

/// `t` shows `n` in exactly `w` decimal digits.
pub open spec fn shows_number(t: Seq<char>, n: int, w: int) -> bool {
    t.len() == w && all_digits(t) && digits_value(t) == n
}

/// The decimal notation of `n` is made of digits, reads back as `n`, and
/// has no leading zero (unless `n` is 0).
pub proof fn law_decimal(n: nat)
    ensures
        all_digits(decimal(n)),
        digits_value(decimal(n)) == n,
        decimal(n).len() >= 1,
        n > 0 ==> decimal(n)[0] != '0',
    decreases n,
{
    if n >= 10 {
        law_decimal(n / 10);
        let d = decimal(n);
        assert(d.drop_last() =~= decimal(n / 10));
        assert(d.last() == digit_char((n % 10) as int));
        lemma_digit_char((n % 10) as int);
        assert(n == (n / 10) * 10 + n % 10);
        assert(digits_value(d) == digits_value(d.drop_last()) * 10 + digit_val(d.last()));
        assert(d[0] == decimal(n / 10)[0]);
    } else {
        lemma_digit_char(n as int);
        let d = decimal(n);
        assert(d.drop_last() =~= Seq::<char>::empty());
        assert(digits_value(d) == digits_value(d.drop_last()) * 10 + digit_val(d.last()));
    }
}

proof fn lemma_digit_char(k: int)
    requires
        0 <= k < 10,
    ensures
        is_digit(digit_char(k)),
        digit_val(digit_char(k)) == k,
        k > 0 ==> digit_char(k) != '0',
{
    assert(digit_char(k) as int == k + 48);
}

proof fn lemma_zeros_value(s: Seq<char>, k: nat)
    requires
        all_digits(s),
    ensures
        all_digits(Seq::new(k, |i: int| '0') + s),
        digits_value(Seq::new(k, |i: int| '0') + s) == digits_value(s),
    decreases s.len(),
{
    let z = Seq::new(k, |i: int| '0');
    if s.len() == 0 {
        lemma_zeros_zero(k);
        assert(z + s =~= z);
    } else {
        lemma_zeros_value(s.drop_last(), k);
        assert((z + s).drop_last() =~= z + s.drop_last());
        assert((z + s).last() == s.last());
    }
}

proof fn lemma_zeros_zero(k: nat)
    ensures
        all_digits(Seq::new(k, |i: int| '0')),
        digits_value(Seq::new(k, |i: int| '0')) == 0,
    decreases k,
{
    if k > 0 {
        lemma_zeros_zero((k - 1) as nat);
        assert(Seq::new(k, |i: int| '0').drop_last() =~= Seq::new((k - 1) as nat, |i: int| '0'));
    }
}

/// A number below `10^w` (here `w` up to 4), padded with zeros to `w`
/// characters, shows the number in exactly `w` digits.
pub proof fn law_zero_pad(n: nat, w: nat)
    requires
        1 <= w <= 4,
        w == 1 ==> n < 10,
        w == 2 ==> n < 100,
        w == 3 ==> n < 1000,
        w == 4 ==> n < 10000,
    ensures
        shows_number(zero_pad(decimal(n), w), n as int, w as int),
{
    law_decimal(n);
    reveal_with_fuel(decimal, 5);
    assert(decimal(n).len() <= w) by {
        if n >= 10 {
            if n / 10 >= 10 {
                if n / 100 >= 10 {
                    assert(n / 10 / 10 / 10 < 10);
                }
            }
        }
    }
    if decimal(n).len() < w {
        lemma_zeros_value(decimal(n), (w - decimal(n).len()) as nat);
    }
}

/// `s` padded on the left with `'0'` to at least `w` characters.
pub open spec fn zero_pad(s: Seq<char>, w: nat) -> Seq<char> {
    if s.len() >= w {
        s
    } else {
        Seq::new((w - s.len()) as nat, |i: int| '0') + s
    }
}

fn digit_char_exec(d: u64) -> (c: char)
    requires
        d < 10,
    ensures
        c == digit_char(d as int),
{
    if d == 0 { '0' }
    else if d == 1 { '1' }
    else if d == 2 { '2' }
    else if d == 3 { '3' }
    else if d == 4 { '4' }
    else if d == 5 { '5' }
    else if d == 6 { '6' }
    else if d == 7 { '7' }
    else if d == 8 { '8' }
    else { '9' }
}

/// Decimal notation of `n`.
pub fn decimal_exec(n: u64) -> (r: Vec<char>)
    ensures
        r@ == decimal(n as nat),
{
    let mut r: Vec<char> = Vec::new();
    let mut m = n;
    while m >= 10
        invariant
            decimal(n as nat) == decimal(m as nat) + r@,
        decreases m,
    {
        let c = digit_char_exec(m % 10);
        let ghost before = r@;
        r.insert(0, c);
        proof {
            assert(decimal(m as nat) == decimal((m / 10) as nat) + seq![c]);
            assert(decimal(m as nat) + before =~= decimal((m / 10) as nat) + r@);
        }
        m = m / 10;
    }
    let c = digit_char_exec(m);
    r.insert(0, c);
    assert(decimal(m as nat) =~= seq![c]);
    assert(decimal(n as nat) =~= r@);
    r
}

/// `n.to_string()` for an `i64`.
pub fn i64_text_exec(n: i64) -> (r: Vec<char>)
    ensures
        r@ == i64_text(n),
{
    if n < 0 {
        let m: u64 = if n == i64::MIN {
            9223372036854775808
        } else {
            (0 - n) as u64
        };
        let d = decimal_exec(m);
        let mut r: Vec<char> = Vec::new();
        r.push('-');
        let mut i: usize = 0;
        while i < d.len()
            invariant
                i <= d.len(),
                r@ == seq!['-'] + d@.take(i as int),
            decreases d.len() - i,
        {
            r.push(d[i]);
            i = i + 1;
            assert(r@ =~= seq!['-'] + d@.take(i as int));
        }
        assert(d@.take(i as int) =~= d@);
        r
    } else {
        decimal_exec(n as u64)
    }
}

/// `format!("{:0w$}", n)` for a non-negative `n`.
pub fn zero_padded(n: u64, w: usize) -> (r: Vec<char>)
    ensures
        r@ == zero_pad(decimal(n as nat), w as nat),
{
    let d = decimal_exec(n);
    if d.len() >= w {
        return d;
    }
    let mut r: Vec<char> = Vec::new();
    let k = w - d.len();
    while r.len() < k
        invariant
            r.len() <= k,
            forall|j: int| 0 <= j < r.len() ==> r@[j] == '0',
        decreases k - r.len(),
    {
        r.push('0');
    }
    let mut i: usize = 0;
    while i < d.len()
        invariant
            i <= d.len(),
            r.len() == k + i,
            forall|j: int| 0 <= j < k ==> r@[j] == '0',
            r@.skip(k as int) == d@.take(i as int),
        decreases d.len() - i,
    {
        r.push(d[i]);
        i = i + 1;
        assert(r@.skip(k as int) =~= d@.take(i as int));
    }
    let ghost z = Seq::new((w - d@.len()) as nat, |i: int| '0');
    assert(d@.take(i as int) =~= d@);
    assert forall|j: int| 0 <= j < r.len() implies r@[j] == (z + d@)[j] by {
        if j >= k {
            assert(r@[j] == r@.skip(k as int)[j - k]);
        }
    }
    assert(r@ =~= z + d@);
    r
}


// ---------------------------------------------------------------------------
// Collections of text
// ---------------------------------------------------------------------------

/// The `Some` results of `f` over `s`, in order (`filter_map`).
pub open spec fn keep_some<A, B>(s: Seq<A>, f: spec_fn(A) -> Option<B>) -> Seq<B>
    decreases s.len(),
{
    if s.len() == 0 {
        Seq::empty()
    } else {
        let r = keep_some(s.drop_last(), f);
        match f(s.last()) {
            Some(b) => r.push(b),
            None => r,
        }
    }
}

/// Every result of `keep_some` is the `Some` result of `f` on an element
/// of `s`.
pub proof fn lemma_keep_some_source<A, B>(s: Seq<A>, f: spec_fn(A) -> Option<B>)
    ensures
        forall|k: int|
            0 <= k < keep_some(s, f).len() ==> exists|j: int|
                #![trigger s[j]]
                0 <= j < s.len() && f(s[j]) == Some(#[trigger] keep_some(s, f)[k]),
    decreases s.len(),
{
    if s.len() > 0 {
        let pre = s.drop_last();
        lemma_keep_some_source(pre, f);
        let r = keep_some(s, f);
        let rp = keep_some(pre, f);
        assert forall|k: int| 0 <= k < r.len() implies exists|j: int|
            #![trigger s[j]]
            0 <= j < s.len() && f(s[j]) == Some(#[trigger] r[k]) by {
            if k < rp.len() {
                assert(r[k] == rp[k]);
                let j = choose|j: int| #![trigger pre[j]] 0 <= j < pre.len() && f(pre[j]) == Some(rp[k]);
                assert(pre[j] == s[j]);
            } else {
                assert(f(s[s.len() - 1]) == Some(r[k]));
            }
        }
    }
}

/// One more element of `s` taken into `keep_some`.
pub proof fn lemma_keep_some_step<A, B>(s: Seq<A>, f: spec_fn(A) -> Option<B>, i: int)
    requires
        0 <= i < s.len(),
    ensures
        keep_some(s.take(i + 1), f) == match f(s[i]) {
            Some(b) => keep_some(s.take(i), f).push(b),
            None => keep_some(s.take(i), f),
        },
{
    assert(s.take(i + 1).drop_last() =~= s.take(i));
    assert(s.take(i + 1).last() == s[i]);
}

pub proof fn lemma_keep_some_empty<A, B>(s: Seq<A>, f: spec_fn(A) -> Option<B>)
    ensures
        keep_some(s.take(0), f) == Seq::<B>::empty(),
{
    assert(s.take(0) =~= Seq::<A>::empty());
}

pub proof fn lemma_take_all<A>(s: Seq<A>)
    ensures
        s.take(s.len() as int) == s,
{
    assert(s.take(s.len() as int) =~= s);
}

/// The character sequences of a sequence of strings.
pub open spec fn string_views(v: Seq<String>) -> Seq<Seq<char>> {
    v.map_values(|x: String| x@)
}

pub proof fn lemma_string_views_push(v: Seq<String>, x: String)
    ensures
        string_views(v.push(x)) == string_views(v).push(x@),
{
    assert(string_views(v.push(x)) =~= string_views(v).push(x@));
}

/// The strings made of the character vectors `v`.
pub fn strings_of(v: &Vec<Vec<char>>) -> (r: Vec<String>)
    ensures
        string_views(r@) == seqs(v@),
{
    let mut r: Vec<String> = Vec::new();
    let mut i: usize = 0;
    while i < v.len()
        invariant
            i <= v.len(),
            string_views(r@) == seqs(v@).take(i as int),
        decreases v.len() - i,
    {
        let s = string_of(&v[i]);
        let ghost before = r@;
        assert(string_views(before).len() == i);
        r.push(s);
        assert(r@ == before.push(s));
        assert forall|j: int| 0 <= j < i + 1 implies string_views(r@)[j] == seqs(v@).take(
            i + 1,
        )[j] by {
            if j < i {
                assert(string_views(before)[j] == seqs(v@).take(i as int)[j]);
                assert(r@[j] == before[j]);
            }
        }
        assert(string_views(r@) =~= seqs(v@).take(i + 1));
        i = i + 1;
    }
    assert(seqs(v@).take(i as int) =~= seqs(v@));
    r
}

/// `a` followed by `b`.
pub fn concat(a: &Vec<char>, b: &Vec<char>) -> (r: Vec<char>)
    ensures
        r@ == a@ + b@,
{
    let mut r = copy_range(a, 0, a.len());
    let mut i: usize = 0;
    assert(a@.subrange(0, a.len() as int) =~= a@);
    while i < b.len()
        invariant
            i <= b.len(),
            r@ == a@ + b@.take(i as int),
        decreases b.len() - i,
    {
        r.push(b[i]);
        i = i + 1;
        assert(r@ =~= a@ + b@.take(i as int));
    }
    assert(b@.take(i as int) =~= b@);
    r
}

/// `" => "`, the separator of a rename's old and new path.
pub open spec fn rename_sep() -> Seq<char> {
    seq![' ', '=', '>', ' ']
}

pub fn rename_sep_exec() -> (r: Vec<char>)
    ensures
        r@ == rename_sep(),
{
    let r = vec![' ', '=', '>', ' '];
    assert(r@ =~= rename_sep());
    r
}

/// `"{old} => {new}"`.
pub fn rename_display(old: &Vec<char>, new: &Vec<char>) -> (r: Vec<char>)
    ensures
        r@ == old@ + rename_sep() + new@,
{
    let a = concat(old, &rename_sep_exec());
    concat(&a, new)
}

// ---------------------------------------------------------------------------
// Rename fields of `--numstat` output
// ---------------------------------------------------------------------------

/// Last index before `j` where `s` holds `c`, or -1.
pub open spec fn last_char_before(s: Seq<char>, c: char, j: int) -> int
    decreases j,
{
    if j <= 0 {
        -1
    } else if s[j - 1] == c {
        j - 1
    } else {
        last_char_before(s, c, j - 1)
    }
}

/// First index at or after `i` where `s` holds `c`, or -1.
pub open spec fn first_char_from(s: Seq<char>, c: char, i: int) -> int
    decreases s.len() - i,
{
    if i < 0 || i >= s.len() {
        -1
    } else if s[i] == c {
        i
    } else {
        first_char_from(s, c, i + 1)
    }
}

/// git's rename form inside a path, `prefix{old => new}suffix`: the
/// positions of the opening brace, the arrow and the closing brace.
pub open spec fn brace_rename(s: Seq<char>) -> Option<(int, int, int)> {
    let a = first_rename_arrow_from(s, 0);
    if a < 0 {
        None
    } else {
        let o = last_char_before(s, '{', a);
        let c = first_char_from(s, '}', a + 2);
        if o >= 0 && c >= 0 {
            Some((o, a, c))
        } else {
            None
        }
    }
}

/// `prefix + part + suffix`; for an empty part the doubled `/` is collapsed
/// (git writes `a/{ => b}/c` for a move from `a/c` to `a/b/c`).
pub open spec fn join_rename_part(prefix: Seq<char>, part: Seq<char>, suffix: Seq<char>) -> Seq<char> {
    if part.len() == 0 && suffix.len() > 0 && suffix[0] == '/' {
        prefix + suffix.drop_first()
    } else {
        prefix + part + suffix
    }
}

/// The path after a rename, from a file field that may name one: "old =>
/// new" gives "new", git's "dir/{old => new}/rest" gives "dir/new/rest";
/// trimmed. Other fields are the path itself, trimmed.
pub open spec fn renamed_new_path(s: Seq<char>) -> Seq<char> {
    match brace_rename(s) {
        Some((o, a, c)) => trim(join_rename_part(s.take(o), trim(s.subrange(a + 2, c)), s.skip(c + 1))),
        None => trim(after_last_arrow(s)),
    }
}

/// The path before a rename: "old => new" gives "old", "dir/{old =>
/// new}/rest" gives "dir/old/rest"; trimmed.
pub open spec fn renamed_old_path(s: Seq<char>) -> Seq<char> {
    match brace_rename(s) {
        Some((o, a, c)) => trim(join_rename_part(s.take(o), trim(s.subrange(o + 1, a)), s.skip(c + 1))),
        None => trim(before_first_arrow(s)),
    }
}

fn first_arrow_exec(s: &Vec<char>) -> (r: Option<usize>)
    ensures
        match r {
            Some(i) => i as int == first_rename_arrow_from(s@, 0) && i + 1 < s.len(),
            None => first_rename_arrow_from(s@, 0) < 0,
        },
{
    proof {
        lemma_first_rename_arrow_bounds(s@, 0);
    }
    let mut i: usize = 0;
    while s.len() > 1 && i < s.len() - 1
        invariant
            i <= s.len(),
            first_rename_arrow_from(s@, 0) == first_rename_arrow_from(s@, i as int),
        decreases s.len() - i,
    {
        if s[i] == '=' && s[i + 1] == '>' {
            return Some(i);
        }
        i = i + 1;
    }
    None
}

fn last_char_before_exec(s: &Vec<char>, c: char, j: usize) -> (r: Option<usize>)
    requires
        j <= s.len(),
    ensures
        match r {
            Some(k) => k as int == last_char_before(s@, c, j as int) && k < j,
            None => last_char_before(s@, c, j as int) == -1,
        },
{
    let mut k: usize = j;
    while k > 0
        invariant
            k <= j <= s.len(),
            last_char_before(s@, c, j as int) == last_char_before(s@, c, k as int),
        decreases k,
    {
        if s[k - 1] == c {
            return Some(k - 1);
        }
        k = k - 1;
    }
    None
}

fn first_char_from_exec(s: &Vec<char>, c: char, i: usize) -> (r: Option<usize>)
    ensures
        match r {
            Some(k) => k as int == first_char_from(s@, c, i as int) && i <= k < s.len(),
            None => first_char_from(s@, c, i as int) == -1,
        },
{
    let mut k: usize = i;
    while k < s.len()
        invariant
            i <= k,
            first_char_from(s@, c, i as int) == first_char_from(s@, c, k as int),
        decreases s.len() - k,
    {
        if s[k] == c {
            return Some(k);
        }
        k = k + 1;
    }
    None
}

fn brace_rename_exec(s: &Vec<char>) -> (r: Option<(usize, usize, usize)>)
    ensures
        match r {
            Some((o, a, c)) => brace_rename(s@) == Some((o as int, a as int, c as int)) && o < a && a + 2
                <= c < s.len(),
            None => brace_rename(s@) is None,
        },
{
    let a = match first_arrow_exec(s) {
        Some(a) => a,
        None => return None,
    };
    let o = match last_char_before_exec(s, '{', a) {
        Some(o) => o,
        None => return None,
    };
    let c = match first_char_from_exec(s, '}', a + 2) {
        Some(c) => c,
        None => return None,
    };
    Some((o, a, c))
}

fn join_rename_part_exec(prefix: &Vec<char>, part: &Vec<char>, suffix: &Vec<char>) -> (r: Vec<char>)
    ensures
        r@ == join_rename_part(prefix@, part@, suffix@),
{
    if part.len() == 0 && suffix.len() > 0 && suffix[0] == '/' {
        let rest = copy_range(suffix, 1, suffix.len());
        assert(rest@ =~= suffix@.drop_first());
        concat(prefix, &rest)
    } else {
        concat(&concat(prefix, part), suffix)
    }
}

pub fn renamed_new_path_exec(s: &Vec<char>) -> (r: Vec<char>)
    ensures
        r@ == renamed_new_path(s@),
{
    match brace_rename_exec(s) {
        Some((o, a, c)) => {
            let prefix = copy_range(s, 0, o);
            let part = trim_exec(&copy_range(s, a + 2, c));
            let suffix = copy_range(s, c + 1, s.len());
            assert(prefix@ =~= s@.take(o as int));
            assert(suffix@ =~= s@.skip(c + 1));
            trim_exec(&join_rename_part_exec(&prefix, &part, &suffix))
        },
        None => trim_exec(&after_last_arrow_exec(s)),
    }
}

pub fn renamed_old_path_exec(s: &Vec<char>) -> (r: Vec<char>)
    ensures
        r@ == renamed_old_path(s@),
{
    match brace_rename_exec(s) {
        Some((o, a, c)) => {
            let prefix = copy_range(s, 0, o);
            let part = trim_exec(&copy_range(s, o + 1, a));
            let suffix = copy_range(s, c + 1, s.len());
            assert(prefix@ =~= s@.take(o as int));
            assert(suffix@ =~= s@.skip(c + 1));
            trim_exec(&join_rename_part_exec(&prefix, &part, &suffix))
        },
        None => trim_exec(&before_first_arrow_exec(s)),
    }
}

// ---------------------------------------------------------------------------
// Words
// ---------------------------------------------------------------------------

/// Index of the first whitespace at or after `i`, or `t.len()`.
pub open spec fn ws_end(t: Seq<char>, i: int) -> int
    decreases t.len() - i,
{
    if i < 0 || i >= t.len() {
        t.len() as int
    } else if is_ws(t[i]) {
        i
    } else {
        ws_end(t, i + 1)
    }
}

pub proof fn lemma_ws_end(t: Seq<char>, i: int)
    requires
        0 <= i <= t.len(),
    ensures
        i <= ws_end(t, i) <= t.len(),
        forall|j: int| i <= j < ws_end(t, i) ==> !is_ws(#[trigger] t[j]),
        ws_end(t, i) < t.len() ==> is_ws(t[ws_end(t, i)]),
    decreases t.len() - i,
{
    if i < t.len() && !is_ws(t[i]) {
        lemma_ws_end(t, i + 1);
    }
}

pub proof fn lemma_trim_start(s: Seq<char>)
    ensures
        trim_start(s).len() <= s.len(),
        trim_start(s).len() > 0 ==> !is_ws(trim_start(s)[0]),
        trim_start(s) == s.skip(s.len() - trim_start(s).len()),
    decreases s.len(),
{
    if s.len() > 0 && is_ws(s[0]) {
        lemma_trim_start(s.drop_first());
        assert(s.drop_first().skip(s.drop_first().len() - trim_start(s).len()) =~= s.skip(
            s.len() - trim_start(s).len(),
        ));
    } else {
        assert(s.skip(0) =~= s);
    }
}

/// `s.split_whitespace()`: the maximal runs of non-whitespace, in order.
pub open spec fn words(s: Seq<char>) -> Seq<Seq<char>>
    decreases s.len(),
{
    let t = trim_start(s);
    if t.len() == 0 {
        Seq::empty()
    } else {
        proof {
            lemma_trim_start(s);
            lemma_ws_end(t, 0);
            if ws_end(t, 0) == 0 {
                assert(is_ws(t[0]));
            }
        }
        let k = ws_end(t, 0);
        seq![t.take(k)] + words(t.skip(k))
    }
}

/// `s.split_whitespace()` on characters.
pub fn words_exec(s: &Vec<char>) -> (r: Vec<Vec<char>>)
    ensures
        seqs(r@) == words(s@),
{
    let mut r: Vec<Vec<char>> = Vec::new();
    let mut pos: usize = 0;
    assert(s@.skip(0) =~= s@);
    assert(seqs(r@) =~= Seq::<Seq<char>>::empty());
    loop
        invariant
            pos <= s.len(),
            seqs(r@) + words(s@.skip(pos as int)) == words(s@),
        decreases s.len() - pos,
    {
        let ghost u = s@.skip(pos as int);
        let mut a = pos;
        while a < s.len() && is_ws_exec(s[a])
            invariant
                pos <= a <= s.len(),
                u == s@.skip(pos as int),
                forall|j: int| 0 <= j < a - pos ==> is_ws(#[trigger] u[j]),
            decreases s.len() - a,
        {
            a = a + 1;
        }
        proof {
            lemma_trim_start_skip(u, a - pos);
            assert(u.skip(a - pos) =~= s@.skip(a as int));
            if a < s.len() {
                assert(s@.skip(a as int)[0] == s@[a as int]);
            }
            assert(trim_start(s@.skip(a as int)) == s@.skip(a as int));
        }
        if a == s.len() {
            assert(words(u) =~= Seq::<Seq<char>>::empty());
            assert(seqs(r@) =~= words(s@));
            return r;
        }
        let ghost t = s@.skip(a as int);
        let mut b = a;
        while b < s.len() && !is_ws_exec(s[b])
            invariant
                a <= b <= s.len(),
                t == s@.skip(a as int),
                a < s.len(),
                ws_end(t, 0) == ws_end(t, b - a),
            decreases s.len() - b,
        {
            b = b + 1;
        }
        let w = copy_range(s, a, b);
        proof {
            assert(ws_end(t, b - a) == b - a);
            assert(w@ =~= t.take(b - a));
            assert(t.skip(b - a) =~= s@.skip(b as int));
            assert(words(u) == seq![w@] + words(s@.skip(b as int)));
        }
        let ghost before = r@;
        r.push(w);
        assert(seqs(r@) =~= seqs(before).push(w@));
        assert(seqs(r@) + words(s@.skip(b as int)) =~= seqs(before) + words(u));
        pos = b;
    }
}

} // verus!

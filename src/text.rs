//! Character-level helpers shared by the edit engine, the reference
//! extractor and the task file model: conversion between strings and
//! character vectors, the line model, and substring search.
use vstd::prelude::*;

verus! {

/// Splits `s` at every `'\n'`, keeping the pieces raw: a string with
/// `n` newlines has `n + 1` pieces.
pub open spec fn raw_segments(s: Seq<char>) -> Seq<Seq<char>>
    decreases s.len(),
{
    if s.len() == 0 {
        seq![Seq::<char>::empty()]
    } else {
        let r = raw_segments(s.drop_last());
        if s.last() == '\n' {
            r.push(Seq::<char>::empty())
        } else {
            r.update(r.len() - 1, r.last().push(s.last()))
        }
    }
}

/// Drops one trailing carriage return.
pub open spec fn strip_cr(l: Seq<char>) -> Seq<char> {
    if l.len() > 0 && l.last() == '\r' {
        l.drop_last()
    } else {
        l
    }
}

/// The lines of `s`: split at `'\n'`, with a final line ending being
/// optional and a `'\r'` right before a `'\n'` belonging to the line ending.
pub open spec fn lines_of(s: Seq<char>) -> Seq<Seq<char>> {
    let r = raw_segments(s);
    if s.len() == 0 {
        Seq::empty()
    } else if s.last() == '\n' {
        r.drop_last().map_values(|l: Seq<char>| strip_cr(l))
    } else {
        Seq::new(r.len(), |i: int| if i < r.len() - 1 { strip_cr(r[i]) } else { r[i] })
    }
}

/// The lines joined with `'\n'` between them (no newline at the end).
pub open spec fn join_lines(ls: Seq<Seq<char>>) -> Seq<char>
    decreases ls.len(),
{
    if ls.len() == 0 {
        Seq::empty()
    } else if ls.len() == 1 {
        ls[0]
    } else {
        join_lines(ls.drop_last()) + seq!['\n'] + ls.last()
    }
}

/// `"\n"` when `s` ends with a newline, else nothing.
pub open spec fn newline_suffix(s: Seq<char>) -> Seq<char> {
    if s.len() > 0 && s.last() == '\n' {
        seq!['\n']
    } else {
        Seq::empty()
    }
}

/// Whether `p` occurs in `s` starting at position `i`.
pub open spec fn occurs_at(s: Seq<char>, p: Seq<char>, i: int) -> bool {
    0 <= i && i + p.len() <= s.len() && s.subrange(i, i + p.len()) == p
}

/// Whether `p` occurs anywhere in `s`.
pub open spec fn contains_seq(s: Seq<char>, p: Seq<char>) -> bool {
    exists|i: int| occurs_at(s, p, i)
}

/// Whether `s` starts with `p`.
pub open spec fn starts_with(s: Seq<char>, p: Seq<char>) -> bool {
    p.len() <= s.len() && s.take(p.len() as int) == p
}

/// Number of non-overlapping occurrences of `p` in `s`, found from the left.
/// The empty pattern occurs before every character and at the end.
pub open spec fn count_matches(s: Seq<char>, p: Seq<char>) -> nat
    decreases s.len(),
{
    if p.len() == 0 {
        (s.len() + 1) as nat
    } else if s.len() < p.len() {
        0
    } else if s.take(p.len() as int) == p {
        1 + count_matches(s.skip(p.len() as int), p)
    } else {
        count_matches(s.skip(1), p)
    }
}

/// `s` with its first occurrence of `p` replaced by `q` (unchanged when
/// there is none).
pub open spec fn replace_first(s: Seq<char>, p: Seq<char>, q: Seq<char>) -> Seq<char>
    decreases s.len(),
{
    if p.len() == 0 {
        q + s
    } else if s.len() < p.len() {
        s
    } else if s.take(p.len() as int) == p {
        q + s.skip(p.len() as int)
    } else {
        seq![s[0]] + replace_first(s.skip(1), p, q)
    }
}

/// Whitespace as `char::is_whitespace` defines it (the Unicode
/// `White_Space` property).
pub open spec fn is_space(c: char) -> bool {
    ('\t' <= c && c <= '\r') || c == ' ' || c == '\u{85}' || c == '\u{a0}' || c == '\u{1680}'
        || ('\u{2000}' <= c && c <= '\u{200a}') || c == '\u{2028}' || c == '\u{2029}'
        || c == '\u{202f}' || c == '\u{205f}' || c == '\u{3000}'
}

/// `s` without leading and trailing whitespace.
pub open spec fn trim(s: Seq<char>) -> Seq<char> {
    trim_end(trim_start(s))
}

/// `s` without leading whitespace.
pub open spec fn trim_start(s: Seq<char>) -> Seq<char>
    decreases s.len(),
{
    if s.len() > 0 && is_space(s[0]) {
        trim_start(s.skip(1))
    } else {
        s
    }
}

/// `s` without trailing whitespace.
pub open spec fn trim_end(s: Seq<char>) -> Seq<char>
    decreases s.len(),
{
    if s.len() > 0 && is_space(s.last()) {
        trim_end(s.drop_last())
    } else {
        s
    }
}

/// The leading run of non-whitespace characters of `s`.
pub open spec fn leading_word(s: Seq<char>) -> Seq<char>
    decreases s.len(),
{
    if s.len() == 0 || is_space(s[0]) {
        Seq::empty()
    } else {
        seq![s[0]] + leading_word(s.skip(1))
    }
}

/// The first whitespace-delimited word of `s` (empty when there is none).
pub open spec fn first_word(s: Seq<char>) -> Seq<char> {
    leading_word(trim_start(s))
}

/// Position of the first `c` in `s`.
pub open spec fn find_char(s: Seq<char>, c: char) -> Option<nat>
    decreases s.len(),
{
    if s.len() == 0 {
        None
    } else if s[0] == c {
        Some(0)
    } else {
        match find_char(s.skip(1), c) {
            Some(k) => Some(k + 1),
            None => None,
        }
    }
}

pub proof fn lemma_raw_segments_nonempty(s: Seq<char>)
    ensures
        raw_segments(s).len() >= 1,
    decreases s.len(),
{
    if s.len() > 0 {
        lemma_raw_segments_nonempty(s.drop_last());
    }
}

/// The characters of a string slice, in order.
pub fn chars_of(s: &str) -> (r: Vec<char>)
    ensures
        r@ == s@,
{
    let mut v: Vec<char> = Vec::new();
    for c in it: s.chars()
        invariant
            v@ == it.seq().take(it.index() as int),
    {
        v.push(c);
    }
    v
}

/// Relies on `String::push`: the character is added at the end.
#[verifier::external_body]
fn push_char(s: &mut String, c: char)
    ensures
        final(s)@ == old(s)@.push(c),
{
    s.push(c);
}

/// A string holding exactly the given characters.
pub fn string_of(v: &[char]) -> (r: String)
    ensures
        r@ == v@,
{
    let mut s = String::new();
    let mut i: usize = 0;
    while i < v.len()
        invariant
            0 <= i <= v.len(),
            s@ == v@.take(i as int),
        decreases v.len() - i,
    {
        push_char(&mut s, v[i]);
        assert(v@.take(i + 1) == v@.take(i as int).push(v@[i as int]));
        i += 1;
    }
    assert(v@.take(v.len() as int) == v@);
    s
}

/// Appends all of `src` to `dst`.
pub fn extend_chars(dst: &mut Vec<char>, src: &[char])
    ensures
        final(dst)@ == old(dst)@ + src@,
{
    let mut i: usize = 0;
    while i < src.len()
        invariant
            0 <= i <= src.len(),
            dst@ == old(dst)@ + src@.take(i as int),
        decreases src.len() - i,
    {
        dst.push(src[i]);
        assert(src@.take(i + 1) == src@.take(i as int).push(src@[i as int]));
        i += 1;
    }
    assert(src@.take(src.len() as int) == src@);
}

/// Copies `s[lo..hi]`.
pub fn slice_chars(s: &[char], lo: usize, hi: usize) -> (r: Vec<char>)
    requires
        lo <= hi <= s@.len(),
    ensures
        r@ == s@.subrange(lo as int, hi as int),
{
    let mut v: Vec<char> = Vec::new();
    let mut i: usize = lo;
    while i < hi
        invariant
            lo <= i <= hi,
            hi <= s@.len(),
            v@ == s@.subrange(lo as int, i as int),
        decreases hi - i,
    {
        v.push(s[i]);
        assert(s@.subrange(lo as int, i + 1) == s@.subrange(lo as int, i as int).push(s@[i as int]));
        i += 1;
    }
    v
}

/// Character-wise equality.
pub fn chars_eq(a: &[char], b: &[char]) -> (r: bool)
    ensures
        r == (a@ == b@),
{
    if a.len() != b.len() {
        return false;
    }
    let mut i: usize = 0;
    while i < a.len()
        invariant
            0 <= i <= a.len(),
            a.len() == b.len(),
            forall|j: int| 0 <= j < i ==> a@[j] == b@[j],
        decreases a.len() - i,
    {
        if a[i] != b[i] {
            return false;
        }
        i += 1;
    }
    assert(a@ =~= b@);
    true
}

/// Whether `p` occurs in `s` at position `i`.
pub fn matches_at(s: &[char], p: &[char], i: usize) -> (r: bool)
    ensures
        r == occurs_at(s@, p@, i as int),
{
    if i > s.len() || p.len() > s.len() - i {
        return false;
    }
    let mut j: usize = 0;
    while j < p.len()
        invariant
            0 <= j <= p.len(),
            i + p.len() <= s.len(),
            forall|k: int| 0 <= k < j ==> s@[i + k] == p@[k],
        decreases p.len() - j,
    {
        if s[i + j] != p[j] {
            assert(s@.subrange(i as int, i + p.len())[j as int] != p@[j as int]);
            return false;
        }
        j += 1;
    }
    assert(s@.subrange(i as int, i + p.len()) =~= p@);
    true
}

/// Whether `s` starts with `p`.
pub fn starts_with_chars(s: &[char], p: &[char]) -> (r: bool)
    ensures
        r == starts_with(s@, p@),
{
    let r = matches_at(s, p, 0);
    proof {
        if p@.len() <= s@.len() {
            assert(s@.subrange(0, p@.len() as int) == s@.take(p@.len() as int));
        }
    }
    r
}

/// Whether `p` occurs anywhere in `s`.
pub fn contains_chars(s: &[char], p: &[char]) -> (r: bool)
    ensures
        r == contains_seq(s@, p@),
{
    let mut i: usize = 0;
    while i < s.len()
        invariant
            0 <= i <= s.len(),
            forall|k: int| 0 <= k < i ==> !occurs_at(s@, p@, k),
        decreases s.len() - i,
    {
        if matches_at(s, p, i) {
            return true;
        }
        i += 1;
    }
    if matches_at(s, p, i) {
        return true;
    }
    proof {
        assert forall|k: int| !occurs_at(s@, p@, k) by {
            if 0 <= k && k > i {
                assert(k > s@.len());
            }
        }
    }
    false
}

proof fn lemma_skip_take(s: Seq<char>, i: int, n: int)
    requires
        0 <= i,
        0 <= n,
        i + n <= s.len(),
    ensures
        s.skip(i).take(n) == s.subrange(i, i + n),
        s.skip(i).skip(n) == s.skip(i + n),
{
    assert(s.skip(i).take(n) =~= s.subrange(i, i + n));
    assert(s.skip(i).skip(n) =~= s.skip(i + n));
}

/// Non-overlapping occurrences of a non-empty `p` in `s`, from the left.
pub fn count_matches_chars(s: &[char], p: &[char]) -> (r: usize)
    requires
        p@.len() > 0,
    ensures
        r as nat == count_matches(s@, p@),
{
    let mut i: usize = 0;
    let mut n: usize = 0;
    assert(s@.skip(0) == s@);
    while p.len() <= s.len() && i <= s.len() - p.len()
        invariant
            0 <= i <= s.len(),
            p@.len() > 0,
            n + count_matches(s@.skip(i as int), p@) == count_matches(s@, p@),
            n <= i,
        decreases s.len() - i,
    {
        proof {
            lemma_skip_take(s@, i as int, p@.len() as int);
            lemma_skip_take(s@, i as int, 1);
        }
        if matches_at(s, p, i) {
            n += 1;
            i += p.len();
        } else {
            i += 1;
        }
    }
    n
}

/// `s` with the first occurrence of a non-empty `p` replaced by `q`.
pub fn replace_first_chars(s: &[char], p: &[char], q: &[char]) -> (r: Vec<char>)
    requires
        p@.len() > 0,
    ensures
        r@ == replace_first(s@, p@, q@),
{
    let mut i: usize = 0;
    assert(s@.skip(0) == s@);
    assert(s@.take(0) + replace_first(s@, p@, q@) == replace_first(s@, p@, q@));
    while p.len() <= s.len() && i <= s.len() - p.len()
        invariant
            0 <= i <= s.len(),
            p@.len() > 0,
            replace_first(s@, p@, q@) == s@.take(i as int) + replace_first(s@.skip(i as int), p@, q@),
        decreases s.len() - i,
    {
        proof {
            lemma_skip_take(s@, i as int, p@.len() as int);
        }
        if matches_at(s, p, i) {
            let mut r = slice_chars(s, 0, i);
            extend_chars(&mut r, q);
            let tail = slice_chars(s, i + p.len(), s.len());
            extend_chars(&mut r, &tail);
            assert(s@.skip(i + p.len()) == s@.subrange(i + p.len(), s@.len() as int));
            assert(s@.take(i as int) == s@.subrange(0, i as int));
            assert(r@ =~= s@.take(i as int) + (q@ + s@.skip(i as int).skip(p@.len() as int)));
            return r;
        }
        proof {
            lemma_skip_take(s@, i as int, 1);
            assert(s@.take(i + 1) =~= s@.take(i as int) + seq![s@.skip(i as int)[0]]);
            assert(s@.take(i as int) + (seq![s@.skip(i as int)[0]] + replace_first(s@.skip(i + 1), p@, q@))
                =~= s@.take(i + 1) + replace_first(s@.skip(i + 1), p@, q@));
        }
        i += 1;
    }
    proof {
        assert(s@.take(i as int) + s@.skip(i as int) =~= s@);
    }
    slice_chars(s, 0, s.len())
}

/// The character sequences held by a vector of character vectors.
pub open spec fn views(v: Seq<Vec<char>>) -> Seq<Seq<char>> {
    v.map_values(|x: Vec<char>| x@)
}

/// The mathematical content of a list of strings.
pub open spec fn strs(v: Seq<String>) -> Seq<Seq<char>> {
    v.map_values(|s: String| s@)
}

/// The lines of `s`, as `lines_of` describes them.
pub fn split_lines(s: &[char]) -> (r: Vec<Vec<char>>)
    ensures
        views(r@) == lines_of(s@),
{
    let mut done: Vec<Vec<char>> = Vec::new();
    let mut cur: Vec<char> = Vec::new();
    let mut i: usize = 0;
    proof {
        assert(s@.take(0) =~= Seq::<char>::empty());
    }
    while i < s.len()
        invariant
            0 <= i <= s.len(),
            views(done@) == raw_segments(s@.take(i as int)).drop_last().map_values(
                |l: Seq<char>| strip_cr(l),
            ),
            cur@ == raw_segments(s@.take(i as int)).last(),
        decreases s.len() - i,
    {
        let c = s[i];
        let ghost r = raw_segments(s@.take(i as int));
        proof {
            lemma_raw_segments_nonempty(s@.take(i as int));
            assert(s@.take(i + 1).drop_last() =~= s@.take(i as int));
        }
        if c == '\n' {
            let mut line = cur;
            if line.len() > 0 && line[line.len() - 1] == '\r' {
                line.pop();
            }
            assert(line@ == strip_cr(r.last()));
            let ghost before = views(done@);
            let ghost done0 = done@;
            done.push(line);
            cur = Vec::new();
            proof {
                let r2 = raw_segments(s@.take(i + 1));
                assert(r2 == r.push(Seq::<char>::empty()));
                assert(r2.drop_last() =~= r);
                assert(r.drop_last().push(r.last()) =~= r);
                assert(done@ == done0.push(line));
                assert(views(done@) =~= before.push(line@));
                assert(r2.drop_last().map_values(|l: Seq<char>| strip_cr(l)) =~= r.drop_last().map_values(
                    |l: Seq<char>| strip_cr(l),
                ).push(strip_cr(r.last())));
            }
        } else {
            cur.push(c);
            proof {
                let r2 = raw_segments(s@.take(i + 1));
                assert(r2 == r.update(r.len() - 1, r.last().push(c)));
                assert(r2.drop_last() =~= r.drop_last());
            }
        }
        i += 1;
    }
    proof {
        assert(s@.take(s@.len() as int) =~= s@);
        lemma_raw_segments_nonempty(s@);
    }
    if s.len() == 0 {
        assert(views(done@) =~= lines_of(s@));
        return Vec::new();
    }
    if s[s.len() - 1] == '\n' {
        proof {
            let r = raw_segments(s@);
            assert(views(done@) =~= lines_of(s@));
        }
        done
    } else {
        let ghost before = views(done@);
        let ghost last = cur@;
        done.push(cur);
        proof {
            let r = raw_segments(s@);
            assert(views(done@) =~= before.push(last));
            assert(views(done@) =~= lines_of(s@));
        }
        done
    }
}

/// The lines joined with newlines, as `join_lines` describes it.
pub fn join_lines_chars(ls: &Vec<Vec<char>>) -> (r: Vec<char>)
    ensures
        r@ == join_lines(views(ls@)),
{
    let mut r: Vec<char> = Vec::new();
    let mut i: usize = 0;
    proof {
        assert(views(ls@).take(0) =~= Seq::<Seq<char>>::empty());
    }
    while i < ls.len()
        invariant
            0 <= i <= ls.len(),
            r@ == join_lines(views(ls@).take(i as int)),
        decreases ls.len() - i,
    {
        proof {
            let t = views(ls@).take(i + 1);
            assert(t.drop_last() =~= views(ls@).take(i as int));
            assert(t.last() == ls[i as int]@);
        }
        if i > 0 {
            r.push('\n');
        }
        extend_chars(&mut r, ls[i].as_slice());
        proof {
            let t = views(ls@).take(i + 1);
            if i == 0 {
                assert(r@ =~= join_lines(t));
            } else {
                assert(r@ =~= join_lines(t));
            }
        }
        i += 1;
    }
    assert(views(ls@).take(ls.len() as int) =~= views(ls@));
    r
}

/// Whether `c` is whitespace.
pub fn is_space_char(c: char) -> (r: bool)
    ensures
        r == is_space(c),
{
    ('\t' <= c && c <= '\r') || c == ' ' || c == '\u{85}' || c == '\u{a0}' || c == '\u{1680}'
        || ('\u{2000}' <= c && c <= '\u{200a}') || c == '\u{2028}' || c == '\u{2029}'
        || c == '\u{202f}' || c == '\u{205f}' || c == '\u{3000}'
}

/// Index of the first non-whitespace character of `s` (its length if none).
pub fn trim_start_index(s: &[char]) -> (i: usize)
    ensures
        i <= s@.len(),
        trim_start(s@) == s@.skip(i as int),
{
    let mut i: usize = 0;
    assert(s@.skip(0) =~= s@);
    while i < s.len() && is_space_char(s[i])
        invariant
            0 <= i <= s.len(),
            trim_start(s@) == trim_start(s@.skip(i as int)),
        decreases s.len() - i,
    {
        assert(s@.skip(i as int).skip(1) =~= s@.skip(i + 1));
        i += 1;
    }
    i
}

/// `s` without leading and trailing whitespace.
pub fn trim_chars(s: &[char]) -> (r: Vec<char>)
    ensures
        r@ == trim(s@),
{
    let i = trim_start_index(s);
    let mut j: usize = s.len();
    assert(s@.subrange(i as int, s@.len() as int) =~= s@.skip(i as int));
    while j > i && is_space_char(s[j - 1])
        invariant
            i <= j <= s.len(),
            trim(s@) == trim_end(s@.subrange(i as int, j as int)),
        decreases j,
    {
        assert(s@.subrange(i as int, j as int).drop_last() =~= s@.subrange(i as int, j - 1));
        j -= 1;
    }
    slice_chars(s, i, j)
}

/// The first whitespace-delimited word of `s`.
pub fn first_word_chars(s: &[char]) -> (r: Vec<char>)
    ensures
        r@ == first_word(s@),
{
    let i = trim_start_index(s);
    let mut j: usize = i;
    assert(s@.subrange(i as int, i as int) + leading_word(s@.skip(i as int)) =~= leading_word(s@.skip(i as int)));
    while j < s.len() && !is_space_char(s[j])
        invariant
            i <= j <= s.len(),
            first_word(s@) == s@.subrange(i as int, j as int) + leading_word(s@.skip(j as int)),
        decreases s.len() - j,
    {
        assert(s@.skip(j as int).skip(1) =~= s@.skip(j + 1));
        assert(s@.subrange(i as int, j as int) + (seq![s@[j as int]] + leading_word(s@.skip(j + 1)))
            =~= s@.subrange(i as int, j + 1) + leading_word(s@.skip(j + 1)));
        j += 1;
    }
    assert(s@.subrange(i as int, j as int) + leading_word(s@.skip(j as int)) =~= s@.subrange(i as int, j as int));
    slice_chars(s, i, j)
}

/// Position of the first `c` in `s`.
pub fn find_char_index(s: &[char], c: char) -> (r: Option<usize>)
    ensures
        match r {
            Some(k) => find_char(s@, c) == Some(k as nat) && k < s@.len() && s@[k as int] == c,
            None => find_char(s@, c) is None,
        },
{
    let mut i: usize = 0;
    assert(s@.skip(0) =~= s@);
    while i < s.len()
        invariant
            0 <= i <= s.len(),
            find_char(s@, c) == (match find_char(s@.skip(i as int), c) {
                Some(k) => Some((k + i) as nat),
                None => None::<nat>,
            }),
        decreases s.len() - i,
    {
        if s[i] == c {
            return Some(i);
        }
        assert(s@.skip(i as int).skip(1) =~= s@.skip(i + 1));
        i += 1;
    }
    None
}

/// Position of the first occurrence of `p` in `s`.
pub open spec fn first_occurrence(s: Seq<char>, p: Seq<char>) -> Option<nat>
    decreases s.len(),
{
    if s.len() < p.len() {
        None
    } else if s.take(p.len() as int) == p {
        Some(0)
    } else if s.len() == 0 {
        None
    } else {
        match first_occurrence(s.skip(1), p) {
            Some(k) => Some(k + 1),
            None => None,
        }
    }
}

/// Position of the first occurrence of `p` in `s`.
pub fn first_occurrence_index(s: &[char], p: &[char]) -> (r: Option<usize>)
    ensures
        match r {
            Some(k) => first_occurrence(s@, p@) == Some(k as nat) && k + p@.len() <= s@.len()
                && s@.subrange(k as int, k + p@.len()) == p@,
            None => first_occurrence(s@, p@) is None,
        },
{
    let mut i: usize = 0;
    assert(s@.skip(0) =~= s@);
    while i < s.len()
        invariant
            0 <= i <= s.len(),
            first_occurrence(s@, p@) == (match first_occurrence(s@.skip(i as int), p@) {
                Some(k) => Some((k + i) as nat),
                None => None::<nat>,
            }),
        decreases s.len() - i,
    {
        let ghost rest = s@.skip(i as int);
        if p.len() > s.len() - i {
            return None;
        }
        assert(rest.take(p@.len() as int) =~= s@.subrange(i as int, i + p@.len()));
        if matches_at(s, p, i) {
            return Some(i);
        }
        assert(rest.skip(1) =~= s@.skip(i + 1));
        i += 1;
    }
    if p.len() == 0 {
        assert(s@.skip(i as int).take(0) =~= p@);
        assert(s@.subrange(i as int, i as int) =~= p@);
        return Some(i);
    }
    None
}

/// `s` without trailing whitespace.
pub fn trim_end_chars(s: &[char]) -> (r: Vec<char>)
    ensures
        r@ == trim_end(s@),
{
    let mut j: usize = s.len();
    assert(s@.subrange(0, s@.len() as int) =~= s@);
    while j > 0 && is_space_char(s[j - 1])
        invariant
            j <= s.len(),
            trim_end(s@) == trim_end(s@.subrange(0, j as int)),
        decreases j,
    {
        assert(s@.subrange(0, j as int).drop_last() =~= s@.subrange(0, j - 1));
        j -= 1;
    }
    slice_chars(s, 0, j)
}

/// `a` followed by `b`.
pub fn concat_chars(a: &[char], b: &[char]) -> (r: Vec<char>)
    ensures
        r@ == a@ + b@,
{
    let mut r = slice_chars(a, 0, a.len());
    assert(r@ =~= a@);
    extend_chars(&mut r, b);
    r
}

} // verus!

//! Line-oriented reading of markdown: link-reference definitions
//! (`[id]: dest`), headings and the frontmatter `PREFIX:` key.
use vstd::prelude::*;
use crate::text::{
    chars_eq, chars_of, contains_chars, contains_seq, find_char, find_char_index, first_word,
    first_word_chars, lines_of, slice_chars, split_lines, starts_with, starts_with_chars,
    string_of, trim, trim_chars, views,
};

verus! {

/// A markdown heading.
#[derive(Debug, Clone)]
pub struct MarkdownHeading {
    /// Heading level (1-6).
    pub level: u8,
    /// Heading text.
    pub text: String,
}

/// A markdown link.
#[derive(Debug, Clone)]
pub struct MarkdownLink {
    /// The visible text.
    pub text: String,
    /// The destination.
    pub dest: String,
    /// Whether the link is reference-style rather than inline.
    pub is_reference: bool,
}

/// The id and destination of a line of the form `[id]: dest`, after
/// trimming; the destination is the first word after the colon and may be
/// empty.
pub open spec fn ref_def(line: Seq<char>) -> Option<(Seq<char>, Seq<char>)> {
    let t = trim(line);
    if t.len() > 0 && t[0] == '[' && contains_seq(t, seq![']', ':']) {
        match find_char(t, ']') {
            Some(k) => {
                let after = t.skip(k as int + 1);
                if after.len() > 0 && after[0] == ':' {
                    Some((t.subrange(1, k as int), first_word(after.skip(1))))
                } else {
                    None
                }
            },
            None => None,
        }
    } else {
        None
    }
}

/// The reference definitions with a non-empty destination among `ls`, in
/// order, duplicates included.
pub open spec fn refs_in(ls: Seq<Seq<char>>) -> Seq<(Seq<char>, Seq<char>)>
    decreases ls.len(),
{
    if ls.len() == 0 {
        Seq::empty()
    } else {
        let r = refs_in(ls.drop_last());
        match ref_def(ls.last()) {
            Some((id, d)) => if d.len() > 0 {
                r.push((id, d))
            } else {
                r
            },
            None => r,
        }
    }
}

/// The reference definitions of a text.
pub open spec fn references(c: Seq<char>) -> Seq<(Seq<char>, Seq<char>)> {
    refs_in(lines_of(c))
}

pub open spec fn is_ascii_upper(c: char) -> bool {
    'A' <= c && c <= 'Z'
}

/// Equality of characters up to ASCII case.
pub open spec fn char_eq_ignore_case(a: char, b: char) -> bool {
    a == b || (is_ascii_upper(a) && a as u32 + 32 == b as u32) || (is_ascii_upper(b) && b as u32
        + 32 == a as u32)
}

/// Equality of strings up to ASCII case.
pub open spec fn eq_ignore_case(a: Seq<char>, b: Seq<char>) -> bool {
    a.len() == b.len() && forall|i: int| 0 <= i < a.len() ==> char_eq_ignore_case(a[i], b[i])
}

/// The destination that the first definition of `id` (ASCII case ignored)
/// gives; `None` also when that definition has no destination.
pub open spec fn lookup_dest(ls: Seq<Seq<char>>, id: Seq<char>) -> Option<Seq<char>>
    decreases ls.len(),
{
    if ls.len() == 0 {
        None
    } else {
        match ref_def(ls[0]) {
            Some((i, d)) if eq_ignore_case(i, id) => if d.len() > 0 {
                Some(d)
            } else {
                None
            },
            _ => lookup_dest(ls.skip(1), id),
        }
    }
}

/// The mathematical content of an optional string.
pub open spec fn opt_view(o: Option<String>) -> Option<Seq<char>> {
    match o {
        Some(s) => Some(s@),
        None => None,
    }
}

/// The mathematical content of a list of string pairs.
pub open spec fn pairs_view(v: Seq<(String, String)>) -> Seq<(Seq<char>, Seq<char>)> {
    v.map_values(|p: (String, String)| (p.0@, p.1@))
}

/// Parses one line as a reference definition.
pub fn parse_ref_line(line: &[char]) -> (r: Option<(Vec<char>, Vec<char>)>)
    ensures
        match ref_def(line@) {
            Some((id, d)) => r matches Some((i2, d2)) && i2@ == id && d2@ == d,
            None => r is None,
        },
{
    let t = trim_chars(line);
    let colon = vec![']', ':'];
    if t.len() == 0 || t[0] != '[' || !contains_chars(t.as_slice(), colon.as_slice()) {
        return None;
    }
    proof {
        assert(colon@ == seq![']', ':']);
    }
    match find_char_index(t.as_slice(), ']') {
        Some(k) => {
            proof {
                assert(find_char(t@, ']') == Some(k as nat));
            }
            if k + 1 < t.len() && t[k + 1] == ':' {
                let id = slice_chars(t.as_slice(), 1, k);
                let rest = slice_chars(t.as_slice(), k + 2, t.len());
                let dest = first_word_chars(rest.as_slice());
                proof {
                    assert(t@.skip(k + 1).skip(1) =~= rest@);
                }
                Some((id, dest))
            } else {
                assert(t@.skip(k + 1).len() == 0 || t@.skip(k + 1)[0] != ':');
                None
            }
        },
        None => None,
    }
}

/// Whether two character slices are equal up to ASCII case.
pub fn chars_eq_ignore_case(a: &[char], b: &[char]) -> (r: bool)
    ensures
        r == eq_ignore_case(a@, b@),
{
    if a.len() != b.len() {
        return false;
    }
    let mut i: usize = 0;
    while i < a.len()
        invariant
            0 <= i <= a.len(),
            a.len() == b.len(),
            forall|j: int| 0 <= j < i ==> char_eq_ignore_case(a@[j], b@[j]),
        decreases a.len() - i,
    {
        let x = a[i];
        let y = b[i];
        let same = x == y || ('A' <= x && x <= 'Z' && x as u32 + 32 == y as u32) || ('A' <= y && y
            <= 'Z' && y as u32 + 32 == x as u32);
        if !same {
            return false;
        }
        i += 1;
    }
    true
}

/// All link-reference definitions `[id]: dest` of the text, in order;
/// lines without a destination are skipped, repeated ids are all kept.
pub fn extract_references(content: &str) -> (r: Vec<(String, String)>)
    ensures
        pairs_view(r@) == references(content@),
{
    let cs = chars_of(content);
    let ls = split_lines(cs.as_slice());
    let ghost all = views(ls@);
    let mut out: Vec<(String, String)> = Vec::new();
    let mut i: usize = 0;
    assert(all.take(0) =~= Seq::<Seq<char>>::empty());
    while i < ls.len()
        invariant
            0 <= i <= ls.len(),
            all == views(ls@),
            all == lines_of(content@),
            pairs_view(out@) == refs_in(all.take(i as int)),
        decreases ls.len() - i,
    {
        proof {
            assert(all.take(i + 1).drop_last() =~= all.take(i as int));
            assert(all.take(i + 1).last() == ls[i as int]@);
        }
        match parse_ref_line(ls[i].as_slice()) {
            Some((id, dest)) => {
                if dest.len() > 0 {
                    let ghost o0 = out@;
                    let pair = (string_of(id.as_slice()), string_of(dest.as_slice()));
                    out.push(pair);
                    assert(pairs_view(out@) =~= pairs_view(o0).push((id@, dest@)));
                }
            },
            None => {},
        }
        i += 1;
    }
    assert(all.take(ls.len() as int) =~= all);
    out
}

/// The destination of the first definition of `ref_id` (ASCII case
/// ignored), or `None`.
pub fn get_reference_dest(content: &str, ref_id: &str) -> (r: Option<String>)
    ensures
        opt_view(r) == lookup_dest(lines_of(content@), ref_id@),
{
    let cs = chars_of(content);
    let want = chars_of(ref_id);
    let ls = split_lines(cs.as_slice());
    let ghost all = views(ls@);
    let mut i: usize = 0;
    assert(all.skip(0) =~= all);
    while i < ls.len()
        invariant
            0 <= i <= ls.len(),
            all == views(ls@),
            all == lines_of(content@),
            want@ == ref_id@,
            lookup_dest(all, ref_id@) == lookup_dest(all.skip(i as int), ref_id@),
        decreases ls.len() - i,
    {
        proof {
            assert(all.skip(i as int)[0] == ls[i as int]@);
            assert(all.skip(i as int).skip(1) =~= all.skip(i + 1));
        }
        match parse_ref_line(ls[i].as_slice()) {
            Some((id, dest)) => {
                if chars_eq_ignore_case(id.as_slice(), want.as_slice()) {
                    if dest.len() > 0 {
                        return Some(string_of(dest.as_slice()));
                    } else {
                        return None;
                    }
                }
            },
            None => {},
        }
        i += 1;
    }
    None
}

/// Whether a definition of `ref_id` with a destination is found.
pub fn has_reference(content: &str, ref_id: &str) -> (r: bool)
    ensures
        r == lookup_dest(lines_of(content@), ref_id@) is Some,
{
    get_reference_dest(content, ref_id).is_some()
}

/// Number of leading `'#'` characters of `s`.
pub open spec fn hash_run(s: Seq<char>) -> nat
    decreases s.len(),
{
    if s.len() > 0 && s[0] == '#' {
        1 + hash_run(s.skip(1))
    } else {
        0
    }
}

/// Whether `line` is a heading whose text is `text` and, when `level` is
/// given, whose level (its count of `'#'`, kept in a byte) is `level`.
pub open spec fn heading_matches(line: Seq<char>, text: Seq<char>, level: Option<u8>) -> bool {
    let t = trim(line);
    let n = hash_run(t) % 256;
    &&& t.len() > 0
    &&& t[0] == '#'
    &&& match level {
        Some(l) => n == l as nat,
        None => true,
    }
    &&& trim(t.skip(n as int)) == text
}

/// Index of the first line that is the heading sought.
pub open spec fn first_heading(ls: Seq<Seq<char>>, text: Seq<char>, level: Option<u8>) -> Option<
    nat,
>
    decreases ls.len(),
{
    if ls.len() == 0 {
        None
    } else if heading_matches(ls[0], text, level) {
        Some(0)
    } else {
        match first_heading(ls.skip(1), text, level) {
            Some(k) => Some(k + 1),
            None => None,
        }
    }
}

/// Number of leading `'#'` characters.
fn hash_run_len(s: &[char]) -> (r: usize)
    ensures
        r as nat == hash_run(s@),
        r <= s@.len(),
{
    let mut i: usize = 0;
    assert(s@.skip(0) =~= s@);
    while i < s.len() && s[i] == '#'
        invariant
            0 <= i <= s.len(),
            hash_run(s@) == i + hash_run(s@.skip(i as int)),
        decreases s.len() - i,
    {
        assert(s@.skip(i as int).skip(1) =~= s@.skip(i + 1));
        i += 1;
    }
    i
}

fn heading_line_matches(line: &[char], text: &[char], level: Option<u8>) -> (r: bool)
    ensures
        r == heading_matches(line@, text@, level),
{
    let t = trim_chars(line);
    if t.len() == 0 || t[0] != '#' {
        return false;
    }
    let n = hash_run_len(t.as_slice());
    let n8 = (n % 256) as u8;
    match level {
        Some(l) => {
            if n8 != l {
                return false;
            }
        },
        None => {},
    }
    let rest = slice_chars(t.as_slice(), n8 as usize, t.len());
    assert(rest@ == t@.skip((n % 256) as int));
    let h = trim_chars(rest.as_slice());
    chars_eq(h.as_slice(), text)
}

/// The 0-based index of the first line that is a heading with the given
/// text (and level, when given).
pub fn find_heading_line(content: &str, heading_text: &str, level: Option<u8>) -> (r: Option<usize>)
    ensures
        match first_heading(lines_of(content@), heading_text@, level) {
            Some(k) => r == Some(k as usize),
            None => r is None,
        },
{
    let cs = chars_of(content);
    let want = chars_of(heading_text);
    let ls = split_lines(cs.as_slice());
    let ghost all = views(ls@);
    let mut i: usize = 0;
    assert(all.skip(0) =~= all);
    while i < ls.len()
        invariant
            0 <= i <= ls.len(),
            all == views(ls@),
            all == lines_of(content@),
            want@ == heading_text@,
            first_heading(all, heading_text@, level) == (match first_heading(all.skip(i as int), heading_text@, level) {
                Some(k) => Some((k + i) as nat),
                None => None::<nat>,
            }),
        decreases ls.len() - i,
    {
        proof {
            assert(all.skip(i as int)[0] == ls[i as int]@);
            assert(all.skip(i as int).skip(1) =~= all.skip(i + 1));
        }
        if heading_line_matches(ls[i].as_slice(), want.as_slice(), level) {
            return Some(i);
        }
        i += 1;
    }
    None
}

/// Whether a line is a `---` delimiter (surrounding whitespace ignored).
pub open spec fn is_delimiter(line: Seq<char>) -> bool {
    trim(line) == seq!['-', '-', '-']
}

/// The `PREFIX:` key.
pub open spec fn prefix_key() -> Seq<char> {
    seq!['P', 'R', 'E', 'F', 'I', 'X', ':']
}

/// Scans frontmatter lines up to the closing delimiter; the last `PREFIX:`
/// line seen gives the value.
pub open spec fn prefix_scan(ls: Seq<Seq<char>>, found: Option<Seq<char>>) -> Option<Seq<char>>
    decreases ls.len(),
{
    if ls.len() == 0 || is_delimiter(ls[0]) {
        found
    } else {
        let t = trim(ls[0]);
        prefix_scan(
            ls.skip(1),
            if starts_with(t, prefix_key()) {
                Some(trim(t.skip(7)))
            } else {
                found
            },
        )
    }
}

/// The `PREFIX:` value of the frontmatter that opens at the first `---` line.
pub open spec fn frontmatter_prefix(ls: Seq<Seq<char>>) -> Option<Seq<char>>
    decreases ls.len(),
{
    if ls.len() == 0 {
        None
    } else if is_delimiter(ls[0]) {
        prefix_scan(ls.skip(1), None)
    } else {
        frontmatter_prefix(ls.skip(1))
    }
}

pub(crate) fn is_delimiter_line(line: &[char]) -> (r: bool)
    ensures
        r == is_delimiter(line@),
{
    let t = trim_chars(line);
    let d = vec!['-', '-', '-'];
    assert(d@ == seq!['-', '-', '-']);
    chars_eq(t.as_slice(), d.as_slice())
}

/// The value of the `PREFIX:` key of the frontmatter (the lines between the
/// first two `---` lines), trimmed; the last such key wins.
pub fn extract_frontmatter_prefix(content: &str) -> (r: Option<String>)
    ensures
        opt_view(r) == frontmatter_prefix(lines_of(content@)),
{
    let cs = chars_of(content);
    let ls = split_lines(cs.as_slice());
    let ghost all = views(ls@);
    let key = vec!['P', 'R', 'E', 'F', 'I', 'X', ':'];
    assert(key@ == prefix_key());
    let mut i: usize = 0;
    assert(all.skip(0) =~= all);
    while i < ls.len() && !is_delimiter_line(ls[i].as_slice())
        invariant
            0 <= i <= ls.len(),
            all == views(ls@),
            frontmatter_prefix(all) == frontmatter_prefix(all.skip(i as int)),
        decreases ls.len() - i,
    {
        assert(all.skip(i as int)[0] == ls[i as int]@);
        assert(all.skip(i as int).skip(1) =~= all.skip(i + 1));
        i += 1;
    }
    if i == ls.len() {
        return None;
    }
    assert(all.skip(i as int)[0] == ls[i as int]@);
    assert(all.skip(i as int).skip(1) =~= all.skip(i + 1));
    let mut found: Option<Vec<char>> = None;
    let mut j: usize = i + 1;
    while j < ls.len() && !is_delimiter_line(ls[j].as_slice())
        invariant
            i < j <= ls.len(),
            all == views(ls@),
            key@ == prefix_key(),
            frontmatter_prefix(all) == prefix_scan(all.skip(j as int), match found {
                Some(v) => Some(v@),
                None => None,
            }),
        decreases ls.len() - j,
    {
        assert(all.skip(j as int)[0] == ls[j as int]@);
        assert(all.skip(j as int).skip(1) =~= all.skip(j + 1));
        let t = trim_chars(ls[j].as_slice());
        if starts_with_chars(t.as_slice(), key.as_slice()) {
            let rest = slice_chars(t.as_slice(), 7, t.len());
            assert(rest@ == t@.skip(7));
            found = Some(trim_chars(rest.as_slice()));
        }
        j += 1;
    }
    proof {
        if j < ls.len() {
            assert(all.skip(j as int)[0] == ls[j as int]@);
        }
    }
    match found {
        Some(v) => Some(string_of(v.as_slice())),
        None => None,
    }
}

} // verus!

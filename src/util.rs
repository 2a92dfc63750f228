//! Small text utilities: slugs, titles, hashes and path display.
use vstd::prelude::*;
use sha2::Digest;
use crate::text::{
    chars_of, lines_of, slice_chars, split_lines, starts_with, starts_with_chars, string_of, trim,
    trim_chars, views,
};

verus! {

/// What `str::to_lowercase` returns (full Unicode case mapping).
pub uninterp spec fn lowercase_of(s: Seq<char>) -> Seq<char>;

/// What `char::is_alphanumeric` says of a character outside ASCII.
pub uninterp spec fn unicode_alnum(c: char) -> bool;

/// What `Path::file_stem` gives for a path, lossily converted.
pub uninterp spec fn file_stem_of(p: Seq<char>) -> Option<Seq<char>>;

/// The lowercase SHA-256 hex digest of a string's UTF-8 bytes.
pub uninterp spec fn sha256_hex(s: Seq<char>) -> Seq<char>;

pub open spec fn is_ascii_alnum(c: char) -> bool {
    ('0' <= c && c <= '9') || ('a' <= c && c <= 'z') || ('A' <= c && c <= 'Z')
}

/// `char::is_alphanumeric`: exact on ASCII, named beyond it.
pub open spec fn is_alnum(c: char) -> bool {
    if (c as u32) < 128 {
        is_ascii_alnum(c)
    } else {
        unicode_alnum(c)
    }
}

pub open spec fn is_hex_lower(c: char) -> bool {
    ('0' <= c && c <= '9') || ('a' <= c && c <= 'f')
}

/// Relies on `str::to_lowercase`: the result depends on the characters alone.
#[verifier::external_body]
fn to_lowercase(s: &str) -> (r: String)
    ensures
        r@ == lowercase_of(s@),
        s@.len() == 0 ==> r@.len() == 0,
{
    s.to_lowercase()
}

/// Relies on `char::is_alphanumeric`: Unicode `Alphabetic` or `Numeric`,
/// which on ASCII are the digits and the Latin letters.
#[verifier::external_body]
fn char_is_alphanumeric(c: char) -> (r: bool)
    ensures
        (c as u32) < 128 ==> r == is_ascii_alnum(c),
        (c as u32) >= 128 ==> r == unicode_alnum(c),
{
    c.is_alphanumeric()
}

/// Relies on `Path::file_stem` (and `OsStr::to_string_lossy`): the file
/// name without its last extension.
#[verifier::external_body]
fn path_file_stem(p: &str) -> (r: Option<String>)
    ensures
        match file_stem_of(p@) {
            Some(s) => r matches Some(t) && t@ == s,
            None => r is None,
        },
{
    std::path::Path::new(p).file_stem().map(|s| s.to_string_lossy().to_string())
}

/// SHA-256 of the string's bytes, as 64 lowercase hex digits.
/// Relies on `sha2::Sha256` and the `LowerHex` formatting of its output.
#[verifier::external_body]
pub fn hash_source(source: &str) -> (r: String)
    ensures
        r@ == sha256_hex(source@),
        r@.len() == 64,
        forall|i: int| 0 <= i < r@.len() ==> is_hex_lower(#[trigger] r@[i]),
{
    let mut hasher = sha2::Sha256::new();
    hasher.update(source.as_bytes());
    format!("{:x}", hasher.finalize())
}

/// Slug characters before the trimming of dashes, with whether the last
/// thing written was a dash.
pub open spec fn slug_build(l: Seq<char>) -> (Seq<char>, bool)
    decreases l.len(),
{
    if l.len() == 0 {
        (Seq::empty(), false)
    } else {
        let (r, dash) = slug_build(l.drop_last());
        let c = l.last();
        if is_alnum(c) {
            (r.push(c), false)
        } else if !dash && r.len() > 0 {
            (r.push('-'), true)
        } else {
            (r, dash)
        }
    }
}

/// `s` without leading dashes.
pub open spec fn trim_start_dashes(s: Seq<char>) -> Seq<char>
    decreases s.len(),
{
    if s.len() > 0 && s[0] == '-' {
        trim_start_dashes(s.skip(1))
    } else {
        s
    }
}

/// `s` without trailing dashes.
pub open spec fn trim_end_dashes(s: Seq<char>) -> Seq<char>
    decreases s.len(),
{
    if s.len() > 0 && s.last() == '-' {
        trim_end_dashes(s.drop_last())
    } else {
        s
    }
}

/// The slug of an already lowercased text: alphanumeric characters kept,
/// every run of other characters after the first kept one turned into a
/// single dash, no dash at either end.
pub open spec fn slug_of(l: Seq<char>) -> Seq<char> {
    trim_end_dashes(trim_start_dashes(slug_build(l).0))
}

/// The slug of an already lowercased text.
pub fn slug_from_lowercase(lower: &str) -> (r: String)
    ensures
        r@ == slug_of(lower@),
{
    let l = chars_of(lower);
    let mut out: Vec<char> = Vec::new();
    let mut dash = false;
    let mut i: usize = 0;
    assert(l@.take(0) =~= Seq::<char>::empty());
    while i < l.len()
        invariant
            0 <= i <= l.len(),
            l@ == lower@,
            slug_build(l@.take(i as int)) == (out@, dash),
        decreases l.len() - i,
    {
        assert(l@.take(i + 1).drop_last() =~= l@.take(i as int));
        let c = l[i];
        if char_is_alphanumeric(c) {
            out.push(c);
            dash = false;
        } else if !dash && out.len() > 0 {
            out.push('-');
            dash = true;
        }
        i += 1;
    }
    assert(l@.take(l.len() as int) =~= l@);
    let mut a: usize = 0;
    assert(out@.skip(0) =~= out@);
    while a < out.len() && out[a] == '-'
        invariant
            0 <= a <= out.len(),
            trim_start_dashes(out@) == trim_start_dashes(out@.skip(a as int)),
        decreases out.len() - a,
    {
        assert(out@.skip(a as int).skip(1) =~= out@.skip(a + 1));
        a += 1;
    }
    let mut b: usize = out.len();
    assert(out@.subrange(a as int, out@.len() as int) =~= out@.skip(a as int));
    while b > a && out[b - 1] == '-'
        invariant
            a <= b <= out.len(),
            slug_of(l@) == trim_end_dashes(out@.subrange(a as int, b as int)),
        decreases b,
    {
        assert(out@.subrange(a as int, b as int).drop_last() =~= out@.subrange(a as int, b - 1));
        b -= 1;
    }
    let s = slice_chars(out.as_slice(), a, b);
    string_of(s.as_slice())
}

/// The slug of a title: lowercased, runs of non-alphanumeric characters
/// turned into single dashes, no dash at either end.
pub fn slugify(title: &str) -> (r: String)
    ensures
        r@ == slug_of(lowercase_of(title@)),
{
    let lower = to_lowercase(title);
    slug_from_lowercase(lower.as_str())
}

/// The first twelve characters of a hash (all of it when shorter).
pub fn abbreviate_hash(full_hash: &str) -> (r: String)
    ensures
        r@ == full_hash@.take(if full_hash@.len() < 12 { full_hash@.len() as int } else { 12 }),
{
    let cs = chars_of(full_hash);
    let n: usize = if cs.len() < 12 { cs.len() } else { 12 };
    let s = slice_chars(cs.as_slice(), 0, n);
    assert(s@ =~= full_hash@.take(n as int));
    string_of(s.as_slice())
}

/// The short id of a note's source: the first twelve hex digits of the
/// source's SHA-256 digest (the directory its notes are kept in).
pub fn source_hash_id(source: &str) -> (r: String)
    ensures
        r@ == sha256_hex(source@).take(12),
        r@.len() == 12,
{
    let full = hash_source(source);
    abbreviate_hash(full.as_str())
}

/// A path as text with every backslash turned into a slash.
pub fn display_path(path: &str) -> (r: String)
    ensures
        r@ == path@.map_values(|c: char| if c == '\\' { '/' } else { c }),
{
    let cs = chars_of(path);
    let mut out: Vec<char> = Vec::new();
    let mut i: usize = 0;
    while i < cs.len()
        invariant
            0 <= i <= cs.len(),
            cs@ == path@,
            out@ == cs@.take(i as int).map_values(|c: char| if c == '\\' { '/' } else { c }),
        decreases cs.len() - i,
    {
        let c = cs[i];
        out.push(if c == '\\' { '/' } else { c });
        assert(cs@.take(i + 1).map_values(|c: char| if c == '\\' { '/' } else { c }) =~= cs@.take(
            i as int,
        ).map_values(|c: char| if c == '\\' { '/' } else { c }).push(if c == '\\' { '/' } else { c }));
        i += 1;
    }
    assert(cs@.take(cs.len() as int) =~= cs@);
    string_of(out.as_slice())
}

/// `s` with every leading `"# "` removed.
pub open spec fn strip_heading_marks(s: Seq<char>) -> Seq<char>
    decreases s.len(),
{
    if s.len() >= 2 && s[0] == '#' && s[1] == ' ' {
        strip_heading_marks(s.skip(2))
    } else {
        s
    }
}

/// The title given by the first line that starts (after trimming) with `"# "`.
pub open spec fn first_h1(ls: Seq<Seq<char>>) -> Option<Seq<char>>
    decreases ls.len(),
{
    if ls.len() == 0 {
        None
    } else if starts_with(trim(ls[0]), seq!['#', ' ']) {
        Some(strip_heading_marks(trim(ls[0])))
    } else {
        first_h1(ls.skip(1))
    }
}

/// The text `"Untitled"`.
pub open spec fn untitled() -> Seq<char> {
    seq!['U', 'n', 't', 'i', 't', 'l', 'e', 'd']
}

/// The title of a note: its first level-one heading, else the file stem
/// of its path, else `"Untitled"`.
pub fn extract_note_title(note_path: &str, content: &str) -> (r: String)
    ensures
        r@ == match first_h1(lines_of(content@)) {
            Some(t) => t,
            None => match file_stem_of(note_path@) {
                Some(s) => s,
                None => untitled(),
            },
        },
{
    let cs = chars_of(content);
    let ls = split_lines(cs.as_slice());
    let ghost all = views(ls@);
    let mark = vec!['#', ' '];
    assert(mark@ == seq!['#', ' ']);
    let mut i: usize = 0;
    assert(all.skip(0) =~= all);
    while i < ls.len()
        invariant
            0 <= i <= ls.len(),
            all == views(ls@),
            all == lines_of(content@),
            mark@ == seq!['#', ' '],
            first_h1(all) == first_h1(all.skip(i as int)),
        decreases ls.len() - i,
    {
        assert(all.skip(i as int)[0] == ls[i as int]@);
        assert(all.skip(i as int).skip(1) =~= all.skip(i + 1));
        let t = trim_chars(ls[i].as_slice());
        if starts_with_chars(t.as_slice(), mark.as_slice()) {
            let mut k: usize = 0;
            assert(t@.skip(0) =~= t@);
            while t.len() >= 2 && k < t.len() - 1 && t[k] == '#' && t[k + 1] == ' '
                invariant
                    0 <= k <= t.len(),
                    strip_heading_marks(t@) == strip_heading_marks(t@.skip(k as int)),
                decreases t.len() - k,
            {
                assert(t@.skip(k as int).skip(2) =~= t@.skip(k + 2));
                k += 2;
            }
            let rest = slice_chars(t.as_slice(), k, t.len());
            assert(rest@ =~= t@.skip(k as int));
            return string_of(rest.as_slice());
        }
        i += 1;
    }
    match path_file_stem(note_path) {
        Some(s) => s,
        None => {
            let u = vec!['U', 'n', 't', 'i', 't', 'l', 'e', 'd'];
            assert(u@ == untitled());
            string_of(u.as_slice())
        },
    }
}

} // verus!

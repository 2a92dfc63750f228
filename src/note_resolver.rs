//! Note references: telling a reference string's form apart, matching the
//! file names of a directory listing against it, and turning the matches
//! into exactly one of found / ambiguous / not found.
use vstd::prelude::*;
use crate::text::{
    strs,
    chars_of, contains_chars, contains_seq, find_char, slice_chars, starts_with, starts_with_chars, string_of,
    trim, trim_chars,
};
use crate::util::{lowercase_of, slug_of, slugify};

verus! {

pub open spec fn is_digit(c: char) -> bool {
    '0' <= c && c <= '9'
}

pub open spec fn all_digits(s: Seq<char>) -> bool {
    forall|i: int| 0 <= i < s.len() ==> is_digit(#[trigger] s[i])
}

pub open spec fn is_ascii_text(s: Seq<char>) -> bool {
    forall|i: int| 0 <= i < s.len() ==> (#[trigger] s[i] as u32) < 128
}

/// The number that a run of decimal digits denotes.
pub open spec fn digits_value(s: Seq<char>) -> nat
    decreases s.len(),
{
    if s.len() == 0 {
        0
    } else {
        digits_value(s.drop_last()) * 10 + (s.last() as u32 - '0' as u32) as nat
    }
}

/// A field read as an unsigned number (an optional `+`, then digits), or 0
/// when it is not one.
pub open spec fn number_or_zero(f: Seq<char>) -> nat {
    if f.len() > 0 && all_digits(f) {
        digits_value(f)
    } else if f.len() > 1 && f[0] == '+' && all_digits(f.skip(1)) {
        digits_value(f.skip(1))
    } else {
        0
    }
}

/// A plausible `YYYYMMDD` date: year 1900-2100, month 1-12, day 1-31.
pub open spec fn valid_date(s: Seq<char>) -> bool {
    &&& s.len() == 8
    &&& is_ascii_text(s)
    &&& 1900 <= number_or_zero(s.subrange(0, 4)) <= 2100
    &&& 1 <= number_or_zero(s.subrange(4, 6)) <= 12
    &&& 1 <= number_or_zero(s.subrange(6, 8)) <= 31
}

/// A plausible `HHmmSS` time: hour at most 23, minute and second at most 59
/// (a field that is no number counts as 0).
pub open spec fn valid_time(s: Seq<char>) -> bool {
    &&& s.len() == 6
    &&& is_ascii_text(s)
    &&& number_or_zero(s.subrange(0, 2)) <= 23
    &&& number_or_zero(s.subrange(2, 4)) <= 59
    &&& number_or_zero(s.subrange(4, 6)) <= 59
}

/// The date and time of a full `YYYYMMDDHHmmSS` timestamp (at least 14
/// characters, all digits; the first 14 are read).
pub open spec fn full_timestamp(s: Seq<char>) -> Option<(Seq<char>, Seq<char>)> {
    if s.len() >= 14 && all_digits(s) && valid_date(s.take(8)) && valid_time(s.subrange(8, 14)) {
        Some((s.take(8), s.subrange(8, 14)))
    } else {
        None
    }
}

/// The leading run of ASCII digits.
pub open spec fn leading_digits(s: Seq<char>) -> Seq<char>
    decreases s.len(),
{
    if s.len() > 0 && is_digit(s[0]) {
        seq![s[0]] + leading_digits(s.skip(1))
    } else {
        Seq::empty()
    }
}

/// The `HH[mm[ss]]` prefix: a leading digit run of one to six digits.
pub open spec fn time_prefix(s: Seq<char>) -> Option<Seq<char>> {
    let d = leading_digits(s);
    if d.len() > 0 && d.len() <= 6 {
        Some(d)
    } else {
        None
    }
}

pub open spec fn pow10(k: nat) -> nat
    decreases k,
{
    if k == 0 {
        1
    } else {
        10 * pow10((k - 1) as nat)
    }
}

proof fn lemma_leading_digits(s: Seq<char>)
    ensures
        leading_digits(s).len() <= s.len(),
        leading_digits(s) == s.take(leading_digits(s).len() as int),
        all_digits(leading_digits(s)),
        leading_digits(s).len() < s.len() ==> !is_digit(s[leading_digits(s).len() as int]),
    decreases s.len(),
{
    if s.len() > 0 && is_digit(s[0]) {
        lemma_leading_digits(s.skip(1));
        let d = leading_digits(s.skip(1));
        assert(leading_digits(s) =~= s.take(d.len() as int + 1));
        assert forall|i: int| 0 <= i < leading_digits(s).len() implies is_digit(
            #[trigger] leading_digits(s)[i],
        ) by {
            if i > 0 {
                assert(leading_digits(s)[i] == d[i - 1]);
            }
        }
    } else {
        assert(s.take(0) =~= Seq::<char>::empty());
    }
}

/// Length of the leading digit run.
fn leading_digits_len(s: &[char]) -> (r: usize)
    ensures
        r as nat == leading_digits(s@).len(),
        r <= s@.len(),
{
    let mut i: usize = 0;
    assert(s@.skip(0) =~= s@);
    while i < s.len() && '0' <= s[i] && s[i] <= '9'
        invariant
            0 <= i <= s.len(),
            leading_digits(s@).len() == i + leading_digits(s@.skip(i as int)).len(),
        decreases s.len() - i,
    {
        assert(s@.skip(i as int).skip(1) =~= s@.skip(i + 1));
        i += 1;
    }
    i
}

fn all_digit_chars(s: &[char]) -> (r: bool)
    ensures
        r == all_digits(s@),
{
    let mut i: usize = 0;
    while i < s.len()
        invariant
            0 <= i <= s.len(),
            forall|j: int| 0 <= j < i ==> is_digit(#[trigger] s@[j]),
        decreases s.len() - i,
    {
        if !('0' <= s[i] && s[i] <= '9') {
            return false;
        }
        i += 1;
    }
    true
}

fn all_ascii_chars(s: &[char]) -> (r: bool)
    ensures
        r == is_ascii_text(s@),
{
    let mut i: usize = 0;
    while i < s.len()
        invariant
            0 <= i <= s.len(),
            forall|j: int| 0 <= j < i ==> (#[trigger] s@[j] as u32) < 128,
        decreases s.len() - i,
    {
        if (s[i] as u32) >= 128 {
            return false;
        }
        i += 1;
    }
    true
}

/// The value of the digits `s[lo..hi]` (at most four of them).
fn digits_value_of(s: &[char], lo: usize, hi: usize) -> (r: u32)
    requires
        lo <= hi <= s@.len(),
        hi - lo <= 4,
        all_digits(s@.subrange(lo as int, hi as int)),
    ensures
        r as nat == digits_value(s@.subrange(lo as int, hi as int)),
{
    let mut v: u32 = 0;
    let mut k: usize = lo;
    reveal_with_fuel(pow10, 5);
    assert(s@.subrange(lo as int, lo as int) =~= Seq::<char>::empty());
    while k < hi
        invariant
            lo <= k <= hi,
            hi <= s@.len(),
            hi - lo <= 4,
            all_digits(s@.subrange(lo as int, hi as int)),
            v as nat == digits_value(s@.subrange(lo as int, k as int)),
            v < pow10((k - lo) as nat),
            pow10((k - lo) as nat) == (if k - lo == 0 {
                1nat
            } else if k - lo == 1 {
                10
            } else if k - lo == 2 {
                100
            } else if k - lo == 3 {
                1000
            } else {
                10000
            }),
        decreases hi - k,
    {
        reveal_with_fuel(pow10, 5);
        assert(s@.subrange(lo as int, k + 1).drop_last() =~= s@.subrange(lo as int, k as int));
        assert(s@.subrange(lo as int, hi as int)[k - lo] == s@[k as int]);
        let d = (s[k] as u32) - ('0' as u32);
        assert(pow10((k + 1 - lo) as nat) == 10 * pow10((k - lo) as nat));
        v = v * 10 + d;
        k += 1;
    }
    v
}

/// `s[lo..hi]` read as a number, 0 when it is not one.
fn field_value(s: &[char], lo: usize, hi: usize) -> (r: u32)
    requires
        lo <= hi <= s@.len(),
        hi - lo <= 4,
    ensures
        r as nat == number_or_zero(s@.subrange(lo as int, hi as int)),
{
    let f = slice_chars(s, lo, hi);
    assert(f@.subrange(0, f@.len() as int) =~= f@);
    if f.len() > 0 && all_digit_chars(f.as_slice()) {
        return digits_value_of(f.as_slice(), 0, f.len());
    }
    if f.len() > 1 && f[0] == '+' {
        let g = slice_chars(f.as_slice(), 1, f.len());
        assert(g@ == f@.skip(1));
        if all_digit_chars(g.as_slice()) {
            assert(g@.subrange(0, g@.len() as int) =~= g@);
            return digits_value_of(g.as_slice(), 0, g.len());
        }
    }
    assert(f@.subrange(0, f@.len() as int) =~= f@);
    0
}

fn valid_date_chars(s: &[char]) -> (r: bool)
    ensures
        r == valid_date(s@),
{
    if s.len() != 8 || !all_ascii_chars(s) {
        return false;
    }
    let year = field_value(s, 0, 4);
    let month = field_value(s, 4, 6);
    let day = field_value(s, 6, 8);
    year >= 1900 && year <= 2100 && month >= 1 && month <= 12 && day >= 1 && day <= 31
}

fn valid_time_chars(s: &[char]) -> (r: bool)
    ensures
        r == valid_time(s@),
{
    if s.len() != 6 || !all_ascii_chars(s) {
        return false;
    }
    let hour = field_value(s, 0, 2);
    let minute = field_value(s, 2, 4);
    let second = field_value(s, 4, 6);
    hour <= 23 && minute <= 59 && second <= 59
}

/// Whether `s` is a plausible `YYYYMMDD` date.
pub fn validate_date(s: &str) -> (r: bool)
    ensures
        r == valid_date(s@),
{
    let cs = chars_of(s);
    valid_date_chars(cs.as_slice())
}

/// Whether `s` is a plausible `HHmmSS` time.
pub fn validate_time(s: &str) -> (r: bool)
    ensures
        r == valid_time(s@),
{
    let cs = chars_of(s);
    valid_time_chars(cs.as_slice())
}

/// `s` itself when it is a plausible `HHmmSS` time.
pub fn parse_time_only(s: &str) -> (r: Option<String>)
    ensures
        valid_time(s@) ==> (r matches Some(t) && t@ == s@),
        !valid_time(s@) ==> r is None,
{
    if validate_time(s) {
        Some(s.to_owned())
    } else {
        None
    }
}

fn full_timestamp_chars(s: &[char]) -> (r: Option<(Vec<char>, Vec<char>)>)
    ensures
        match full_timestamp(s@) {
            Some((d, t)) => r matches Some((d2, t2)) && d2@ == d && t2@ == t,
            None => r is None,
        },
{
    if s.len() < 14 || !all_digit_chars(s) {
        return None;
    }
    let date = slice_chars(s, 0, 8);
    let time = slice_chars(s, 8, 14);
    assert(date@ == s@.take(8));
    if valid_date_chars(date.as_slice()) && valid_time_chars(time.as_slice()) {
        Some((date, time))
    } else {
        None
    }
}

/// The date and time of a full `YYYYMMDDHHmmSS` timestamp.
pub fn parse_full_timestamp(s: &str) -> (r: Option<(String, String)>)
    ensures
        match full_timestamp(s@) {
            Some((d, t)) => r matches Some((d2, t2)) && d2@ == d && t2@ == t,
            None => r is None,
        },
{
    let cs = chars_of(s);
    match full_timestamp_chars(cs.as_slice()) {
        Some((d, t)) => Some((string_of(d.as_slice()), string_of(t.as_slice()))),
        None => None,
    }
}

/// The leading `HH[mm[ss]]` digits of `s`, when there are one to six.
pub fn extract_time_prefix(s: &str) -> (r: Option<String>)
    ensures
        match time_prefix(s@) {
            Some(d) => r matches Some(t) && t@ == d,
            None => r is None,
        },
{
    let cs = chars_of(s);
    let n = leading_digits_len(cs.as_slice());
    if n > 0 && n <= 6 {
        proof {
            lemma_leading_digits(s@);
        }
        let d = slice_chars(cs.as_slice(), 0, n);
        assert(d@ =~= leading_digits(s@));
        Some(string_of(d.as_slice()))
    } else {
        None
    }
}

/// Whether `s` ends with `e`.
pub open spec fn ends_with(s: Seq<char>, e: Seq<char>) -> bool {
    e.len() <= s.len() && s.skip(s.len() - e.len()) == e
}

/// Whether a file stem in a daily directory matches `prefix`: a time
/// prefix followed by more digits, a dash or nothing; a `HHmmSS-title`
/// prefix matching both parts; a title prefix followed by a dash or nothing;
/// or a title prefix of the part after the stem's leading `digits-`.
pub open spec fn stem_matches(stem: Seq<char>, prefix: Seq<char>) -> bool {
    let rest = stem.skip(prefix.len() as int);
    let dp = leading_digits(prefix);
    let direct = starts_with(stem, prefix) && if all_digits(prefix) {
        rest.len() == 0 || rest[0] == '-' || is_digit(rest[0])
    } else if dp.len() > 0 {
        let after = stem.skip(dp.len() as int);
        let tp = prefix.skip(dp.len() as int);
        after.len() > 0 && after[0] == '-' && tp.len() > 0 && tp[0] == '-' && starts_with(
            after.skip(1),
            tp.skip(1),
        )
    } else {
        rest.len() == 0 || rest[0] == '-'
    };
    let ds = leading_digits(stem);
    let after_time = ds.len() > 0 && stem.len() > ds.len() && stem[ds.len() as int] == '-'
        && starts_with(stem.skip(ds.len() as int + 1), prefix);
    direct || after_time
}

/// Whether a file name of a daily directory is a candidate for `prefix`:
/// for some extension it ends with, its stem matches.
pub open spec fn date_dir_match(name: Seq<char>, prefix: Seq<char>, exts: Seq<Seq<char>>) -> bool {
    exists|i: int|
        0 <= i < exts.len() && ends_with(name, #[trigger] exts[i]) && stem_matches(
            name.take(name.len() - exts[i].len()),
            prefix,
        )
}

/// Whether a file name has one of the extensions.
pub open spec fn has_extension(name: Seq<char>, exts: Seq<Seq<char>>) -> bool {
    exists|i: int| 0 <= i < exts.len() && ends_with(name, #[trigger] exts[i])
}

/// Whether a file name starts with six digits and is longer than that
/// (the `HHmmSS[-title]` form of daily notes).
pub open spec fn has_time_form(name: Seq<char>) -> bool {
    name.len() >= 7 && all_digits(name.take(6))
}

/// The part of a `HHmmSS[-title]` name after the time and its dash.
pub open spec fn after_time(name: Seq<char>) -> Seq<char> {
    if name[6] == '-' {
        name.skip(7)
    } else {
        name.skip(6)
    }
}

/// Whether a file name is a candidate for a prefix search; with
/// `allow_time`, a name of the `HHmmSS[-title]` form whose title part
/// starts with the prefix is taken on its extension alone.
pub open spec fn prefix_match(
    name: Seq<char>,
    prefix: Seq<char>,
    exts: Seq<Seq<char>>,
    allow_time: bool,
) -> bool {
    if allow_time && has_time_form(name) && starts_with(after_time(name), prefix) {
        has_extension(name, exts)
    } else {
        starts_with(name, prefix) && has_extension(name, exts)
    }
}

/// What a resolution comes to.
pub enum Resolution {
    Found(Seq<char>),
    Ambiguous(Seq<Seq<char>>),
    NotFound,
}

/// The outcome of a search stage with the given matches: the one match,
/// all of them when there are several, or none.
pub open spec fn outcome(c: Seq<Seq<char>>) -> Resolution {
    if c.len() == 0 {
        Resolution::NotFound
    } else if c.len() == 1 {
        Resolution::Found(c[0])
    } else {
        Resolution::Ambiguous(c)
    }
}

/// The result of resolving a note reference.
#[derive(Debug, Clone)]
pub enum ResolvedNote {
    /// Exactly one match.
    Found(String),
    /// Two or more matches, in listing order.
    Ambiguous(Vec<String>),
    /// No match.
    NotFound,
}

impl ResolvedNote {
    pub open spec fn view(&self) -> Resolution {
        match self {
            ResolvedNote::Found(s) => Resolution::Found(s@),
            ResolvedNote::Ambiguous(v) => Resolution::Ambiguous(strs(v@)),
            ResolvedNote::NotFound => Resolution::NotFound,
        }
    }

    /// Whether nothing matched.
    pub fn is_not_found(&self) -> (r: bool)
        ensures
            r == (self.view() is NotFound),
    {
        match self {
            ResolvedNote::NotFound => true,
            _ => false,
        }
    }
}

/// The resolution that a list of matches comes to.
pub fn resolved_from(candidates: Vec<String>) -> (r: ResolvedNote)
    ensures
        r.view() == outcome(strs(candidates@)),
{
    let n = candidates.len();
    if n == 0 {
        ResolvedNote::NotFound
    } else if n == 1 {
        let mut c = candidates;
        let s = c.pop().unwrap();
        ResolvedNote::Found(s)
    } else {
        assert(strs(candidates@).len() == n);
        ResolvedNote::Ambiguous(candidates)
    }
}

fn ends_with_chars(s: &[char], e: &[char]) -> (r: bool)
    ensures
        r == ends_with(s@, e@),
{
    if e.len() > s.len() {
        return false;
    }
    let r = crate::text::matches_at(s, e, s.len() - e.len());
    assert(s@.subrange(s.len() - e.len(), s@.len() as int) =~= s@.skip(s.len() - e.len()));
    r
}

fn stem_matches_chars(stem: &[char], prefix: &[char]) -> (r: bool)
    ensures
        r == stem_matches(stem@, prefix@),
{
    proof {
        lemma_leading_digits(prefix@);
        lemma_leading_digits(stem@);
    }
    let mut direct = false;
    if starts_with_chars(stem, prefix) {
        let rest = slice_chars(stem, prefix.len(), stem.len());
        assert(rest@ =~= stem@.skip(prefix@.len() as int));
        let dn = leading_digits_len(prefix);
        if all_digit_chars(prefix) {
            direct = rest.len() == 0 || rest[0] == '-' || ('0' <= rest[0] && rest[0] <= '9');
        } else if dn > 0 {
            let after = slice_chars(stem, dn, stem.len());
            let tp = slice_chars(prefix, dn, prefix.len());
            assert(after@ =~= stem@.skip(dn as int));
            assert(tp@ =~= prefix@.skip(dn as int));
            if after.len() > 0 && after[0] == '-' && tp.len() > 0 && tp[0] == '-' {
                let a1 = slice_chars(after.as_slice(), 1, after.len());
                let t1 = slice_chars(tp.as_slice(), 1, tp.len());
                assert(a1@ =~= after@.skip(1));
                assert(t1@ =~= tp@.skip(1));
                direct = starts_with_chars(a1.as_slice(), t1.as_slice());
            }
        } else {
            direct = rest.len() == 0 || rest[0] == '-';
        }
    }
    if direct {
        return true;
    }
    let sn = leading_digits_len(stem);
    if sn > 0 && stem.len() > sn && stem[sn] == '-' {
        let title = slice_chars(stem, sn + 1, stem.len());
        assert(title@ =~= stem@.skip(sn + 1));
        starts_with_chars(title.as_slice(), prefix)
    } else {
        false
    }
}

/// The characters of each string.
fn chars_of_all(v: &Vec<String>) -> (r: Vec<Vec<char>>)
    ensures
        crate::text::views(r@) == strs(v@),
{
    let mut out: Vec<Vec<char>> = Vec::new();
    let mut i: usize = 0;
    while i < v.len()
        invariant
            0 <= i <= v.len(),
            crate::text::views(out@) == strs(v@).take(i as int),
        decreases v.len() - i,
    {
        let ghost o0 = out@;
        let cs = chars_of(v[i].as_str());
        out.push(cs);
        assert(crate::text::views(out@) =~= crate::text::views(o0).push(v@[i as int]@));
        assert(strs(v@).take(i + 1) =~= strs(v@).take(i as int).push(v@[i as int]@));
        i += 1;
    }
    assert(strs(v@).take(v.len() as int) =~= strs(v@));
    out
}

fn date_dir_match_chars(name: &[char], prefix: &[char], exts: &Vec<Vec<char>>) -> (r: bool)
    ensures
        r == date_dir_match(name@, prefix@, crate::text::views(exts@)),
{
    let ghost es = crate::text::views(exts@);
    let mut i: usize = 0;
    while i < exts.len()
        invariant
            0 <= i <= exts.len(),
            es == crate::text::views(exts@),
            forall|j: int|
                0 <= j < i ==> !(ends_with(name@, #[trigger] es[j]) && stem_matches(
                    name@.take(name@.len() - es[j].len()),
                    prefix@,
                )),
        decreases exts.len() - i,
    {
        assert(es[i as int] == exts[i as int]@);
        if ends_with_chars(name, exts[i].as_slice()) {
            let stem = slice_chars(name, 0, name.len() - exts[i].len());
            assert(stem@ =~= name@.take(name@.len() - es[i as int].len()));
            if stem_matches_chars(stem.as_slice(), prefix) {
                return true;
            }
        }
        i += 1;
    }
    false
}

fn has_extension_chars(name: &[char], exts: &Vec<Vec<char>>) -> (r: bool)
    ensures
        r == has_extension(name@, crate::text::views(exts@)),
{
    let ghost es = crate::text::views(exts@);
    let mut i: usize = 0;
    while i < exts.len()
        invariant
            0 <= i <= exts.len(),
            es == crate::text::views(exts@),
            forall|j: int| 0 <= j < i ==> !ends_with(name@, #[trigger] es[j]),
        decreases exts.len() - i,
    {
        assert(es[i as int] == exts[i as int]@);
        if ends_with_chars(name, exts[i].as_slice()) {
            return true;
        }
        i += 1;
    }
    false
}

fn prefix_match_chars(name: &[char], prefix: &[char], exts: &Vec<Vec<char>>, allow_time: bool) -> (r:
    bool)
    ensures
        r == prefix_match(name@, prefix@, crate::text::views(exts@), allow_time),
{
    if allow_time && name.len() >= 7 {
        let head = slice_chars(name, 0, 6);
        assert(head@ =~= name@.take(6));
        if all_digit_chars(head.as_slice()) {
            let start: usize = if name[6] == '-' { 7 } else { 6 };
            let rest = slice_chars(name, start, name.len());
            assert(rest@ =~= after_time(name@));
            if starts_with_chars(rest.as_slice(), prefix) {
                return has_extension_chars(name, exts);
            }
        }
    }
    starts_with_chars(name, prefix) && has_extension_chars(name, exts)
}

/// The names of a daily directory that match `prefix`, in listing order.
pub open spec fn date_dir_matches(names: Seq<Seq<char>>, prefix: Seq<char>, exts: Seq<Seq<char>>) -> Seq<
    Seq<char>,
> {
    names.filter(|n: Seq<char>| date_dir_match(n, prefix, exts))
}

/// The names that a prefix search selects, in order.
pub open spec fn prefix_matches(
    names: Seq<Seq<char>>,
    prefix: Seq<char>,
    exts: Seq<Seq<char>>,
    allow_time: bool,
) -> Seq<Seq<char>> {
    names.filter(|n: Seq<char>| prefix_match(n, prefix, exts, allow_time))
}

/// Resolves `prefix` among the file names of a daily directory, given in
/// listing order.
pub fn resolve_in_date_dir(names: &Vec<String>, prefix: &str, extensions: &Vec<String>) -> (r:
    ResolvedNote)
    ensures
        r.view() == outcome(date_dir_matches(strs(names@), prefix@, strs(extensions@))),
{
    let ns = chars_of_all(names);
    let es = chars_of_all(extensions);
    let p = chars_of(prefix);
    let ghost all = strs(names@);
    let ghost pred = |n: Seq<char>| date_dir_match(n, prefix@, strs(extensions@));
    let mut out: Vec<String> = Vec::new();
    let mut i: usize = 0;
    assert(all.take(0) =~= Seq::<Seq<char>>::empty());
    while i < ns.len()
        invariant
            0 <= i <= ns.len(),
            ns.len() == names.len(),
            all == strs(names@),
            all == crate::text::views(ns@),
            crate::text::views(es@) == strs(extensions@),
            p@ == prefix@,
            pred == (|n: Seq<char>| date_dir_match(n, prefix@, strs(extensions@))),
            strs(out@) == all.take(i as int).filter(pred),
        decreases ns.len() - i,
    {
        let keep = date_dir_match_chars(ns[i].as_slice(), p.as_slice(), &es);
        proof {
            let t1 = all.take(i + 1);
            reveal(Seq::filter);
            assert(t1.drop_last() =~= all.take(i as int));
            assert(t1.last() == ns[i as int]@);
            assert(pred(t1.last()) == keep);
        }
        if keep {
            let ghost o0 = out@;
            let s = string_of(ns[i].as_slice());
            out.push(s);
            assert(strs(out@) =~= strs(o0).push(ns[i as int]@));
        }
        i += 1;
    }
    assert(all.take(ns.len() as int) =~= all);
    resolved_from(out)
}

/// Resolves `prefix` among the file names of a directory, given in listing
/// order; with `allow_time`, names of the `HHmmSS[-title]` form match on
/// their title part too.
pub fn find_by_prefix(names: &Vec<String>, prefix: &str, extensions: &Vec<String>, allow_time: bool) -> (r:
    ResolvedNote)
    ensures
        r.view() == outcome(prefix_matches(strs(names@), prefix@, strs(extensions@), allow_time)),
{
    let ns = chars_of_all(names);
    let es = chars_of_all(extensions);
    let p = chars_of(prefix);
    let ghost all = strs(names@);
    let ghost pred = |n: Seq<char>| prefix_match(n, prefix@, strs(extensions@), allow_time);
    let mut out: Vec<String> = Vec::new();
    let mut i: usize = 0;
    assert(all.take(0) =~= Seq::<Seq<char>>::empty());
    while i < ns.len()
        invariant
            0 <= i <= ns.len(),
            ns.len() == names.len(),
            all == strs(names@),
            all == crate::text::views(ns@),
            crate::text::views(es@) == strs(extensions@),
            p@ == prefix@,
            pred == (|n: Seq<char>| prefix_match(n, prefix@, strs(extensions@), allow_time)),
            strs(out@) == all.take(i as int).filter(pred),
        decreases ns.len() - i,
    {
        let keep = prefix_match_chars(ns[i].as_slice(), p.as_slice(), &es, allow_time);
        proof {
            let t1 = all.take(i + 1);
            reveal(Seq::filter);
            assert(t1.drop_last() =~= all.take(i as int));
            assert(t1.last() == ns[i as int]@);
            assert(pred(t1.last()) == keep);
        }
        if keep {
            let ghost o0 = out@;
            let s = string_of(ns[i].as_slice());
            out.push(s);
            assert(strs(out@) =~= strs(o0).push(ns[i as int]@));
        }
        i += 1;
    }
    assert(all.take(ns.len() as int) =~= all);
    resolved_from(out)
}

/// Two or more matches in a search stage are all reported, in listing
/// order, as an ambiguity; no single match is picked.
pub proof fn lemma_ambiguity_reports_all(
    names: Seq<Seq<char>>,
    prefix: Seq<char>,
    exts: Seq<Seq<char>>,
    allow_time: bool,
)
    ensures
        date_dir_matches(names, prefix, exts).len() >= 2 ==> outcome(
            date_dir_matches(names, prefix, exts),
        ) == Resolution::Ambiguous(date_dir_matches(names, prefix, exts)),
        prefix_matches(names, prefix, exts, allow_time).len() >= 2 ==> outcome(
            prefix_matches(names, prefix, exts, allow_time),
        ) == Resolution::Ambiguous(prefix_matches(names, prefix, exts, allow_time)),
        forall|i: int|
            0 <= i < names.len() && date_dir_match(#[trigger] names[i], prefix, exts)
                ==> date_dir_matches(names, prefix, exts).contains(names[i]),
        forall|i: int|
            0 <= i < names.len() && prefix_match(#[trigger] names[i], prefix, exts, allow_time)
                ==> prefix_matches(names, prefix, exts, allow_time).contains(names[i]),
{
    assert forall|i: int|
        0 <= i < names.len() && date_dir_match(#[trigger] names[i], prefix, exts)
            implies date_dir_matches(names, prefix, exts).contains(names[i]) by {
        names.lemma_filter_contains(|n: Seq<char>| date_dir_match(n, prefix, exts), i);
    }
    assert forall|i: int|
        0 <= i < names.len() && prefix_match(#[trigger] names[i], prefix, exts, allow_time)
            implies prefix_matches(names, prefix, exts, allow_time).contains(names[i]) by {
        names.lemma_filter_contains(|n: Seq<char>| prefix_match(n, prefix, exts, allow_time), i);
    }
}

/// A reference with surrounding whitespace removed and backslashes turned
/// into slashes.
pub open spec fn normalized_ref(r: Seq<char>) -> Seq<char> {
    trim(r).map_values(|c: char| if c == '\\' { '/' } else { c })
}

/// The date part of a `DATE/PREFIX` reference, when it is one.
pub open spec fn path_form(r: Seq<char>) -> Option<(Seq<char>, Seq<char>)> {
    match find_char(r, '/') {
        Some(k) => {
            let date = trim(r.take(k as int));
            if date.len() == 8 && all_digits(date) && valid_date(date) {
                Some((date, trim(r.skip(k as int + 1))))
            } else {
                None
            }
        },
        None => None,
    }
}

/// Where a reference is to be looked for.
pub enum SearchView {
    InDateDir(Seq<char>, Seq<char>),
    ByTitle(Seq<char>),
}

/// The search that a reference asks for, `today` being the current
/// `YYYYMMDD` date: a `DATE/PREFIX` path, a full timestamp, a time prefix
/// (in today's directory), else a title slug.
pub open spec fn search_of(reference: Seq<char>, today: Seq<char>) -> SearchView {
    let r = normalized_ref(reference);
    match path_form(r) {
        Some((date, rest)) => SearchView::InDateDir(date, slug_of(lowercase_of(rest))),
        None => match full_timestamp(r) {
            Some((d, t)) => SearchView::InDateDir(d, t),
            None => match time_prefix(r) {
                Some(p) => SearchView::InDateDir(today, p),
                None => SearchView::ByTitle(slug_of(lowercase_of(r))),
            },
        },
    }
}

/// Where to look for a note.
#[derive(Debug, Clone)]
pub enum NoteSearch {
    /// Among the files of the daily directory of `date`, by `prefix`.
    InDateDir { date: String, prefix: String },
    /// By title slug: today's daily directory, then the notes directory,
    /// then the index files.
    ByTitle { slug: String },
}

impl NoteSearch {
    pub open spec fn view(&self) -> SearchView {
        match self {
            NoteSearch::InDateDir { date, prefix } => SearchView::InDateDir(date@, prefix@),
            NoteSearch::ByTitle { slug } => SearchView::ByTitle(slug@),
        }
    }
}

/// Decides how a note reference is to be resolved; the first rule whose
/// form matches wins.
pub fn plan_resolution(reference: &str, today: &str) -> (r: NoteSearch)
    ensures
        r.view() == search_of(reference@, today@),
{
    let raw = chars_of(reference);
    let tr = trim_chars(raw.as_slice());
    let mut rv: Vec<char> = Vec::new();
    let mut i: usize = 0;
    while i < tr.len()
        invariant
            0 <= i <= tr.len(),
            tr@ == trim(reference@),
            rv@ == tr@.take(i as int).map_values(|c: char| if c == '\\' { '/' } else { c }),
        decreases tr.len() - i,
    {
        let c = tr[i];
        rv.push(if c == '\\' { '/' } else { c });
        assert(tr@.take(i + 1).map_values(|c: char| if c == '\\' { '/' } else { c }) =~= tr@.take(
            i as int,
        ).map_values(|c: char| if c == '\\' { '/' } else { c }).push(if c == '\\' { '/' } else { c }));
        i += 1;
    }
    assert(tr@.take(tr.len() as int) =~= tr@);
    let ghost r = rv@;
    assert(r == normalized_ref(reference@));
    match crate::text::find_char_index(rv.as_slice(), '/') {
        Some(k) => {
            let head = slice_chars(rv.as_slice(), 0, k);
            assert(head@ =~= r.take(k as int));
            let date = trim_chars(head.as_slice());
            if date.len() == 8 && all_digit_chars(date.as_slice()) && valid_date_chars(date.as_slice()) {
                let tail = slice_chars(rv.as_slice(), k + 1, rv.len());
                assert(tail@ =~= r.skip(k as int + 1));
                let rest = trim_chars(tail.as_slice());
                let rest_s = string_of(rest.as_slice());
                return NoteSearch::InDateDir {
                    date: string_of(date.as_slice()),
                    prefix: slugify(rest_s.as_str()),
                };
            }
        },
        None => {},
    }
    match full_timestamp_chars(rv.as_slice()) {
        Some((d, t)) => {
            return NoteSearch::InDateDir { date: string_of(d.as_slice()), prefix: string_of(t.as_slice()) };
        },
        None => {},
    }
    let n = leading_digits_len(rv.as_slice());
    if n > 0 && n <= 6 {
        proof {
            lemma_leading_digits(r);
        }
        let d = slice_chars(rv.as_slice(), 0, n);
        assert(d@ =~= leading_digits(r));
        return NoteSearch::InDateDir { date: today.to_owned(), prefix: string_of(d.as_slice()) };
    }
    let whole = string_of(rv.as_slice());
    NoteSearch::ByTitle { slug: slugify(whole.as_str()) }
}

/// The target of the first markdown link `[text](target)` of an index line,
/// when the slug occurs in the text before it or in the target.
pub open spec fn index_line_target(line: Seq<char>, slug: Seq<char>) -> Option<Seq<char>> {
    match crate::text::first_occurrence(line, seq![']', '(']) {
        Some(st) => match find_char(line.skip(st as int), ')') {
            Some(e) => {
                let target = line.subrange(st as int + 2, st as int + e as int);
                if e >= 2 && (contains_seq(line.take(st as int), slug) || contains_seq(target, slug)) {
                    Some(target)
                } else {
                    None
                }
            },
            None => None,
        },
        None => None,
    }
}

/// The link targets of the index lines that mention the slug, in order.
pub open spec fn index_targets(ls: Seq<Seq<char>>, slug: Seq<char>) -> Seq<Seq<char>>
    decreases ls.len(),
{
    if ls.len() == 0 {
        Seq::empty()
    } else {
        let r = index_targets(ls.drop_last(), slug);
        match index_line_target(ls.last(), slug) {
            Some(t) => r.push(t),
            None => r,
        }
    }
}

fn index_line_target_chars(line: &[char], slug: &[char]) -> (r: Option<Vec<char>>)
    ensures
        match index_line_target(line@, slug@) {
            Some(t) => r matches Some(t2) && t2@ == t,
            None => r is None,
        },
{
    let open = vec![']', '('];
    assert(open@ == seq![']', '(']);
    match crate::text::first_occurrence_index(line, open.as_slice()) {
        Some(st) => {
            let tail = slice_chars(line, st, line.len());
            assert(tail@ =~= line@.skip(st as int));
            match crate::text::find_char_index(tail.as_slice(), ')') {
                Some(e) => {
                    if e < 2 {
                        return None;
                    }
                    let target = slice_chars(line, st + 2, st + e);
                    let before = slice_chars(line, 0, st);
                    assert(before@ =~= line@.take(st as int));
                    if contains_chars(before.as_slice(), slug) || contains_chars(target.as_slice(), slug) {
                        Some(target)
                    } else {
                        None
                    }
                },
                None => None,
            }
        },
        None => None,
    }
}

/// The link targets of the lines of an index file whose link text or
/// target mentions the slug, in order; each is relative to the index
/// file's directory.
pub fn index_link_targets(content: &str, slug: &str) -> (r: Vec<String>)
    ensures
        strs(r@) == index_targets(crate::text::lines_of(content@), slug@),
{
    let cs = chars_of(content);
    let sl = chars_of(slug);
    let ls = crate::text::split_lines(cs.as_slice());
    let ghost all = crate::text::views(ls@);
    let mut out: Vec<String> = Vec::new();
    let mut i: usize = 0;
    assert(all.take(0) =~= Seq::<Seq<char>>::empty());
    while i < ls.len()
        invariant
            0 <= i <= ls.len(),
            all == crate::text::views(ls@),
            all == crate::text::lines_of(content@),
            sl@ == slug@,
            strs(out@) == index_targets(all.take(i as int), slug@),
        decreases ls.len() - i,
    {
        proof {
            assert(all.take(i + 1).drop_last() =~= all.take(i as int));
            assert(all.take(i + 1).last() == ls[i as int]@);
        }
        match index_line_target_chars(ls[i].as_slice(), sl.as_slice()) {
            Some(t) => {
                let ghost o0 = out@;
                let s = string_of(t.as_slice());
                out.push(s);
                assert(strs(out@) =~= strs(o0).push(t@));
            },
            None => {},
        }
        i += 1;
    }
    assert(all.take(ls.len() as int) =~= all);
    out
}

} // verus!

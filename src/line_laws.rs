//! Facts about the line model: splitting a joined text gives the lines
//! back, and joining the lines of a text gives the text back.
use vstd::prelude::*;
use crate::text::{join_lines, lines_of, newline_suffix, raw_segments, strip_cr};

verus! {

/// Whether `s` holds the character `c`.
pub open spec fn has_char(s: Seq<char>, c: char) -> bool {
    exists|i: int| 0 <= i < s.len() && s[i] == c
}

/// Whether no line holds a line-ending character.
pub open spec fn plain_lines(ls: Seq<Seq<char>>) -> bool {
    forall|k: int| 0 <= k < ls.len() ==> !has_char(#[trigger] ls[k], '\n') && !has_char(ls[k], '\r')
}

proof fn lemma_raw_single(b: Seq<char>)
    requires
        !has_char(b, '\n'),
    ensures
        raw_segments(b) == seq![b],
    decreases b.len(),
{
    if b.len() > 0 {
        let d = b.drop_last();
        assert(!has_char(d, '\n')) by {
            if has_char(d, '\n') {
                let i = choose|i: int| 0 <= i < d.len() && d[i] == '\n';
                assert(b[i] == '\n');
            }
        }
        lemma_raw_single(d);
        assert(b.last() != '\n') by {
            if b.last() == '\n' {
                assert(b[b.len() - 1] == '\n');
            }
        }
        assert(d.push(b.last()) =~= b);
        assert(seq![d].update(0, d.push(b.last())) =~= seq![b]);
    } else {
        assert(b =~= Seq::<char>::empty());
    }
}

proof fn lemma_raw_concat(a: Seq<char>, b: Seq<char>)
    ensures
        raw_segments(a + seq!['\n'] + b) == raw_segments(a) + raw_segments(b),
    decreases b.len(),
{
    crate::text::lemma_raw_segments_nonempty(a);
    if b.len() == 0 {
        assert(a + seq!['\n'] + b =~= a + seq!['\n']);
        assert((a + seq!['\n']).drop_last() =~= a);
        assert(raw_segments(a) + seq![Seq::<char>::empty()] =~= raw_segments(a).push(Seq::<char>::empty()));
    } else {
        let s = a + seq!['\n'] + b;
        assert(s.drop_last() =~= a + seq!['\n'] + b.drop_last());
        assert(s.last() == b.last());
        lemma_raw_concat(a, b.drop_last());
        crate::text::lemma_raw_segments_nonempty(b.drop_last());
        let x = raw_segments(a);
        let y = raw_segments(b.drop_last());
        if b.last() == '\n' {
            assert((x + y).push(Seq::<char>::empty()) =~= x + y.push(Seq::<char>::empty()));
        } else {
            assert((x + y).update((x + y).len() - 1, (x + y).last().push(b.last())) =~= x + y.update(
                y.len() - 1,
                y.last().push(b.last()),
            ));
        }
    }
}

proof fn lemma_join_last(ls: Seq<Seq<char>>)
    requires
        ls.len() > 0,
        ls.last().len() > 0,
    ensures
        join_lines(ls).len() > 0,
        join_lines(ls).last() == ls.last().last(),
{
}

proof fn lemma_raw_of_join(ls: Seq<Seq<char>>)
    requires
        ls.len() > 0,
        plain_lines(ls),
    ensures
        raw_segments(join_lines(ls)) == ls,
    decreases ls.len(),
{
    if ls.len() == 1 {
        assert(!has_char(ls[0], '\n'));
        lemma_raw_single(ls[0]);
        assert(seq![ls[0]] =~= ls);
    } else {
        let d = ls.drop_last();
        assert(plain_lines(d)) by {
            assert forall|k: int| 0 <= k < d.len() implies !has_char(#[trigger] d[k], '\n') && !has_char(
                d[k],
                '\r',
            ) by {
                assert(d[k] == ls[k]);
            }
        }
        lemma_raw_of_join(d);
        assert(!has_char(ls.last(), '\n')) by {
            assert(ls.last() == ls[ls.len() - 1]);
        }
        lemma_raw_single(ls.last());
        lemma_raw_concat(join_lines(d), ls.last());
        assert(d + seq![ls.last()] =~= ls);
    }
}

proof fn lemma_strip_plain(l: Seq<char>)
    requires
        !has_char(l, '\r'),
    ensures
        strip_cr(l) == l,
{
    if l.len() > 0 && l.last() == '\r' {
        assert(l[l.len() - 1] == '\r');
    }
}

/// Splitting lines joined with newlines gives them back, with a final
/// newline or, when the last line is not empty, without one.
pub proof fn lemma_lines_of_join(ls: Seq<Seq<char>>, final_newline: bool)
    requires
        plain_lines(ls),
        final_newline ==> ls.len() > 0,
        !final_newline ==> ls.len() == 0 || ls.last().len() > 0,
    ensures
        lines_of(join_lines(ls) + (if final_newline { seq!['\n'] } else { Seq::empty() })) == ls,
        newline_suffix(join_lines(ls) + (if final_newline { seq!['\n'] } else { Seq::empty() }))
            == (if final_newline { seq!['\n'] } else { Seq::<char>::empty() }),
{
    let j = join_lines(ls);
    if ls.len() == 0 {
        assert(j + Seq::<char>::empty() =~= Seq::<char>::empty());
    } else if final_newline {
        let s = j + seq!['\n'];
        lemma_raw_of_join(ls);
        lemma_raw_concat(j, Seq::<char>::empty());
        assert(j + seq!['\n'] + Seq::<char>::empty() =~= s);
        let r = raw_segments(s);
        assert(r =~= ls + seq![Seq::<char>::empty()]);
        assert(r.drop_last() =~= ls);
        assert(s.last() == '\n');
        assert(r.drop_last().map_values(|l: Seq<char>| strip_cr(l)) =~= ls) by {
            assert forall|k: int| 0 <= k < ls.len() implies strip_cr(ls[k]) == ls[k] by {
                assert(!has_char(ls[k], '\r'));
                lemma_strip_plain(ls[k]);
            }
        }
    } else {
        assert(j + Seq::<char>::empty() =~= j);
        lemma_raw_of_join(ls);
        lemma_join_last(ls);
        assert(j.last() != '\n') by {
            assert(!has_char(ls.last(), '\n'));
            assert(ls.last()[ls.last().len() - 1] == j.last());
        }
        let r = raw_segments(j);
        assert(Seq::new(r.len(), |i: int| if i < r.len() - 1 { strip_cr(r[i]) } else { r[i] }) =~= ls) by {
            assert forall|k: int| 0 <= k < ls.len() implies strip_cr(ls[k]) == ls[k] by {
                assert(!has_char(ls[k], '\r'));
                lemma_strip_plain(ls[k]);
            }
        }
    }
}

proof fn lemma_join_raw(c: Seq<char>)
    ensures
        join_lines(raw_segments(c)) == c,
    decreases c.len(),
{
    if c.len() > 0 {
        let d = c.drop_last();
        lemma_join_raw(d);
        crate::text::lemma_raw_segments_nonempty(d);
        let x = raw_segments(d);
        if c.last() == '\n' {
            let y = x.push(Seq::<char>::empty());
            assert(y.drop_last() =~= x);
            assert(join_lines(y) =~= c);
        } else {
            let y = x.update(x.len() - 1, x.last().push(c.last()));
            assert(d.push(c.last()) =~= c);
            if x.len() == 1 {
                assert(join_lines(x) == x[0]);
                assert(y[0] == x[0].push(c.last()));
                assert(join_lines(y) == y[0]);
                assert(join_lines(y) =~= c);
            } else {
                assert(y.drop_last() =~= x.drop_last());
                assert(join_lines(y) =~= c);
            }
        }
    }
}

proof fn lemma_raw_plain(c: Seq<char>)
    requires
        !has_char(c, '\r'),
    ensures
        plain_lines(raw_segments(c)),
    decreases c.len(),
{
    if c.len() > 0 {
        let d = c.drop_last();
        assert(!has_char(d, '\r')) by {
            if has_char(d, '\r') {
                let i = choose|i: int| 0 <= i < d.len() && d[i] == '\r';
                assert(c[i] == '\r');
            }
        }
        lemma_raw_plain(d);
        crate::text::lemma_raw_segments_nonempty(d);
        let x = raw_segments(d);
        assert(c.last() != '\r') by {
            assert(c[c.len() - 1] == c.last());
        }
        if c.last() != '\n' {
            let y = x.update(x.len() - 1, x.last().push(c.last()));
            assert forall|k: int| 0 <= k < y.len() implies !has_char(#[trigger] y[k], '\n') && !has_char(
                y[k],
                '\r',
            ) by {
                if k == x.len() - 1 {
                    let z = x.last().push(c.last());
                    assert(x[k] == x.last());
                    if has_char(z, '\n') {
                        let i = choose|i: int| 0 <= i < z.len() && z[i] == '\n';
                        if i < x.last().len() {
                            assert(x.last()[i] == '\n');
                        }
                    }
                    if has_char(z, '\r') {
                        let i = choose|i: int| 0 <= i < z.len() && z[i] == '\r';
                        if i < x.last().len() {
                            assert(x.last()[i] == '\r');
                        }
                    }
                }
            }
        } else {
            let y = x.push(Seq::<char>::empty());
            assert forall|k: int| 0 <= k < y.len() implies !has_char(#[trigger] y[k], '\n') && !has_char(
                y[k],
                '\r',
            ) by {
                if k < x.len() {
                    assert(y[k] == x[k]);
                }
            }
        }
    } else {
        assert(raw_segments(c) =~= seq![Seq::<char>::empty()]);
    }
}

/// For a text without carriage returns: its lines are plain, the last one
/// is not empty unless the text ends with a newline, and joining them and
/// adding the text's final newline gives the text back.
pub proof fn lemma_join_lines_of(c: Seq<char>)
    requires
        !has_char(c, '\r'),
    ensures
        plain_lines(lines_of(c)),
        newline_suffix(c).len() == 0 ==> lines_of(c).len() == 0 || lines_of(c).last().len() > 0,
        newline_suffix(c).len() > 0 ==> lines_of(c).len() > 0,
        join_lines(lines_of(c)) + newline_suffix(c) == c,
{
    lemma_raw_plain(c);
    lemma_join_raw(c);
    crate::text::lemma_raw_segments_nonempty(c);
    let r = raw_segments(c);
    assert forall|k: int| 0 <= k < r.len() implies strip_cr(r[k]) == r[k] by {
        assert(!has_char(r[k], '\r'));
        lemma_strip_plain(r[k]);
    }
    if c.len() == 0 {
        assert(join_lines(lines_of(c)) + newline_suffix(c) =~= c);
    } else if c.last() == '\n' {
        let d = c.drop_last();
        crate::text::lemma_raw_segments_nonempty(d);
        assert(r == raw_segments(d).push(Seq::<char>::empty()));
        assert(lines_of(c) =~= r.drop_last());
        assert(r.drop_last().len() > 0);
        assert(join_lines(r) == join_lines(r.drop_last()) + seq!['\n'] + r.last());
        assert(join_lines(r.drop_last()) + seq!['\n'] =~= c);
        assert forall|k: int| 0 <= k < lines_of(c).len() implies !has_char(#[trigger] lines_of(c)[k], '\n')
            && !has_char(lines_of(c)[k], '\r') by {
            assert(lines_of(c)[k] == r[k]);
        }
    } else {
        assert(lines_of(c) =~= r);
        assert(join_lines(lines_of(c)) + newline_suffix(c) =~= c);
        let d = c.drop_last();
        crate::text::lemma_raw_segments_nonempty(d);
        assert(r.last() == raw_segments(d).last().push(c.last()));
    }
}

} // verus!

//! The edit engine: validated, all-or-nothing text mutations.
use vstd::prelude::*;
use crate::line_laws::{has_char, lemma_join_lines_of, lemma_lines_of_join, plain_lines};
use crate::text::{
    chars_eq, chars_of, slice_chars, count_matches, count_matches_chars, extend_chars, join_lines,
    join_lines_chars, lines_of, newline_suffix, replace_first, replace_first_chars, split_lines,
    string_of, views, occurs_at,
};

verus! {

/// Why an edit operation was refused.
#[derive(Debug, Clone)]
pub enum ValidationError {
    /// The pattern (or line) does not occur in the content.
    NotFound { pattern: String },
    /// The pattern occurs more than once where exactly one was expected.
    MultipleMatches { pattern: String, count: usize },
    /// The line index lies past the last line.
    InvalidLine { line: usize, max_line: usize },
}

/// The mathematical content of a `ValidationError`.
pub enum EditFailure {
    NotFound(Seq<char>),
    MultipleMatches(Seq<char>, nat),
    InvalidLine(nat, nat),
}

impl ValidationError {
    pub open spec fn view(&self) -> EditFailure {
        match self {
            ValidationError::NotFound { pattern } => EditFailure::NotFound(pattern@),
            ValidationError::MultipleMatches { pattern, count } => EditFailure::MultipleMatches(
                pattern@,
                *count as nat,
            ),
            ValidationError::InvalidLine { line, max_line } => EditFailure::InvalidLine(
                *line as nat,
                *max_line as nat,
            ),
        }
    }
}

/// One textual mutation.
#[derive(Debug, Clone)]
pub enum EditOp {
    /// Replace `old` with `new`; `old` must occur exactly once.
    Replace { old: String, new: String },
    /// Insert `content` as a new line before line `line` (0-based).
    InsertAtLine { line: usize, content: String },
    /// Append `content` at the end, on a line of its own.
    Append { content: String },
    /// Delete every line equal to `content`; at least one must exist.
    DeleteLine { content: String },
}

/// The mathematical content of an `EditOp`.
pub enum OpView {
    Replace(Seq<char>, Seq<char>),
    InsertAtLine(nat, Seq<char>),
    Append(Seq<char>),
    DeleteLine(Seq<char>),
}

impl EditOp {
    pub open spec fn view(&self) -> OpView {
        match self {
            EditOp::Replace { old, new } => OpView::Replace(old@, new@),
            EditOp::InsertAtLine { line, content } => OpView::InsertAtLine(*line as nat, content@),
            EditOp::Append { content } => OpView::Append(content@),
            EditOp::DeleteLine { content } => OpView::DeleteLine(content@),
        }
    }

    /// A `Replace` operation.
    pub fn replace(old: &str, new: &str) -> (r: EditOp)
        ensures
            r.view() == OpView::Replace(old@, new@),
    {
        EditOp::Replace { old: old.to_owned(), new: new.to_owned() }
    }

    /// An `InsertAtLine` operation.
    pub fn insert_at_line(line: usize, content: &str) -> (r: EditOp)
        ensures
            r.view() == OpView::InsertAtLine(line as nat, content@),
    {
        EditOp::InsertAtLine { line, content: content.to_owned() }
    }

    /// An `Append` operation.
    pub fn append(content: &str) -> (r: EditOp)
        ensures
            r.view() == OpView::Append(content@),
    {
        EditOp::Append { content: content.to_owned() }
    }

    /// A `DeleteLine` operation.
    pub fn delete_line(content: &str) -> (r: EditOp)
        ensures
            r.view() == OpView::DeleteLine(content@),
    {
        EditOp::DeleteLine { content: content.to_owned() }
    }
}

/// A count as reported in an error: counts beyond `usize::MAX` are reported
/// as `usize::MAX`.
pub open spec fn reported_count(n: nat) -> nat {
    if n > usize::MAX {
        usize::MAX as nat
    } else {
        n
    }
}

/// Whether two lines differ (used to keep the lines a deletion spares).
pub open spec fn differs(x: Seq<char>) -> spec_fn(Seq<char>) -> bool {
    |l: Seq<char>| l != x
}

/// The content `c` after the appending of `x`.
pub open spec fn appended(c: Seq<char>, x: Seq<char>) -> Seq<char> {
    if c.len() == 0 || c.last() == '\n' {
        c + x
    } else {
        c + seq!['\n'] + x
    }
}

/// The outcome of applying one operation to `c`.
pub open spec fn apply_op(c: Seq<char>, op: OpView) -> Result<Seq<char>, EditFailure> {
    match op {
        OpView::Replace(old, new) => {
            let n = count_matches(c, old);
            if n == 0 {
                Err(EditFailure::NotFound(old))
            } else if n == 1 {
                Ok(replace_first(c, old, new))
            } else {
                Err(EditFailure::MultipleMatches(old, reported_count(n)))
            }
        },
        OpView::InsertAtLine(line, content) => {
            let ls = lines_of(c);
            if line > ls.len() {
                Err(EditFailure::InvalidLine(line, ls.len()))
            } else {
                Ok(join_lines(ls.insert(line as int, content)) + newline_suffix(c))
            }
        },
        OpView::Append(content) => Ok(appended(c, content)),
        OpView::DeleteLine(content) => {
            let ls = lines_of(c);
            let kept = ls.filter(differs(content));
            if kept.len() == ls.len() {
                Err(EditFailure::NotFound(content))
            } else {
                Ok(join_lines(kept) + newline_suffix(c))
            }
        },
    }
}

/// The outcome of applying the operations in order, stopping at the first
/// failure.
pub open spec fn apply_ops(c: Seq<char>, ops: Seq<OpView>) -> Result<Seq<char>, EditFailure>
    decreases ops.len(),
{
    if ops.len() == 0 {
        Ok(c)
    } else {
        match apply_op(c, ops[0]) {
            Ok(c2) => apply_ops(c2, ops.skip(1)),
            Err(e) => Err(e),
        }
    }
}

/// The views of a list of operations.
pub open spec fn op_views(ops: Seq<EditOp>) -> Seq<OpView> {
    ops.map_values(|o: EditOp| o.view())
}

/// The mathematical content of an edit result.
pub open spec fn result_view(r: Result<Vec<char>, ValidationError>) -> Result<
    Seq<char>,
    EditFailure,
> {
    match r {
        Ok(v) => Ok(v@),
        Err(e) => Err(e.view()),
    }
}

fn add_newline_suffix(r: &mut Vec<char>, c: &Vec<char>)
    ensures
        final(r)@ == old(r)@ + newline_suffix(c@),
{
    if c.len() > 0 && c[c.len() - 1] == '\n' {
        r.push('\n');
    } else {
        assert(old(r)@ + newline_suffix(c@) =~= old(r)@);
    }
}

fn apply_replace(c: &Vec<char>, old: &String, new: &String) -> (r: Result<Vec<char>, ValidationError>)
    ensures
        result_view(r) == apply_op(c@, OpView::Replace(old@, new@)),
{
    let p = chars_of(old.as_str());
    let q = chars_of(new.as_str());
    if p.len() == 0 {
        if c.len() == 0 {
            let mut r = q;
            extend_chars(&mut r, c.as_slice());
            return Ok(r);
        }
        let count = if c.len() < usize::MAX { c.len() + 1 } else { usize::MAX };
        return Err(ValidationError::MultipleMatches { pattern: old.clone(), count });
    }
    let count = count_matches_chars(c.as_slice(), p.as_slice());
    if count == 0 {
        Err(ValidationError::NotFound { pattern: old.clone() })
    } else if count == 1 {
        Ok(replace_first_chars(c.as_slice(), p.as_slice(), q.as_slice()))
    } else {
        Err(ValidationError::MultipleMatches { pattern: old.clone(), count })
    }
}

fn apply_insert(c: &Vec<char>, line: usize, x: &String) -> (r: Result<Vec<char>, ValidationError>)
    ensures
        result_view(r) == apply_op(c@, OpView::InsertAtLine(line as nat, x@)),
{
    let mut ls = split_lines(c.as_slice());
    let max_line = ls.len();
    if line > max_line {
        return Err(ValidationError::InvalidLine { line, max_line });
    }
    let xs = chars_of(x.as_str());
    let ghost before = ls@;
    ls.insert(line, xs);
    proof {
        assert(views(ls@) =~= views(before).insert(line as int, x@));
    }
    let mut r = join_lines_chars(&ls);
    add_newline_suffix(&mut r, c);
    Ok(r)
}

fn apply_append(c: &Vec<char>, x: &String) -> (r: Vec<char>)
    ensures
        r@ == appended(c@, x@),
{
    let xs = chars_of(x.as_str());
    let mut r = c.clone();
    if c.len() > 0 && c[c.len() - 1] != '\n' {
        r.push('\n');
    }
    extend_chars(&mut r, xs.as_slice());
    r
}

fn apply_delete(c: &Vec<char>, x: &String) -> (r: Result<Vec<char>, ValidationError>)
    ensures
        result_view(r) == apply_op(c@, OpView::DeleteLine(x@)),
{
    let xs = chars_of(x.as_str());
    let ls = split_lines(c.as_slice());
    let ghost all = views(ls@);
    let ghost pred = differs(x@);
    let mut kept: Vec<Vec<char>> = Vec::new();
    let mut i: usize = 0;
    proof {
        assert(all.take(0) =~= Seq::<Seq<char>>::empty());
    }
    while i < ls.len()
        invariant
            0 <= i <= ls.len(),
            all == views(ls@),
            xs@ == x@,
            pred == differs(x@),
            views(kept@) == all.take(i as int).filter(pred),
        decreases ls.len() - i,
    {
        proof {
            assert(all.take(i + 1).drop_last() =~= all.take(i as int));
            assert(all.take(i + 1).last() == ls[i as int]@);
        }
        let keep = !chars_eq(ls[i].as_slice(), xs.as_slice());
        proof {
            let t1 = all.take(i + 1);
            reveal(Seq::filter);
            assert(t1.filter(pred) == (if pred(t1.last()) {
                t1.drop_last().filter(pred).push(t1.last())
            } else {
                t1.drop_last().filter(pred)
            }));
            assert(pred(t1.last()) == keep);
        }
        if keep {
            let ghost k0 = kept@;
            let line = slice_chars(ls[i].as_slice(), 0, ls[i].len());
            assert(line@ == ls[i as int]@);
            kept.push(line);
            proof {
                assert(views(kept@) =~= views(k0).push(ls[i as int]@));
            }
        }
        i += 1;
    }
    proof {
        assert(all.take(ls.len() as int) =~= all);
    }
    if kept.len() == ls.len() {
        return Err(ValidationError::NotFound { pattern: x.clone() });
    }
    let mut r = join_lines_chars(&kept);
    add_newline_suffix(&mut r, c);
    Ok(r)
}

/// Applies one operation.
fn apply_single_edit(c: &Vec<char>, edit: EditOp) -> (r: Result<Vec<char>, ValidationError>)
    ensures
        result_view(r) == apply_op(c@, edit.view()),
{
    match edit {
        EditOp::Replace { old, new } => apply_replace(c, &old, &new),
        EditOp::InsertAtLine { line, content } => apply_insert(c, line, &content),
        EditOp::Append { content } => Ok(apply_append(c, &content)),
        EditOp::DeleteLine { content } => apply_delete(c, &content),
    }
}

/// Applies the operations in order. The first operation that fails aborts
/// the whole batch with its error; nothing of the batch is kept then.
pub fn apply_edits(content: &str, edits: Vec<EditOp>) -> (r: Result<String, ValidationError>)
    ensures
        match apply_ops(content@, op_views(edits@)) {
            Ok(s) => r matches Ok(t) && t@ == s,
            Err(e) => r matches Err(f) && f.view() == e,
        },
{
    let mut cur = chars_of(content);
    let ghost eds = edits@;
    let ghost ops = op_views(edits@);
    proof {
        assert(ops.skip(0) =~= ops);
    }
    for op in it: edits
        invariant
            it.seq() == eds,
            ops == op_views(eds),
            apply_ops(content@, ops) == apply_ops(cur@, ops.skip(it.index() as int)),
    {
        let ghost rest = ops.skip(it.index() as int);
        proof {
            assert(rest[0] == op.view());
            assert(rest.skip(1) =~= ops.skip(it.index() + 1));
        }
        match apply_single_edit(&cur, op) {
            Ok(next) => {
                cur = next;
            },
            Err(e) => {
                return Err(e);
            },
        }
    }
    proof {
        assert(ops.skip(ops.len() as int) =~= Seq::<OpView>::empty());
    }
    Ok(string_of(cur.as_slice()))
}

proof fn lemma_no_match_nowhere(s: Seq<char>, p: Seq<char>)
    requires
        p.len() > 0,
        count_matches(s, p) == 0,
    ensures
        forall|j: int| !occurs_at(s, p, j),
    decreases s.len(),
{
    if s.len() >= p.len() {
        assert(s.take(p.len() as int) != p);
        lemma_no_match_nowhere(s.skip(1), p);
        assert forall|j: int| !occurs_at(s, p, j) by {
            if j == 0 {
                assert(s.subrange(0, p.len() as int) == s.take(p.len() as int));
            } else if j > 0 && occurs_at(s, p, j) {
                assert(s.skip(1).subrange(j - 1, j - 1 + p.len()) =~= s.subrange(j, j + p.len()));
                assert(occurs_at(s.skip(1), p, j - 1));
            }
        }
    }
}

proof fn lemma_single_match(c: Seq<char>, p: Seq<char>, q: Seq<char>) -> (k: int)
    requires
        p.len() > 0,
        count_matches(c, p) == 1,
    ensures
        occurs_at(c, p, k),
        replace_first(c, p, q) == c.take(k) + q + c.skip(k + p.len()),
        forall|j: int| j < k ==> !occurs_at(c, p, j),
        forall|j: int| j >= k + p.len() ==> !occurs_at(c, p, j),
    decreases c.len(),
{
    if c.take(p.len() as int) == p {
        let rest = c.skip(p.len() as int);
        lemma_no_match_nowhere(rest, p);
        assert(c.subrange(0, p.len() as int) == c.take(p.len() as int));
        assert(c.take(0) + q + c.skip(p.len() as int) =~= q + c.skip(p.len() as int));
        assert forall|j: int| j >= p.len() implies !occurs_at(c, p, j) by {
            if occurs_at(c, p, j) {
                assert(rest.subrange(j - p.len(), j) =~= c.subrange(j, j + p.len()));
                assert(occurs_at(rest, p, j - p.len()));
            }
        }
        0
    } else {
        let s1 = c.skip(1);
        let k1 = lemma_single_match(s1, p, q);
        let k = k1 + 1;
        assert(s1.subrange(k1, k1 + p.len()) =~= c.subrange(k, k + p.len()));
        assert(seq![c[0]] + (s1.take(k1) + q + s1.skip(k1 + p.len())) =~= c.take(k) + q + c.skip(
            k + p.len(),
        ));
        assert forall|j: int| j < k implies !occurs_at(c, p, j) by {
            if j == 0 {
                assert(c.subrange(0, p.len() as int) == c.take(p.len() as int));
            } else if j > 0 && occurs_at(c, p, j) {
                assert(s1.subrange(j - 1, j - 1 + p.len()) =~= c.subrange(j, j + p.len()));
                assert(occurs_at(s1, p, j - 1));
            }
        }
        assert forall|j: int| j >= k + p.len() implies !occurs_at(c, p, j) by {
            if occurs_at(c, p, j) {
                assert(s1.subrange(j - 1, j - 1 + p.len()) =~= c.subrange(j, j + p.len()));
                assert(occurs_at(s1, p, j - 1));
            }
        }
        k
    }
}

/// A replacement whose pattern occurs exactly once succeeds: the result is
/// the content with that occurrence swapped for the replacement, and no
/// other occurrence of the pattern starts outside the replaced span.
pub proof fn lemma_unique_replace(c: Seq<char>, p: Seq<char>, q: Seq<char>)
    requires
        count_matches(c, p) == 1,
    ensures
        exists|k: int|
            occurs_at(c, p, k) && apply_ops(c, seq![OpView::Replace(p, q)]) == Ok::<
                Seq<char>,
                EditFailure,
            >(c.take(k) + q + c.skip(k + p.len())) && (forall|j: int|
                #![trigger occurs_at(c, p, j)]
                j != k && (j < k || j >= k + p.len()) ==> !occurs_at(c, p, j)),
{
    let ops = seq![OpView::Replace(p, q)];
    assert(ops.skip(1) =~= Seq::<OpView>::empty());
    if p.len() == 0 {
        assert(c.len() == 0);
        assert(c.subrange(0, 0) =~= p);
        assert(c.take(0) + q + c.skip(0) =~= q + c);
        assert(occurs_at(c, p, 0));
        assert(apply_op(c, ops[0]) == Ok::<Seq<char>, EditFailure>(q + c));
        assert(apply_ops(q + c, ops.skip(1)) == Ok::<Seq<char>, EditFailure>(q + c));
        assert(apply_ops(c, ops) == Ok::<Seq<char>, EditFailure>(c.take(0) + q + c.skip(0)));
    } else {
        let k = lemma_single_match(c, p, q);
        let r = c.take(k) + q + c.skip(k + p.len());
        assert(apply_op(c, ops[0]) == Ok::<Seq<char>, EditFailure>(r));
        assert(apply_ops(r, ops.skip(1)) == Ok::<Seq<char>, EditFailure>(r));
        assert(apply_ops(c, ops) == Ok::<Seq<char>, EditFailure>(r));
        assert(occurs_at(c, p, k));
    }
}

proof fn lemma_filter_keeps_all(s: Seq<Seq<char>>, x: Seq<char>)
    requires
        !s.contains(x),
    ensures
        s.filter(differs(x)) == s,
    decreases s.len(),
{
    reveal(Seq::filter);
    if s.len() > 0 {
        assert(!s.drop_last().contains(x)) by {
            if s.drop_last().contains(x) {
                let k = choose|k: int| 0 <= k < s.drop_last().len() && s.drop_last()[k] == x;
                assert(s[k] == x);
            }
        }
        lemma_filter_keeps_all(s.drop_last(), x);
        assert(s.last() != x) by {
            assert(s[s.len() - 1] == s.last());
        }
        assert(s.drop_last().push(s.last()) =~= s);
    }
}

proof fn lemma_filter_insert(ls: Seq<Seq<char>>, i: nat, x: Seq<char>)
    requires
        !ls.contains(x),
        i <= ls.len(),
    ensures
        ls.insert(i as int, x).filter(differs(x)) == ls,
{
    let l2 = ls.insert(i as int, x);
    assert(l2 =~= ls.take(i as int) + seq![x] + ls.skip(i as int));
    let p = differs(x);
    Seq::filter_distributes_over_add(ls.take(i as int) + seq![x], ls.skip(i as int), p);
    Seq::filter_distributes_over_add(ls.take(i as int), seq![x], p);
    assert(!ls.take(i as int).contains(x)) by {
        if ls.take(i as int).contains(x) {
            let k = choose|k: int| 0 <= k < ls.take(i as int).len() && ls.take(i as int)[k] == x;
            assert(ls[k] == x);
        }
    }
    assert(!ls.skip(i as int).contains(x)) by {
        if ls.skip(i as int).contains(x) {
            let k = choose|k: int| 0 <= k < ls.skip(i as int).len() && ls.skip(i as int)[k] == x;
            assert(ls[k + i] == x);
        }
    }
    lemma_filter_keeps_all(ls.take(i as int), x);
    lemma_filter_keeps_all(ls.skip(i as int), x);
    reveal(Seq::filter);
    assert(seq![x].drop_last() =~= Seq::<Seq<char>>::empty());
    assert(!p(x));
    assert(Seq::<Seq<char>>::empty().filter(p) =~= Seq::<Seq<char>>::empty());
    assert(seq![x].last() == x);
    assert(seq![x].filter(p) =~= Seq::<Seq<char>>::empty());
    assert(l2.filter(p) =~= ls);
}

/// Inserting a line and then deleting that line gives the content back,
/// for a text without carriage returns and a non-empty line that holds no
/// line ending and is not already one of the text's lines.
pub proof fn lemma_insert_delete_round_trip(c: Seq<char>, i: nat, x: Seq<char>)
    requires
        !has_char(c, '\r'),
        !has_char(x, '\n'),
        !has_char(x, '\r'),
        x.len() > 0,
        !lines_of(c).contains(x),
        i <= lines_of(c).len(),
    ensures
        apply_ops(c, seq![OpView::InsertAtLine(i, x)]) matches Ok(c1) && apply_ops(
            c1,
            seq![OpView::DeleteLine(x)],
        ) == Ok::<Seq<char>, EditFailure>(c),
{
    let ls = lines_of(c);
    lemma_join_lines_of(c);
    let suf = newline_suffix(c);
    let l2 = ls.insert(i as int, x);
    assert(plain_lines(l2)) by {
        assert forall|k: int| 0 <= k < l2.len() implies !has_char(#[trigger] l2[k], '\n') && !has_char(
            l2[k],
            '\r',
        ) by {
            if k < i {
                assert(l2[k] == ls[k]);
            } else if k > i {
                assert(l2[k] == ls[k - 1]);
            }
        }
    }
    let fnl = suf.len() > 0;
    if !fnl && l2.len() > 0 {
        if i == ls.len() {
            assert(l2.last() == x);
        } else {
            assert(l2.last() == ls.last());
        }
    }
    lemma_lines_of_join(l2, fnl);
    assert(suf == (if fnl { seq!['\n'] } else { Seq::<char>::empty() }));
    let c1 = join_lines(l2) + suf;
    let ops1 = seq![OpView::InsertAtLine(i, x)];
    assert(ops1.skip(1) =~= Seq::<OpView>::empty());
    assert(apply_op(c, ops1[0]) == Ok::<Seq<char>, EditFailure>(c1));
    assert(apply_ops(c1, ops1.skip(1)) == Ok::<Seq<char>, EditFailure>(c1));
    let ops2 = seq![OpView::DeleteLine(x)];
    assert(ops2.skip(1) =~= Seq::<OpView>::empty());
    lemma_filter_insert(ls, i, x);
    assert(apply_op(c1, ops2[0]) == Ok::<Seq<char>, EditFailure>(join_lines(ls) + suf));
    assert(apply_ops(c, ops1) == Ok::<Seq<char>, EditFailure>(c1));
    assert(apply_ops(c, ops2.skip(1)) == Ok::<Seq<char>, EditFailure>(c));
    assert(apply_ops(c1, ops2) == Ok::<Seq<char>, EditFailure>(c));
}

/// Replacing a pattern that occurs exactly once by itself leaves the
/// content unchanged.
pub proof fn lemma_replace_with_itself(c: Seq<char>, p: Seq<char>)
    requires
        count_matches(c, p) == 1,
    ensures
        apply_ops(c, seq![OpView::Replace(p, p)]) == Ok::<Seq<char>, EditFailure>(c),
{
    lemma_unique_replace(c, p, p);
    let k = choose|k: int|
        occurs_at(c, p, k) && apply_ops(c, seq![OpView::Replace(p, p)]) == Ok::<Seq<char>, EditFailure>(
            c.take(k) + p + c.skip(k + p.len()),
        ) && (forall|j: int|
            #![trigger occurs_at(c, p, j)]
            j != k && (j < k || j >= k + p.len()) ==> !occurs_at(c, p, j));
    assert(c.take(k) + p + c.skip(k + p.len()) =~= c);
}

} // verus!

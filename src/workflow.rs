//! The task lifecycle commands as pure functions from the task file's text
//! to its new text: every change goes through the edit engine.
use vstd::prelude::*;
use crate::edit::{apply_edits, apply_op, apply_ops, op_views, EditFailure, EditOp, OpView, ValidationError};
use crate::markdown::{lookup_dest, opt_view, references};
use crate::task::{
    body_start, first_entry, header_line, id_for_node, insert_point, next_id, opt_str,
    ref_append_point, scan_status, task_matches, task_of, Task, TaskFileReader, TaskScan, TaskStatus,
};
use crate::text::{
    strs,
    chars_of, concat_chars, find_char, find_char_index, lines_of, slice_chars, split_lines,
    starts_with, starts_with_chars, string_of, trim, trim_chars, trim_end, trim_end_chars, views,
};

verus! {

/// Why a task command was refused.
#[derive(Debug, Clone)]
pub enum TaskError {
    /// No reference defines the task.
    NotFound { task_id: String },
    /// Another agent owns the task.
    AlreadyTaken { task_id: String, owner: String },
    /// The requested header is missing while other headers exist.
    HeaderNotFound { message: String },
    /// The task has no checklist entry yet (it must be taken first).
    NotTaken { task_id: String },
    /// `force` was given with more than one task.
    ForceNeedsSingleTask,
    /// The edit engine refused the change (the text moved underneath).
    Edit(ValidationError),
}

/// The mathematical content of a `TaskError`.
pub enum TaskFailure {
    NotFound(Seq<char>),
    AlreadyTaken(Seq<char>, Seq<char>),
    HeaderNotFound(Seq<char>),
    NotTaken(Seq<char>),
    ForceNeedsSingleTask,
    Edit(EditFailure),
}

impl TaskError {
    pub open spec fn view(&self) -> TaskFailure {
        match self {
            TaskError::NotFound { task_id } => TaskFailure::NotFound(task_id@),
            TaskError::AlreadyTaken { task_id, owner } => TaskFailure::AlreadyTaken(
                task_id@,
                owner@,
            ),
            TaskError::HeaderNotFound { message } => TaskFailure::HeaderNotFound(message@),
            TaskError::NotTaken { task_id } => TaskFailure::NotTaken(task_id@),
            TaskError::ForceNeedsSingleTask => TaskFailure::ForceNeedsSingleTask,
            TaskError::Edit(e) => TaskFailure::Edit(e.view()),
        }
    }
}

/// The checkbox of an entry.
pub open spec fn checkbox(done: bool) -> Seq<char> {
    if done {
        "[x]"@
    } else {
        "[ ]"@
    }
}

/// A checklist entry: `- [ ] [title][id]`, with ` @owner` when an owner is given.
pub open spec fn entry_text(done: bool, title: Seq<char>, id: Seq<char>, owner: Option<Seq<char>>) -> Seq<
    char,
> {
    "- "@ + checkbox(done) + " ["@ + title + "]["@ + id + "]"@ + match owner {
        Some(a) => " "@ + a,
        None => Seq::empty(),
    }
}

/// The title a take writes: the one given, else the entry's, else the node
/// reference.
pub open spec fn take_title(title: Option<Seq<char>>, s: TaskScan, node: Seq<char>) -> Seq<char> {
    match title {
        Some(t) => t,
        None => match s.title {
            Some(t) => t,
            None => node,
        },
    }
}

/// An existing entry after a take: the owner marker (from the first `'@'`)
/// replaced by the agent's, or removed when there is no agent.
pub open spec fn updated_entry(ex: Seq<char>, agent: Option<Seq<char>>) -> Seq<char> {
    match find_char(ex, '@') {
        Some(at) => match agent {
            Some(a) => trim_end(ex.take(at as int)) + " "@ + a,
            None => trim_end(ex.take(at as int)),
        },
        None => match agent {
            Some(a) => trim_end(ex) + " "@ + a,
            None => ex,
        },
    }
}

/// A new entry, after its header and a blank line when the header must be
/// written.
pub open spec fn entry_block(needs_header: bool, header: Seq<char>, entry: Seq<char>) -> Seq<char> {
    if needs_header {
        header_line(header) + "\n\n"@ + entry
    } else {
        entry
    }
}

/// The two insertions that put a new entry (after its header, when one
/// must be written) at line `p`, followed by a blank line.
pub open spec fn new_entry_ops(p: nat, needs_header: bool, header: Seq<char>, entry: Seq<char>) -> Seq<
    OpView,
> {
    seq![OpView::InsertAtLine(p, Seq::empty()), OpView::InsertAtLine(p, entry_block(needs_header, header, entry))]
}

/// A changed text, or the engine's refusal.
pub open spec fn edit_outcome(r: Result<Seq<char>, EditFailure>) -> Result<Option<Seq<char>>, TaskFailure> {
    match r {
        Ok(n) => Ok(Some(n)),
        Err(e) => Err(TaskFailure::Edit(e)),
    }
}

/// The entry that taking `id` writes, or why it cannot be taken.
pub open spec fn take_preview(
    c: Seq<char>,
    id: Seq<char>,
    title: Option<Seq<char>>,
    agent: Option<Seq<char>>,
) -> Result<Seq<char>, TaskFailure> {
    match task_of(c, id) {
        None => Err(TaskFailure::NotFound(id)),
        Some(s) => if agent is Some && s.owner is Some {
            Err(TaskFailure::AlreadyTaken(id, s.owner->0))
        } else {
            Ok(
                entry_text(
                    scan_status(s) == TaskStatus::Done,
                    take_title(title, s, lookup_dest(lines_of(c), id)->0),
                    id,
                    agent,
                ),
            )
        },
    }
}

/// The text after taking `id` (`None` when nothing changes): an existing
/// entry gets the agent as owner; otherwise a new entry is inserted at the
/// body insertion point. Without an agent an owned task is left as it is.
pub open spec fn take_outcome(
    c: Seq<char>,
    id: Seq<char>,
    title: Option<Seq<char>>,
    header: Option<Seq<char>>,
    agent: Option<Seq<char>>,
) -> Result<Option<Seq<char>>, TaskFailure> {
    match take_preview(c, id, title, agent) {
        Err(e) => Err(e),
        Ok(entry) => {
            let s = task_of(c, id)->0;
            let ls = lines_of(c);
            if agent is None && s.owner is Some {
                Ok(None)
            } else {
                match first_entry(ls, id) {
                    Some(k) => {
                        let ex = ls[k as int];
                        let up = updated_entry(ex, agent);
                        if up == ex {
                            Ok(None)
                        } else {
                            edit_outcome(apply_ops(c, seq![OpView::Replace(ex, up)]))
                        }
                    },
                    None => match insert_point(ls, header) {
                        Err(m) => Err(TaskFailure::HeaderNotFound(m)),
                        Ok((p, needs)) => edit_outcome(
                            apply_ops(
                                c,
                                new_entry_ops(
                                    p,
                                    needs,
                                    match header {
                                        Some(h) => h,
                                        None => Seq::empty(),
                                    },
                                    entry,
                                ),
                            ),
                        ),
                    },
                }
            }
        },
    }
}

fn entry_chars(done: bool, title: &[char], id: &[char], owner: Option<&str>) -> (r: Vec<char>)
    ensures
        r@ == entry_text(done, title@, id@, opt_str(owner)),
{
    let mut r = chars_of("- ");
    let cb = if done {
        chars_of("[x]")
    } else {
        chars_of("[ ]")
    };
    crate::text::extend_chars(&mut r, cb.as_slice());
    let open = chars_of(" [");
    crate::text::extend_chars(&mut r, open.as_slice());
    crate::text::extend_chars(&mut r, title);
    let mid = chars_of("][");
    crate::text::extend_chars(&mut r, mid.as_slice());
    crate::text::extend_chars(&mut r, id);
    let close = chars_of("]");
    crate::text::extend_chars(&mut r, close.as_slice());
    match owner {
        Some(a) => {
            let sp = chars_of(" ");
            crate::text::extend_chars(&mut r, sp.as_slice());
            let ac = chars_of(a);
            crate::text::extend_chars(&mut r, ac.as_slice());
        },
        None => {},
    }
    assert(r@ =~= entry_text(done, title@, id@, opt_str(owner)));
    r
}

fn updated_entry_chars(ex: &[char], agent: Option<&str>) -> (r: Vec<char>)
    ensures
        r@ == updated_entry(ex@, opt_str(agent)),
{
    let base = match find_char_index(ex, '@') {
        Some(at) => {
            let head = slice_chars(ex, 0, at);
            assert(head@ =~= ex@.take(at as int));
            trim_end_chars(head.as_slice())
        },
        None => {
            if agent.is_none() {
                return slice_chars(ex, 0, ex.len());
            }
            trim_end_chars(ex)
        },
    };
    match agent {
        Some(a) => {
            let mut r = base;
            let sp = chars_of(" ");
            crate::text::extend_chars(&mut r, sp.as_slice());
            let ac = chars_of(a);
            crate::text::extend_chars(&mut r, ac.as_slice());
            r
        },
        None => base,
    }
}

fn entry_block_chars(needs: bool, header: Option<&str>, entry: &str) -> (r: Vec<char>)
    requires
        needs ==> header is Some,
    ensures
        r@ == entry_block(
            needs,
            match opt_str(header) {
                Some(h) => h,
                None => Seq::<char>::empty(),
            },
            entry@,
        ),
{
    let ec = chars_of(entry);
    if !needs {
        return ec;
    }
    let h = header.unwrap();
    let hc = chars_of(h);
    let hashes = chars_of("##");
    let mut first = if starts_with_chars(hc.as_slice(), hashes.as_slice()) {
        hc
    } else {
        let sp = chars_of("## ");
        concat_chars(sp.as_slice(), hc.as_slice())
    };
    let gap = chars_of("\n\n");
    crate::text::extend_chars(&mut first, gap.as_slice());
    crate::text::extend_chars(&mut first, ec.as_slice());
    first
}

fn edit_result(r: Result<String, ValidationError>) -> (o: Result<Option<String>, TaskError>)
    ensures
        match r {
            Ok(s) => o matches Ok(Some(t)) && t@ == s@,
            Err(e) => o matches Err(TaskError::Edit(f)) && f.view() == e.view(),
        },
{
    match r {
        Ok(s) => Ok(Some(s)),
        Err(e) => Err(TaskError::Edit(e)),
    }
}

/// The task and its node reference, or `NotFound`.
fn load_task(reader: &TaskFileReader, task_id: &str) -> (r: Result<Task, TaskError>)
    ensures
        match r {
            Ok(t) => task_matches(t, reader.text(), task_id@),
            Err(e) => lookup_dest(lines_of(reader.text()), task_id@) is None && e.view()
                == TaskFailure::NotFound(task_id@),
        },
{
    match reader.get_task(task_id) {
        Some(t) => Ok(t),
        None => Err(TaskError::NotFound { task_id: task_id.to_owned() }),
    }
}

/// The checklist entry that taking a task writes (what a dry run shows),
/// or why it cannot be taken: the task is unknown, or another agent owns it.
pub fn take_entry(content: &str, task_id: &str, title: Option<&str>, agent: Option<&str>) -> (r: Result<
    String,
    TaskError,
>)
    ensures
        match take_preview(content@, task_id@, opt_str(title), opt_str(agent)) {
            Ok(e) => r matches Ok(s) && s@ == e,
            Err(f) => r matches Err(g) && g.view() == f,
        },
{
    let reader = TaskFileReader::new(content.to_owned());
    let task = load_task(&reader, task_id)?;
    if agent.is_some() && task.owner.is_some() {
        let owner = task.owner.unwrap();
        return Err(TaskError::AlreadyTaken { task_id: task_id.to_owned(), owner });
    }
    let t = match title {
        Some(t) => chars_of(t),
        None => match task.title {
            Some(t) => chars_of(t.as_str()),
            None => chars_of(task.node_ref.as_str()),
        },
    };
    let id = chars_of(task_id);
    let e = entry_chars(task.status == TaskStatus::Done, t.as_slice(), id.as_slice(), agent);
    Ok(string_of(e.as_slice()))
}

/// Takes a task for `agent` (an `@name` marker, or none for an anonymous
/// caller): the new text, or `None` when nothing changes.
pub fn take_task(
    content: &str,
    task_id: &str,
    title: Option<&str>,
    header: Option<&str>,
    agent: Option<&str>,
) -> (r: Result<Option<String>, TaskError>)
    ensures
        match take_outcome(content@, task_id@, opt_str(title), opt_str(header), opt_str(agent)) {
            Ok(o) => r matches Ok(p) && opt_view(p) == o,
            Err(f) => r matches Err(g) && g.view() == f,
        },
{
    let entry = take_entry(content, task_id, title, agent)?;
    let reader = TaskFileReader::new(content.to_owned());
    let task = load_task(&reader, task_id)?;
    if agent.is_none() && task.owner.is_some() {
        return Ok(None);
    }
    match reader.find_task_entry_line(task_id) {
        Some((_k, existing)) => {
            let ex = chars_of(existing.as_str());
            let up = updated_entry_chars(ex.as_slice(), agent);
            if crate::text::chars_eq(up.as_slice(), ex.as_slice()) {
                return Ok(None);
            }
            let ups = string_of(up.as_slice());
            let mut edits: Vec<EditOp> = Vec::new();
            edits.push(EditOp::replace(existing.as_str(), ups.as_str()));
            assert(op_views(edits@) =~= seq![OpView::Replace(ex@, up@)]);
            edit_result(apply_edits(content, edits))
        },
        None => {
            let (p, needs) = match reader.find_body_insert_point(header) {
                Ok(x) => x,
                Err(m) => {
                    return Err(TaskError::HeaderNotFound { message: m });
                },
            };
            let ghost hv = match opt_str(header) {
                Some(h) => h,
                None => Seq::<char>::empty(),
            };
            let ghost want = new_entry_ops(p as nat, needs, hv, entry@);
            let block = entry_block_chars(needs, header, entry.as_str());
            let bs = string_of(block.as_slice());
            let mut edits: Vec<EditOp> = Vec::new();
            edits.push(EditOp::insert_at_line(p, ""));
            edits.push(EditOp::insert_at_line(p, bs.as_str()));
            proof {
                reveal_strlit("");
                assert(""@ =~= Seq::<char>::empty());
                assert(edits@[0].view() == OpView::InsertAtLine(p as nat, Seq::empty()));
                assert(edits@[1].view() == OpView::InsertAtLine(p as nat, bs@));
                assert(bs@ == entry_block(needs, hv, entry@));
            }
            assert(op_views(edits@) =~= want);
            edit_result(apply_edits(content, edits))
        },
    }
}

/// A comment line: `  - {timestamp} {message}`, with ` [hash]` when a
/// commit hash is given.
pub open spec fn comment_text(ts: Seq<char>, msg: Seq<char>, git: Option<Seq<char>>) -> Seq<char> {
    "  - "@ + ts + " "@ + msg + match git {
        Some(h) => " ["@ + h + "]"@,
        None => Seq::empty(),
    }
}

/// Whether a line belongs to a comment block: indented by two spaces and
/// not blank.
pub open spec fn is_indented(line: Seq<char>) -> bool {
    starts_with(line, "  "@) && trim(line).len() > 0
}

/// The line after the indented block that starts at `j`.
pub open spec fn block_end(ls: Seq<Seq<char>>, j: nat) -> nat
    decreases ls.len() - j,
{
    if j >= ls.len() || !is_indented(ls[j as int]) {
        j
    } else {
        block_end(ls, j + 1)
    }
}

/// The text after commenting on `id`: the comment goes right after the
/// entry's comment block. Unknown and not yet taken tasks are refused.
pub open spec fn comment_outcome(
    c: Seq<char>,
    id: Seq<char>,
    msg: Seq<char>,
    git: Option<Seq<char>>,
    ts: Seq<char>,
) -> Result<Seq<char>, TaskFailure> {
    match task_of(c, id) {
        None => Err(TaskFailure::NotFound(id)),
        Some(s) => if scan_status(s) == TaskStatus::Backlog {
            Err(TaskFailure::NotTaken(id))
        } else {
            let ls = lines_of(c);
            match first_entry(ls, id) {
                Some(n) => match apply_ops(
                    c,
                    seq![OpView::InsertAtLine(block_end(ls, n + 1), comment_text(ts, msg, git))],
                ) {
                    Ok(r) => Ok(r),
                    Err(e) => Err(TaskFailure::Edit(e)),
                },
                None => Ok(c),
            }
        },
    }
}

/// The comment line that a comment writes.
pub fn comment_line(timestamp: &str, message: &str, git: Option<&str>) -> (r: String)
    ensures
        r@ == comment_text(timestamp@, message@, opt_str(git)),
{
    let mut r = "  - ".to_owned();
    r.append(timestamp);
    r.append(" ");
    r.append(message);
    match git {
        Some(h) => {
            r.append(" [");
            r.append(h);
            r.append("]");
        },
        None => {},
    }
    assert(r@ =~= comment_text(timestamp@, message@, opt_str(git)));
    r
}

fn block_end_index(ls: &Vec<Vec<char>>, j: usize) -> (r: usize)
    requires
        j <= ls.len(),
    ensures
        r as nat == block_end(views(ls@), j as nat),
        j <= r <= ls.len(),
{
    let ghost all = views(ls@);
    let indent = chars_of("  ");
    let mut k: usize = j;
    while k < ls.len()
        invariant
            j <= k <= ls.len(),
            all == views(ls@),
            indent@ == "  "@,
            block_end(all, j as nat) == block_end(all, k as nat),
        decreases ls.len() - k,
    {
        assert(all[k as int] == ls[k as int]@);
        let t = trim_chars(ls[k].as_slice());
        if !(starts_with_chars(ls[k].as_slice(), indent.as_slice()) && t.len() > 0) {
            return k;
        }
        k += 1;
    }
    k
}

/// Adds a comment to a task that has a checklist entry.
pub fn comment_task(
    content: &str,
    task_id: &str,
    message: &str,
    git: Option<&str>,
    timestamp: &str,
) -> (r: Result<String, TaskError>)
    ensures
        match comment_outcome(content@, task_id@, message@, opt_str(git), timestamp@) {
            Ok(n) => r matches Ok(s) && s@ == n,
            Err(f) => r matches Err(g) && g.view() == f,
        },
{
    let reader = TaskFileReader::new(content.to_owned());
    let task = load_task(&reader, task_id)?;
    if task.status == TaskStatus::Backlog {
        return Err(TaskError::NotTaken { task_id: task_id.to_owned() });
    }
    let comment = comment_line(timestamp, message, git);
    match reader.find_task_entry_line(task_id) {
        Some((n, _line)) => {
            let cs = chars_of(content);
            let ls = split_lines(cs.as_slice());
            assert(views(ls@).len() == ls@.len());
            assert(n < ls.len());
            let at = block_end_index(&ls, n + 1);
            let mut edits: Vec<EditOp> = Vec::new();
            edits.push(EditOp::insert_at_line(at, comment.as_str()));
            assert(op_views(edits@) =~= seq![
                OpView::InsertAtLine(block_end(lines_of(content@), (n + 1) as nat), comment@),
            ]);
            match apply_edits(content, edits) {
                Ok(s) => Ok(s),
                Err(e) => Err(TaskError::Edit(e)),
            }
        },
        None => Ok(content.to_owned()),
    }
}

/// `line` without its owner marker: cut at the first `'@'`, trailing
/// whitespace removed.
pub open spec fn strip_owner(line: Seq<char>) -> Seq<char> {
    match find_char(line, '@') {
        Some(at) => trim_end(line.take(at as int)),
        None => line,
    }
}

/// `line` with its checkbox set to done or not done.
pub open spec fn set_checkbox(l: Seq<char>, done: bool) -> Seq<char> {
    if done && starts_with(l, "- [ ]"@) {
        "- [x]"@ + l.skip(5)
    } else if !done && starts_with(l, "- [x]"@) {
        "- [ ]"@ + l.skip(5)
    } else {
        l
    }
}

/// The comment that an anonymous completion leaves.
pub open spec fn anon_comment(ts: Seq<char>) -> Seq<char> {
    "  - "@ + ts + " Completed by @anonymous"@
}

/// The header under which tasks finished straight from the backlog go.
pub open spec fn done_header() -> Seq<char> {
    "Done"@
}

/// Where a backlog task finished straight away goes: under the `Done`
/// header, which is written at the body start when it is missing.
pub open spec fn done_point(ls: Seq<Seq<char>>) -> (nat, bool) {
    match insert_point(ls, Some(done_header())) {
        Ok(x) => x,
        Err(_) => (body_start(ls), true),
    }
}

/// Releasing one task: `Ok((text, changed))`. An unowned task is skipped
/// unless `done` or `force` is given; an entry loses its owner and gets the
/// checkbox that `done` asks for; a backlog task marked done gets a new done
/// entry. Without an agent, marking done also leaves an anonymous comment.
pub open spec fn release_one(
    c0: Seq<char>,
    cur: Seq<char>,
    id: Seq<char>,
    done: bool,
    force: bool,
    agent: Option<Seq<char>>,
    ts: Seq<char>,
) -> Result<(Seq<char>, bool), TaskFailure> {
    match task_of(c0, id) {
        None => Err(TaskFailure::NotFound(id)),
        Some(s) => if !force && !done && s.owner is None {
            Ok((cur, false))
        } else {
            let ls = lines_of(cur);
            match first_entry(ls, id) {
                Some(n) => {
                    let line = ls[n as int];
                    let fin = set_checkbox(strip_owner(line), done);
                    let ops = if done && agent is None {
                        seq![
                            OpView::Replace(line, fin),
                            OpView::InsertAtLine(block_end(ls, n + 1), anon_comment(ts)),
                        ]
                    } else {
                        seq![OpView::Replace(line, fin)]
                    };
                    match apply_ops(cur, ops) {
                        Ok(r) => Ok((r, true)),
                        Err(e) => Err(TaskFailure::Edit(e)),
                    }
                },
                None => if done {
                    let title = match s.title {
                        Some(t) => t,
                        None => lookup_dest(lines_of(c0), id)->0,
                    };
                    let entry = entry_text(true, title, id, None);
                    let (p, needs) = done_point(ls);
                    let base = new_entry_ops(p, needs, done_header(), entry);
                    let ops = if agent is None {
                        seq![OpView::InsertAtLine(p, anon_comment(ts))] + base
                    } else {
                        base
                    };
                    match apply_ops(cur, ops) {
                        Ok(r) => Ok((r, true)),
                        Err(e) => Err(TaskFailure::Edit(e)),
                    }
                } else {
                    Ok((cur, false))
                },
            }
        },
    }
}

/// Releasing the tasks in order, counting those changed; the first refusal
/// aborts all.
pub open spec fn release_all(
    c0: Seq<char>,
    cur: Seq<char>,
    ids: Seq<Seq<char>>,
    done: bool,
    force: bool,
    agent: Option<Seq<char>>,
    ts: Seq<char>,
    n: nat,
) -> Result<(Seq<char>, nat), TaskFailure>
    decreases ids.len(),
{
    if ids.len() == 0 {
        Ok((cur, n))
    } else {
        match release_one(c0, cur, ids[0], done, force, agent, ts) {
            Err(e) => Err(e),
            Ok((r, changed)) => release_all(
                c0,
                r,
                ids.skip(1),
                done,
                force,
                agent,
                ts,
                if changed {
                    n + 1
                } else {
                    n
                },
            ),
        }
    }
}

/// The text after releasing the tasks, with the number released.
pub open spec fn release_outcome(
    c: Seq<char>,
    ids: Seq<Seq<char>>,
    done: bool,
    force: bool,
    agent: Option<Seq<char>>,
    ts: Seq<char>,
) -> Result<(Seq<char>, nat), TaskFailure> {
    if force && ids.len() > 1 {
        Err(TaskFailure::ForceNeedsSingleTask)
    } else {
        release_all(c, c, ids, done, force, agent, ts, 0)
    }
}

fn strip_owner_chars(line: &[char]) -> (r: Vec<char>)
    ensures
        r@ == strip_owner(line@),
{
    match find_char_index(line, '@') {
        Some(at) => {
            let head = slice_chars(line, 0, at);
            assert(head@ =~= line@.take(at as int));
            trim_end_chars(head.as_slice())
        },
        None => slice_chars(line, 0, line.len()),
    }
}

fn set_checkbox_chars(l: &[char], done: bool) -> (r: Vec<char>)
    ensures
        r@ == set_checkbox(l@, done),
{
    let open = chars_of("- [ ]");
    let closed = chars_of("- [x]");
    proof {
        reveal_strlit("- [ ]");
        reveal_strlit("- [x]");
    }
    if done && starts_with_chars(l, open.as_slice()) {
        let rest = slice_chars(l, 5, l.len());
        assert(rest@ =~= l@.skip(5));
        concat_chars(closed.as_slice(), rest.as_slice())
    } else if !done && starts_with_chars(l, closed.as_slice()) {
        let rest = slice_chars(l, 5, l.len());
        assert(rest@ =~= l@.skip(5));
        concat_chars(open.as_slice(), rest.as_slice())
    } else {
        slice_chars(l, 0, l.len())
    }
}

fn anon_comment_string(timestamp: &str) -> (r: String)
    ensures
        r@ == anon_comment(timestamp@),
{
    let mut r = "  - ".to_owned();
    r.append(timestamp);
    r.append(" Completed by @anonymous");
    r
}

/// Releasing a task that has an entry in `cur`.
#[verifier::rlimit(40)]
fn release_entry(
    reader: &TaskFileReader,
    task_id: &str,
    n: usize,
    line: &String,
    done: bool,
    agent: Option<&str>,
    timestamp: &str,
) -> (r: Result<(String, bool), TaskError>)
    requires
        n < lines_of(reader.text()).len(),
        line@ == lines_of(reader.text())[n as int],
    ensures
        ({
            let ls = lines_of(reader.text());
            let fin = set_checkbox(strip_owner(ls[n as int]), done);
            let ops = if done && agent is None {
                seq![
                    OpView::Replace(ls[n as int], fin),
                    OpView::InsertAtLine(block_end(ls, (n + 1) as nat), anon_comment(timestamp@)),
                ]
            } else {
                seq![OpView::Replace(ls[n as int], fin)]
            };
            match apply_ops(reader.text(), ops) {
                Ok(x) => r matches Ok((s, b)) && s@ == x && b,
                Err(e) => r matches Err(g) && g.view() == TaskFailure::Edit(e),
            }
        }),
{
    let cur_s = reader.content();
    let lc = chars_of(line.as_str());
    let stripped = strip_owner_chars(lc.as_slice());
    let fin = set_checkbox_chars(stripped.as_slice(), done);
    let fs = string_of(fin.as_slice());
    let mut edits: Vec<EditOp> = Vec::new();
    edits.push(EditOp::replace(line.as_str(), fs.as_str()));
    let ghost ls = lines_of(cur_s@);
    if done && agent.is_none() {
        let cs = chars_of(cur_s);
        let lsv = split_lines(cs.as_slice());
        assert(views(lsv@).len() == lsv@.len());
        assert(n < lsv.len());
        let at = block_end_index(&lsv, n + 1);
        let comment = anon_comment_string(timestamp);
        edits.push(EditOp::insert_at_line(at, comment.as_str()));
        assert(op_views(edits@) =~= seq![
            OpView::Replace(ls[n as int], fin@),
            OpView::InsertAtLine(block_end(ls, (n + 1) as nat), anon_comment(timestamp@)),
        ]);
    } else {
        assert(op_views(edits@) =~= seq![OpView::Replace(ls[n as int], fin@)]);
    }
    match apply_edits(cur_s, edits) {
        Ok(s) => Ok((s, true)),
        Err(e) => Err(TaskError::Edit(e)),
    }
}

/// Where a backlog task marked done goes in `cur` (see `done_point`).
fn done_point_exec(reader: &TaskFileReader) -> (r: (usize, bool))
    ensures
        (r.0 as nat, r.1) == done_point(lines_of(reader.text())),
{
    match reader.find_body_insert_point(Some("Done")) {
        Ok(x) => x,
        Err(_) => {
            let cs = chars_of(reader.content());
            let lsv = split_lines(cs.as_slice());
            let (second, _third) = crate::task::delimiter_pair_of(&lsv);
            let bs: usize = match second {
                Some(i) => crate::task::skip_blank_of(&lsv, i + 1),
                None => 3,
            };
            (bs, true)
        },
    }
}

/// Releasing a backlog task as done: a new done entry.
#[verifier::rlimit(40)]
fn release_backlog(
    reader: &TaskFileReader,
    task_id: &str,
    title: &[char],
    agent: Option<&str>,
    timestamp: &str,
) -> (r: Result<(String, bool), TaskError>)
    ensures
        ({
            let ls = lines_of(reader.text());
            let entry = entry_text(true, title@, task_id@, None);
            let (p, needs) = done_point(ls);
            let base = new_entry_ops(p, needs, done_header(), entry);
            let ops = if agent is None {
                seq![OpView::InsertAtLine(p, anon_comment(timestamp@))] + base
            } else {
                base
            };
            match apply_ops(reader.text(), ops) {
                Ok(x) => r matches Ok((s, b)) && s@ == x && b,
                Err(e) => r matches Err(g) && g.view() == TaskFailure::Edit(e),
            }
        }),
{
    let cur_s = reader.content();
    let id = chars_of(task_id);
    let entry = entry_chars(true, title, id.as_slice(), None);
    let es = string_of(entry.as_slice());
    let (p, needs) = done_point_exec(reader);
    let block = entry_block_chars(needs, Some("Done"), es.as_str());
    let bls = string_of(block.as_slice());
    let mut edits: Vec<EditOp> = Vec::new();
    if agent.is_none() {
        let comment = anon_comment_string(timestamp);
        edits.push(EditOp::insert_at_line(p, comment.as_str()));
    }
    edits.push(EditOp::insert_at_line(p, ""));
    edits.push(EditOp::insert_at_line(p, bls.as_str()));
    proof {
        reveal_strlit("");
        assert(""@ =~= Seq::<char>::empty());
        let base = new_entry_ops(p as nat, needs, done_header(), entry@);
        if agent.is_none() {
            assert(op_views(edits@) =~= seq![OpView::InsertAtLine(p as nat, anon_comment(timestamp@))] + base);
        } else {
            assert(op_views(edits@) =~= base);
        }
    }
    match apply_edits(cur_s, edits) {
        Ok(s) => Ok((s, true)),
        Err(e) => Err(TaskError::Edit(e)),
    }
}

fn release_one_exec(
    c0: &TaskFileReader,
    cur: String,
    task_id: &str,
    done: bool,
    force: bool,
    agent: Option<&str>,
    timestamp: &str,
) -> (r: Result<(String, bool), TaskError>)
    ensures
        match release_one(c0.text(), cur@, task_id@, done, force, opt_str(agent), timestamp@) {
            Ok((n, ch)) => r matches Ok((s, b)) && s@ == n && b == ch,
            Err(f) => r matches Err(g) && g.view() == f,
        },
{
    let task = load_task(c0, task_id)?;
    if !force && !done && task.owner.is_none() {
        return Ok((cur, false));
    }
    let reader = TaskFileReader::new(cur);
    match reader.find_task_entry_line(task_id) {
        Some((n, line)) => release_entry(&reader, task_id, n, &line, done, agent, timestamp),
        None => {
            if !done {
                return Ok((reader.content().to_owned(), false));
            }
            let title = match task.title {
                Some(t) => chars_of(t.as_str()),
                None => chars_of(task.node_ref.as_str()),
            };
            release_backlog(&reader, task_id, title.as_slice(), agent, timestamp)
        },
    }
}

/// Releases the tasks in order: the new text and how many were released.
/// `force` is refused with more than one task; the first refusal aborts
/// the whole batch.
pub fn release_tasks(
    content: &str,
    task_ids: &Vec<String>,
    done: bool,
    force: bool,
    agent: Option<&str>,
    timestamp: &str,
) -> (r: Result<(String, usize), TaskError>)
    ensures
        match release_outcome(content@, strs(task_ids@), done, force, opt_str(agent), timestamp@) {
            Ok((n, k)) => r matches Ok((s, m)) && s@ == n && m as nat == k,
            Err(f) => r matches Err(g) && g.view() == f,
        },
{
    if force && task_ids.len() > 1 {
        return Err(TaskError::ForceNeedsSingleTask);
    }
    let c0 = TaskFileReader::new(content.to_owned());
    let ghost ids = strs(task_ids@);
    let mut cur = content.to_owned();
    let mut count: usize = 0;
    let mut i: usize = 0;
    assert(ids.skip(0) =~= ids);
    while i < task_ids.len()
        invariant
            0 <= i <= task_ids.len(),
            ids == strs(task_ids@),
            c0.text() == content@,
            count <= i,
            release_outcome(content@, ids, done, force, opt_str(agent), timestamp@) == release_all(
                content@,
                cur@,
                ids.skip(i as int),
                done,
                force,
                opt_str(agent),
                timestamp@,
                count as nat,
            ),
        decreases task_ids.len() - i,
    {
        assert(ids.skip(i as int)[0] == task_ids@[i as int]@);
        assert(ids.skip(i as int).skip(1) =~= ids.skip(i + 1));
        let (next, changed) = release_one_exec(&c0, cur, task_ids[i].as_str(), done, force, agent, timestamp)?;
        cur = next;
        if changed {
            count += 1;
        }
        i += 1;
    }
    Ok((cur, count))
}

/// Whether a release is a mere report: no agent, not marking done, one task.
pub fn release_is_report_only(agent: Option<&str>, done: bool, n_tasks: usize) -> (r: bool)
    ensures
        r == (agent is None && !done && n_tasks == 1),
{
    agent.is_none() && !done && n_tasks == 1
}

/// The prefix in force for a text: its frontmatter's, else `TASK-`.
pub open spec fn prefix_of(c: Seq<char>) -> Seq<char> {
    match crate::markdown::frontmatter_prefix(lines_of(c)) {
        Some(p) => p,
        None => crate::task::default_prefix(),
    }
}

/// A reference definition line `[id]: node`.
pub open spec fn ref_line(id: Seq<char>, node: Seq<char>) -> Seq<char> {
    "["@ + id + "]: "@ + node
}

/// Adding a task for `node`: its existing id when one refers to it
/// (nothing changes), else the next id and the text with a new reference
/// line after the last one.
pub open spec fn add_outcome(c: Seq<char>, node: Seq<char>) -> (Seq<char>, Option<Seq<char>>) {
    let refs = references(c);
    match id_for_node(refs, node) {
        Some(id) => (id, None),
        None => {
            let id = next_id(refs, prefix_of(c));
            (
                id,
                match apply_ops(
                    c,
                    seq![OpView::InsertAtLine(ref_append_point(lines_of(c)), ref_line(id, node))],
                ) {
                    Ok(n) => Some(n),
                    Err(_) => None,
                },
            )
        },
    }
}

/// Adds a task for a note reference (which the caller has checked to name
/// an existing note): the task's id and the new text, `None` when the note
/// already has a task.
pub fn add_task(content: &str, node_ref: &str) -> (r: (String, Option<String>))
    ensures
        r.0@ == add_outcome(content@, node_ref@).0,
        opt_view(r.1) == add_outcome(content@, node_ref@).1,
        id_for_node(references(content@), node_ref@) is None ==> r.1 is Some,
{
    let reader = TaskFileReader::parse(content.to_owned());
    match reader.find_by_node_ref(node_ref) {
        Some(id) => (id, None),
        None => {
            let id = reader.next_task_id();
            let mut line = "[".to_owned();
            line.append(id.as_str());
            line.append("]: ");
            line.append(node_ref);
            let at = reader.find_reference_append_point();
            let mut edits: Vec<EditOp> = Vec::new();
            edits.push(EditOp::insert_at_line(at, line.as_str()));
            let ghost ops = seq![OpView::InsertAtLine(at as nat, line@)];
            assert(op_views(edits@) =~= ops);
            proof {
                assert(ops.skip(1) =~= Seq::<OpView>::empty());
                assert(apply_op(content@, ops[0]) is Ok);
                let c2 = apply_op(content@, ops[0])->Ok_0;
                assert(apply_ops(c2, ops.skip(1)) == Ok::<Seq<char>, EditFailure>(c2));
                assert(apply_ops(content@, ops) is Ok);
            }
            match apply_edits(content, edits) {
                Ok(s) => (id, Some(s)),
                Err(_) => (id, None),
            }
        },
    }
}

/// Whether a task passes a status filter: `backlog`, `doing`, `done`;
/// `all`, none or any other word lets every task pass.
pub open spec fn status_passes(st: TaskStatus, filter: Option<Seq<char>>) -> bool {
    match filter {
        Some(f) => if f == "backlog"@ {
            st == TaskStatus::Backlog
        } else if f == "doing"@ {
            st == TaskStatus::Doing
        } else if f == "done"@ {
            st == TaskStatus::Done
        } else {
            true
        },
        None => true,
    }
}

/// Whether a task passes an owner filter: `(none)` asks for unowned tasks,
/// another text for that exact owner marker.
pub open spec fn owner_passes(owner: Option<Seq<char>>, filter: Option<Seq<char>>) -> bool {
    match filter {
        Some(f) => if f == "(none)"@ {
            owner is None
        } else {
            owner == Some(f)
        },
        None => true,
    }
}

/// Whether a status filter word is one that is understood.
pub fn is_known_status_filter(filter: &str) -> (r: bool)
    ensures
        r == (filter@ == "all"@ || filter@ == "backlog"@ || filter@ == "doing"@ || filter@ == "done"@),
{
    let f = chars_of(filter);
    let all = chars_of("all");
    let backlog = chars_of("backlog");
    let doing = chars_of("doing");
    let done = chars_of("done");
    crate::text::chars_eq(f.as_slice(), all.as_slice()) || crate::text::chars_eq(f.as_slice(), backlog.as_slice())
        || crate::text::chars_eq(f.as_slice(), doing.as_slice()) || crate::text::chars_eq(f.as_slice(), done.as_slice())
}

fn eq_str(a: &str, b: &str) -> (r: bool)
    ensures
        r == (a@ == b@),
{
    let x = chars_of(a);
    let y = chars_of(b);
    crate::text::chars_eq(x.as_slice(), y.as_slice())
}

fn status_passes_exec(st: TaskStatus, filter: Option<&str>) -> (r: bool)
    ensures
        r == status_passes(st, opt_str(filter)),
{
    match filter {
        Some(f) => if eq_str(f, "backlog") {
            st == TaskStatus::Backlog
        } else if eq_str(f, "doing") {
            st == TaskStatus::Doing
        } else if eq_str(f, "done") {
            st == TaskStatus::Done
        } else {
            true
        },
        None => true,
    }
}

fn owner_passes_exec(owner: &Option<String>, filter: Option<&str>) -> (r: bool)
    ensures
        r == owner_passes(opt_view(*owner), opt_str(filter)),
{
    match filter {
        Some(f) => if eq_str(f, "(none)") {
            owner.is_none()
        } else {
            match owner {
                Some(o) => eq_str(o.as_str(), f),
                None => false,
            }
        },
        None => true,
    }
}

/// The tasks that pass both filters, in order.
pub fn filter_tasks(tasks: Vec<Task>, status: Option<&str>, owner: Option<&str>) -> (r: Vec<Task>)
    ensures
        r@ == tasks@.filter(
            |t: Task| status_passes(t.status, opt_str(status)) && owner_passes(opt_view(t.owner), opt_str(owner)),
        ),
{
    let ghost all = tasks@;
    let ghost pred = |t: Task| status_passes(t.status, opt_str(status)) && owner_passes(opt_view(t.owner), opt_str(owner));
    let mut out: Vec<Task> = Vec::new();
    assert(all.take(0) =~= Seq::<Task>::empty());
    for t in it: tasks
        invariant
            it.seq() == all,
            pred == (|t: Task| status_passes(t.status, opt_str(status)) && owner_passes(opt_view(t.owner), opt_str(owner))),
            out@ == all.take(it.index() as int).filter(pred),
    {
        let keep = status_passes_exec(t.status, status) && owner_passes_exec(&t.owner, owner);
        proof {
            let t1 = all.take(it.index() + 1);
            reveal(Seq::filter);
            assert(t1.drop_last() =~= all.take(it.index() as int));
            assert(t1.last() == t);
            assert(pred(t) == keep);
        }
        if keep {
            out.push(t);
        }
    }
    assert(all.take(all.len() as int) =~= all);
    out
}

/// The tasks whose node reference contains `node_ref`, in order.
pub fn find_tasks(tasks: Vec<Task>, node_ref: &str) -> (r: Vec<Task>)
    ensures
        r@ == tasks@.filter(|t: Task| crate::text::contains_seq(t.node_ref@, node_ref@)),
{
    let ghost all = tasks@;
    let ghost pred = |t: Task| crate::text::contains_seq(t.node_ref@, node_ref@);
    let want = chars_of(node_ref);
    let mut out: Vec<Task> = Vec::new();
    assert(all.take(0) =~= Seq::<Task>::empty());
    for t in it: tasks
        invariant
            it.seq() == all,
            want@ == node_ref@,
            pred == (|t: Task| crate::text::contains_seq(t.node_ref@, node_ref@)),
            out@ == all.take(it.index() as int).filter(pred),
    {
        let nr = chars_of(t.node_ref.as_str());
        let keep = crate::text::contains_chars(nr.as_slice(), want.as_slice());
        proof {
            let t1 = all.take(it.index() + 1);
            reveal(Seq::filter);
            assert(t1.drop_last() =~= all.take(it.index() as int));
            assert(t1.last() == t);
            assert(pred(t) == keep);
        }
        if keep {
            out.push(t);
        }
    }
    assert(all.take(all.len() as int) =~= all);
    out
}

/// The word for a status.
pub fn status_name(status: TaskStatus) -> (r: &'static str)
    ensures
        status == TaskStatus::Backlog ==> r@ == "backlog"@,
        status == TaskStatus::Doing ==> r@ == "doing"@,
        status == TaskStatus::Done ==> r@ == "done"@,
{
    match status {
        TaskStatus::Backlog => "backlog",
        TaskStatus::Doing => "doing",
        TaskStatus::Done => "done",
    }
}

proof fn lemma_release_all_unowned(
    c: Seq<char>,
    ids: Seq<Seq<char>>,
    agent: Option<Seq<char>>,
    ts: Seq<char>,
    n: nat,
)
    requires
        forall|i: int|
            0 <= i < ids.len() ==> (#[trigger] task_of(c, ids[i])) is Some && task_of(c, ids[i])->0.owner is None,
    ensures
        release_all(c, c, ids, false, false, agent, ts, n) == Ok::<(Seq<char>, nat), TaskFailure>((c, n)),
    decreases ids.len(),
{
    if ids.len() > 0 {
        assert(task_of(c, ids[0]) is Some);
        assert forall|i: int| 0 <= i < ids.skip(1).len() implies (#[trigger] task_of(c, ids.skip(1)[i])) is Some
            && task_of(c, ids.skip(1)[i])->0.owner is None by {
            assert(ids.skip(1)[i] == ids[i + 1]);
        }
        lemma_release_all_unowned(c, ids.skip(1), agent, ts, n);
    }
}

/// Releasing tasks that exist and have no owner, neither marking them done
/// nor forcing, changes nothing and releases none (so releasing a released
/// task again is a no-op).
pub proof fn lemma_release_unowned_is_noop(
    c: Seq<char>,
    ids: Seq<Seq<char>>,
    agent: Option<Seq<char>>,
    ts: Seq<char>,
)
    requires
        forall|i: int|
            0 <= i < ids.len() ==> (#[trigger] task_of(c, ids[i])) is Some && task_of(c, ids[i])->0.owner is None,
    ensures
        release_outcome(c, ids, false, false, agent, ts) == Ok::<(Seq<char>, nat), TaskFailure>((c, 0)),
{
    lemma_release_all_unowned(c, ids, agent, ts, 0);
}

proof fn lemma_find_char_none(s: Seq<char>, c: char)
    ensures
        find_char(s, c) is None <==> forall|i: int| 0 <= i < s.len() ==> s[i] != c,
    decreases s.len(),
{
    if s.len() > 0 {
        lemma_find_char_none(s.skip(1), c);
        if s[0] != c {
            assert forall|i: int| 0 < i < s.len() implies (s[i] != c <==> s.skip(1)[i - 1] != c) by {}
            if find_char(s.skip(1), c) is None {
                assert forall|i: int| 0 <= i < s.len() implies s[i] != c by {
                    if i > 0 {
                        assert(s.skip(1)[i - 1] == s[i]);
                    }
                }
            } else {
                let i = choose|i: int| 0 <= i < s.skip(1).len() && s.skip(1)[i] == c;
                assert(s[i + 1] == c);
            }
        }
    }
}

proof fn lemma_find_char_first(s: Seq<char>, c: char)
    ensures
        find_char(s, c) matches Some(k) ==> k < s.len() && s[k as int] == c && forall|j: int|
            0 <= j < k ==> s[j] != c,
    decreases s.len(),
{
    if s.len() > 0 && s[0] != c {
        lemma_find_char_first(s.skip(1), c);
        if let Some(k) = find_char(s, c) {
            assert forall|j: int| 0 <= j < k implies s[j] != c by {
                if j > 0 {
                    assert(s.skip(1)[j - 1] == s[j]);
                }
            }
        }
    }
}

proof fn lemma_trim_end_prefix(s: Seq<char>)
    ensures
        trim_end(s).len() <= s.len(),
        trim_end(s) == s.take(trim_end(s).len() as int),
    decreases s.len(),
{
    if s.len() > 0 && crate::text::is_space(s.last()) {
        lemma_trim_end_prefix(s.drop_last());
        assert(s.drop_last().take(trim_end(s).len() as int) =~= s.take(trim_end(s).len() as int));
    } else {
        assert(s.take(s.len() as int) =~= s);
    }
}

proof fn lemma_trim_start_suffix(s: Seq<char>)
    ensures
        trim_start_len(s) <= s.len(),
        crate::text::trim_start(s) == s.skip(s.len() - trim_start_len(s)),
    decreases s.len(),
{
    if s.len() > 0 && crate::text::is_space(s[0]) {
        lemma_trim_start_suffix(s.skip(1));
        assert(s.skip(1).skip(s.skip(1).len() - trim_start_len(s)) =~= s.skip(s.len() - trim_start_len(s)));
    } else {
        assert(s.skip(0) =~= s);
    }
}

spec fn trim_start_len(s: Seq<char>) -> nat {
    crate::text::trim_start(s).len()
}

/// A line released from its owner shows no owner: it holds no `'@'`, so an
/// entry made of it reads as unowned.
pub proof fn lemma_released_line_unowned(line: Seq<char>, done: bool)
    ensures
        find_char(set_checkbox(strip_owner(line), done), '@') is None,
        crate::task::entry_owner(trim(set_checkbox(strip_owner(line), done))) is None,
{
    let s = strip_owner(line);
    lemma_find_char_first(line, '@');
    lemma_find_char_none(line, '@');
    assert forall|i: int| 0 <= i < s.len() implies s[i] != '@' by {
        if let Some(at) = find_char(line, '@') {
            lemma_trim_end_prefix(line.take(at as int));
        }
    }
    let f = set_checkbox(s, done);
    reveal_strlit("- [x]");
    reveal_strlit("- [ ]");
    assert forall|i: int| 0 <= i < f.len() implies f[i] != '@' by {
        if done && starts_with(s, "- [ ]"@) {
            if i >= 5 {
                assert(f[i] == s[i]);
            }
        } else if !done && starts_with(s, "- [x]"@) {
            if i >= 5 {
                assert(f[i] == s[i]);
            }
        }
    }
    lemma_find_char_none(f, '@');
    let tf = trim(f);
    lemma_trim_start_suffix(f);
    let ts = crate::text::trim_start(f);
    lemma_trim_end_prefix(ts);
    assert forall|i: int| 0 <= i < tf.len() implies tf[i] != '@' by {
        assert(tf[i] == ts[i]);
        assert(ts[i] == f[f.len() - trim_start_len(f) + i]);
    }
    lemma_find_char_none(tf, '@');
}

/// Releasing an entry line is idempotent: releasing the released line again
/// (with the same `done`) gives the same line.
pub proof fn lemma_release_line_idempotent(line: Seq<char>, done: bool)
    ensures
        set_checkbox(strip_owner(set_checkbox(strip_owner(line), done)), done) == set_checkbox(
            strip_owner(line),
            done,
        ),
{
    let f = set_checkbox(strip_owner(line), done);
    lemma_released_line_unowned(line, done);
    assert(strip_owner(f) == f);
    let x = strip_owner(line);
    reveal_strlit("- [x]");
    reveal_strlit("- [ ]");
    if done && starts_with(x, "- [ ]"@) {
        assert(f.take(5) =~= "- [x]"@);
        assert(f[3] != ' ');
        assert(!starts_with(f, "- [ ]"@)) by {
            if starts_with(f, "- [ ]"@) {
                assert(f.take(5)[3] == ' ');
            }
        }
    } else if !done && starts_with(x, "- [x]"@) {
        assert(f.take(5) =~= "- [ ]"@);
        assert(!starts_with(f, "- [x]"@)) by {
            if starts_with(f, "- [x]"@) {
                assert(f.take(5)[3] == 'x');
            }
        }
    }
}

} // verus!

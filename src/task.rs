//! The task file model: tasks are derived from the reference definitions
//! and the checklist entries of one markdown file.
use vstd::prelude::*;
use crate::markdown::{
    extract_frontmatter_prefix, extract_references, frontmatter_prefix, get_reference_dest,
    lookup_dest, opt_view, pairs_view, references,
};
use crate::note_resolver::{all_digits, digits_value, is_digit};
use crate::text::{
    strs,
    chars_of, contains_chars, contains_seq, find_char, find_char_index, first_occurrence,
    first_occurrence_index, lines_of, slice_chars, split_lines, starts_with, starts_with_chars,
    string_of, trim, trim_chars, views,
};

verus! {

/// Where a task stands.
#[derive(Debug, Clone, Copy, PartialEq, Eq, Structural)]
pub enum TaskStatus {
    /// A reference exists, no checklist entry.
    Backlog,
    /// An unchecked checklist entry exists.
    Doing,
    /// The checklist entry is checked.
    Done,
}

/// A task as read from the task file.
#[derive(Debug, Clone)]
pub struct Task {
    pub id: String,
    pub title: Option<String>,
    pub node_ref: String,
    pub status: TaskStatus,
    pub owner: Option<String>,
    pub comments: Vec<String>,
}

/// Read-only view of a task file.
pub struct TaskFileReader {
    content: String,
    prefix: String,
}

/// The default id prefix.
pub open spec fn default_prefix() -> Seq<char> {
    "TASK-"@
}

/// A number as `str::parse::<u32>` reads it: an optional `+`, then at
/// least one digit, the value fitting in 32 bits.
pub open spec fn parse_u32(s: Seq<char>) -> Option<nat> {
    let d = if s.len() > 0 && s[0] == '+' {
        s.skip(1)
    } else {
        s
    };
    if d.len() > 0 && all_digits(d) && digits_value(d) <= u32::MAX {
        Some(digits_value(d))
    } else {
        None
    }
}

/// The number that an id carries after the prefix (0 when it carries none).
pub open spec fn id_number(id: Seq<char>, prefix: Seq<char>) -> nat {
    if starts_with(id, prefix) {
        match parse_u32(id.skip(prefix.len() as int)) {
            Some(n) => n,
            None => 0,
        }
    } else {
        0
    }
}

/// The largest number carried by the ids of the references.
pub open spec fn max_id_number(refs: Seq<(Seq<char>, Seq<char>)>, prefix: Seq<char>) -> nat
    decreases refs.len(),
{
    if refs.len() == 0 {
        0
    } else {
        let m = max_id_number(refs.drop_last(), prefix);
        let k = id_number(refs.last().0, prefix);
        if k > m {
            k
        } else {
            m
        }
    }
}

pub open spec fn digit_chars() -> Seq<char> {
    seq!['0', '1', '2', '3', '4', '5', '6', '7', '8', '9']
}

/// The decimal digits of `n`.
pub open spec fn decimal(n: nat) -> Seq<char>
    decreases n,
{
    if n < 10 {
        seq![digit_chars()[n as int]]
    } else {
        decimal(n / 10).push(digit_chars()[(n % 10) as int])
    }
}

/// `n` in decimal, padded with zeros to at least two digits.
pub open spec fn pad2(n: nat) -> Seq<char> {
    if n < 10 {
        seq!['0', digit_chars()[n as int]]
    } else {
        decimal(n)
    }
}

/// The id that the next task gets.
pub open spec fn next_id(refs: Seq<(Seq<char>, Seq<char>)>, prefix: Seq<char>) -> Seq<char> {
    prefix + pad2(max_id_number(refs, prefix) + 1)
}

/// The id of the first reference whose destination is `node_ref`.
pub open spec fn id_for_node(refs: Seq<(Seq<char>, Seq<char>)>, node_ref: Seq<char>) -> Option<
    Seq<char>,
>
    decreases refs.len(),
{
    if refs.len() == 0 {
        None
    } else if refs[0].1 == node_ref {
        Some(refs[0].0)
    } else {
        id_for_node(refs.skip(1), node_ref)
    }
}

/// `[id]`.
pub open spec fn id_tag(id: Seq<char>) -> Seq<char> {
    seq!['['] + id + seq![']']
}

/// Whether a line is a checklist entry of the task `id`.
pub open spec fn is_entry_line(line: Seq<char>, id: Seq<char>) -> bool {
    starts_with(trim(line), "- ["@) && contains_seq(line, id_tag(id))
}

/// The index of the first checklist entry of `id` among `ls`.
pub open spec fn first_entry(ls: Seq<Seq<char>>, id: Seq<char>) -> Option<nat>
    decreases ls.len(),
{
    if ls.len() == 0 {
        None
    } else if is_entry_line(ls[0], id) {
        Some(0)
    } else {
        match first_entry(ls.skip(1), id) {
            Some(k) => Some(k + 1),
            None => None,
        }
    }
}

/// What a scan of the lines has gathered about one task.
pub struct TaskScan {
    pub title: Option<Seq<char>>,
    pub owner: Option<Seq<char>>,
    pub done: bool,
    pub comments: Seq<Seq<char>>,
    pub in_task: bool,
    pub in_body: bool,
}

/// The title of a trimmed entry line: between `"] ["` and `"][id"`.
pub open spec fn entry_title(t: Seq<char>, id: Seq<char>) -> Option<Seq<char>> {
    match first_occurrence(t, "] ["@) {
        Some(st) => {
            let rest = t.skip(st as int + 3);
            match first_occurrence(rest, "]["@ + id) {
                Some(e) => Some(rest.take(e as int)),
                None => None,
            }
        },
        None => None,
    }
}

/// The owner marker of a trimmed entry line: from its first `'@'` on.
pub open spec fn entry_owner(t: Seq<char>) -> Option<Seq<char>> {
    match find_char(t, '@') {
        Some(a) => Some(trim(t.skip(a as int))),
        None => None,
    }
}

/// One step of the scan: an entry line of the task sets the checkbox state,
/// the title and the owner it shows and opens the task's comment block;
/// another entry line closes it; a `"  - "` line inside it is a comment;
/// other non-blank unindented text closes it.
pub open spec fn scan_step(s: TaskScan, line: Seq<char>, id: Seq<char>) -> TaskScan {
    let t = trim(line);
    if starts_with(t, "- ["@) {
        if contains_seq(line, id_tag(id)) {
            let marked = first_occurrence(t, "] ["@) is Some;
            TaskScan {
                title: if marked && entry_title(t, id) is Some {
                    entry_title(t, id)
                } else {
                    s.title
                },
                owner: if marked && entry_owner(t) is Some {
                    entry_owner(t)
                } else {
                    s.owner
                },
                done: if t.len() > 3 {
                    t[3] == 'x'
                } else {
                    s.done
                },
                comments: s.comments,
                in_task: true,
                in_body: true,
            }
        } else {
            TaskScan { in_task: false, ..s }
        }
    } else if s.in_task && starts_with(line, "  - "@) {
        TaskScan {
            comments: s.comments.push(
                if t.len() >= 2 {
                    t.skip(2)
                } else {
                    Seq::empty()
                },
            ),
            ..s
        }
    } else if s.in_task && t.len() > 0 && !starts_with(line, "  "@) {
        TaskScan { in_task: false, ..s }
    } else {
        s
    }
}

pub open spec fn scan_start() -> TaskScan {
    TaskScan {
        title: None,
        owner: None,
        done: false,
        comments: Seq::empty(),
        in_task: false,
        in_body: false,
    }
}

/// The scan of all of `ls`.
pub open spec fn scan(ls: Seq<Seq<char>>, id: Seq<char>) -> TaskScan
    decreases ls.len(),
{
    if ls.len() == 0 {
        scan_start()
    } else {
        scan_step(scan(ls.drop_last(), id), ls.last(), id)
    }
}

/// The status that a scan shows.
pub open spec fn scan_status(s: TaskScan) -> TaskStatus {
    if s.in_body {
        if s.done {
            TaskStatus::Done
        } else {
            TaskStatus::Doing
        }
    } else {
        TaskStatus::Backlog
    }
}

/// Whether `t` is the task `id` of the text `c`.
pub open spec fn task_matches(t: Task, c: Seq<char>, id: Seq<char>) -> bool {
    let ls = lines_of(c);
    let s = scan(ls, id);
    &&& lookup_dest(ls, id) is Some
    &&& t.id@ == id
    &&& t.node_ref@ == lookup_dest(ls, id)->0
    &&& opt_view(t.title) == s.title
    &&& opt_view(t.owner) == s.owner
    &&& t.status == scan_status(s)
    &&& strs(t.comments@) == s.comments
}

/// The task `id` of `c`, if it has a reference.
pub open spec fn task_of(c: Seq<char>, id: Seq<char>) -> Option<TaskScan> {
    if lookup_dest(lines_of(c), id) is Some {
        Some(scan(lines_of(c), id))
    } else {
        None
    }
}

proof fn lemma_digits_prefix(s: Seq<char>, k: int)
    requires
        0 <= k <= s.len(),
        all_digits(s),
    ensures
        digits_value(s.take(k)) <= digits_value(s),
    decreases s.len(),
{
    if k < s.len() {
        assert(s.take(k) =~= s.drop_last().take(k));
        lemma_digits_prefix(s.drop_last(), k);
    } else {
        assert(s.take(k) =~= s);
    }
}

/// `s` read as a `u32`, as `parse_u32` describes.
pub fn parse_u32_chars(s: &[char]) -> (r: Option<u32>)
    ensures
        match parse_u32(s@) {
            Some(n) => r == Some(n as u32),
            None => r is None,
        },
{
    let start: usize = if s.len() > 0 && s[0] == '+' { 1 } else { 0 };
    let d = slice_chars(s, start, s.len());
    assert(d@ == (if s@.len() > 0 && s@[0] == '+' { s@.skip(1) } else { s@ }));
    if d.len() == 0 {
        return None;
    }
    let mut v: u64 = 0;
    let mut i: usize = 0;
    assert(d@.take(0) =~= Seq::<char>::empty());
    while i < d.len()
        invariant
            0 <= i <= d.len(),
            v as nat == digits_value(d@.take(i as int)),
            v <= u32::MAX,
            d@ == (if s@.len() > 0 && s@[0] == '+' { s@.skip(1) } else { s@ }),
            d@.len() > 0,
            forall|j: int| 0 <= j < i ==> is_digit(#[trigger] d@[j]),
        decreases d.len() - i,
    {
        let c = d[i];
        if !('0' <= c && c <= '9') {
            assert(!is_digit(d@[i as int]));
            return None;
        }
        assert(d@.take(i + 1).drop_last() =~= d@.take(i as int));
        v = v * 10 + ((c as u32) - ('0' as u32)) as u64;
        i += 1;
        if v > u32::MAX as u64 {
            let ok = all_digits_from(&d, i);
            if ok {
                proof {
                    lemma_digits_prefix(d@, i as int);
                }
            }
            return None;
        }
    }
    assert(d@.take(d@.len() as int) =~= d@);
    Some(v as u32)
}

fn all_digits_from(d: &Vec<char>, from: usize) -> (r: bool)
    requires
        from <= d@.len(),
        forall|j: int| 0 <= j < from ==> is_digit(#[trigger] d@[j]),
    ensures
        r == all_digits(d@),
{
    let mut i: usize = from;
    while i < d.len()
        invariant
            from <= i <= d.len(),
            forall|j: int| 0 <= j < i ==> is_digit(#[trigger] d@[j]),
        decreases d.len() - i,
    {
        if !('0' <= d[i] && d[i] <= '9') {
            return false;
        }
        i += 1;
    }
    true
}

fn digit_char(d: u64) -> (c: char)
    requires
        d < 10,
    ensures
        c == digit_chars()[d as int],
{
    let ds = vec!['0', '1', '2', '3', '4', '5', '6', '7', '8', '9'];
    assert(ds@ == digit_chars());
    ds[d as usize]
}

/// The decimal digits of `n`.
pub fn decimal_chars(n: u64) -> (r: Vec<char>)
    ensures
        r@ == decimal(n as nat),
    decreases n,
{
    if n < 10 {
        vec![digit_char(n)]
    } else {
        let mut v = decimal_chars(n / 10);
        v.push(digit_char(n % 10));
        v
    }
}

/// `n` padded with zeros to at least two digits.
pub fn pad2_chars(n: u64) -> (r: Vec<char>)
    ensures
        r@ == pad2(n as nat),
{
    if n < 10 {
        let r = vec!['0', digit_char(n)];
        assert(r@ =~= pad2(n as nat));
        r
    } else {
        decimal_chars(n)
    }
}

impl TaskFileReader {
    /// The text read.
    pub closed spec fn text(&self) -> Seq<char> {
        self.content@
    }

    /// The id prefix in force.
    pub closed spec fn id_prefix(&self) -> Seq<char> {
        self.prefix@
    }

    /// A reader of `content` with the default prefix `TASK-`.
    pub fn new(content: String) -> (r: Self)
        ensures
            r.text() == content@,
            r.id_prefix() == default_prefix(),
    {
        TaskFileReader { content, prefix: "TASK-".to_owned() }
    }

    /// A reader of `content` with the prefix of its frontmatter, `TASK-`
    /// when it has none.
    pub fn parse(content: String) -> (r: Self)
        ensures
            r.text() == content@,
            r.id_prefix() == match frontmatter_prefix(lines_of(content@)) {
                Some(p) => p,
                None => default_prefix(),
            },
    {
        let prefix = match extract_frontmatter_prefix(content.as_str()) {
            Some(p) => p,
            None => "TASK-".to_owned(),
        };
        TaskFileReader { content, prefix }
    }

    /// The id prefix.
    pub fn get_prefix(&self) -> (r: &str)
        ensures
            r@ == self.id_prefix(),
    {
        self.prefix.as_str()
    }

    /// The text.
    pub fn content(&self) -> (r: &str)
        ensures
            r@ == self.text(),
    {
        self.content.as_str()
    }

    /// All reference definitions `(task id, node reference)`, in order.
    pub fn get_references(&self) -> (r: Vec<(String, String)>)
        ensures
            pairs_view(r@) == references(self.text()),
    {
        extract_references(self.content.as_str())
    }

    /// The next free id: the prefix and one more than the largest number
    /// among the ids, padded to two digits.
    pub fn next_task_id(&self) -> (r: String)
        ensures
            r@ == next_id(references(self.text()), self.id_prefix()),
    {
        let refs = self.get_references();
        let p = chars_of(self.prefix.as_str());
        let ghost all = pairs_view(refs@);
        let mut max_num: u64 = 0;
        let mut i: usize = 0;
        assert(all.take(0) =~= Seq::<(Seq<char>, Seq<char>)>::empty());
        while i < refs.len()
            invariant
                0 <= i <= refs.len(),
                all == pairs_view(refs@),
                p@ == self.id_prefix(),
                max_num as nat == max_id_number(all.take(i as int), p@),
                max_num <= u32::MAX,
            decreases refs.len() - i,
        {
            proof {
                assert(all.take(i + 1).drop_last() =~= all.take(i as int));
                assert(all.take(i + 1).last() == all[i as int]);
            }
            let id = chars_of(refs[i].0.as_str());
            let mut k: u64 = 0;
            if starts_with_chars(id.as_slice(), p.as_slice()) {
                let rest = slice_chars(id.as_slice(), p.len(), id.len());
                assert(rest@ =~= id@.skip(p@.len() as int));
                match parse_u32_chars(rest.as_slice()) {
                    Some(n) => {
                        k = n as u64;
                    },
                    None => {},
                }
            }
            if k > max_num {
                max_num = k;
            }
            i += 1;
        }
        assert(all.take(refs.len() as int) =~= all);
        let mut out = p;
        let digits = pad2_chars(max_num + 1);
        crate::text::extend_chars(&mut out, digits.as_slice());
        string_of(out.as_slice())
    }

    /// The id of the first reference to `node_ref`.
    pub fn find_by_node_ref(&self, node_ref: &str) -> (r: Option<String>)
        ensures
            opt_view(r) == id_for_node(references(self.text()), node_ref@),
    {
        let refs = self.get_references();
        let want = chars_of(node_ref);
        let ghost all = pairs_view(refs@);
        let mut i: usize = 0;
        assert(all.skip(0) =~= all);
        while i < refs.len()
            invariant
                0 <= i <= refs.len(),
                all == pairs_view(refs@),
                all == references(self.text()),
                want@ == node_ref@,
                id_for_node(all, node_ref@) == id_for_node(all.skip(i as int), node_ref@),
            decreases refs.len() - i,
        {
            assert(all.skip(i as int)[0] == all[i as int]);
            assert(all.skip(i as int).skip(1) =~= all.skip(i + 1));
            let dest = chars_of(refs[i].1.as_str());
            if crate::text::chars_eq(dest.as_slice(), want.as_slice()) {
                let id = chars_of(refs[i].0.as_str());
                return Some(string_of(id.as_slice()));
            }
            i += 1;
        }
        None
    }

    /// The node reference of a task id (the first definition, ASCII case
    /// ignored).
    pub fn get_node_ref(&self, task_id: &str) -> (r: Option<String>)
        ensures
            opt_view(r) == lookup_dest(lines_of(self.text()), task_id@),
    {
        get_reference_dest(self.content.as_str(), task_id)
    }
}

fn entry_title_chars(t: &[char], id: &[char]) -> (r: Option<Vec<char>>)
    ensures
        match entry_title(t@, id@) {
            Some(x) => r matches Some(y) && y@ == x,
            None => r is None,
        },
{
    let mark = chars_of("] [");
    proof {
        reveal_strlit("] [");
    }
    assert(mark@.len() == 3);
    let ms = mark.as_slice();
    assert(ms@ == mark@);
    match first_occurrence_index(t, ms) {
        Some(st) => {
            assert(st + 3 <= t@.len());
            assert(t@.len() == t.len());
            let rest = slice_chars(t, st + 3, t.len());
            assert(rest@ =~= t@.skip(st as int + 3));
            let mut close = chars_of("][");
            crate::text::extend_chars(&mut close, id);
            match first_occurrence_index(rest.as_slice(), close.as_slice()) {
                Some(e) => {
                    let x = slice_chars(rest.as_slice(), 0, e);
                    assert(x@ =~= rest@.take(e as int));
                    Some(x)
                },
                None => None,
            }
        },
        None => None,
    }
}

fn entry_owner_chars(t: &[char]) -> (r: Option<Vec<char>>)
    ensures
        match entry_owner(t@) {
            Some(x) => r matches Some(y) && y@ == x,
            None => r is None,
        },
{
    match find_char_index(t, '@') {
        Some(a) => {
            let rest = slice_chars(t, a, t.len());
            assert(rest@ =~= t@.skip(a as int));
            Some(trim_chars(rest.as_slice()))
        },
        None => None,
    }
}

/// The id tag `[id]`.
fn id_tag_chars(id: &[char]) -> (r: Vec<char>)
    ensures
        r@ == id_tag(id@),
{
    let mut r = vec!['['];
    crate::text::extend_chars(&mut r, id);
    r.push(']');
    assert(r@ =~= id_tag(id@));
    r
}

fn is_entry_line_chars(line: &[char], tag: &[char], Ghost(id): Ghost<Seq<char>>) -> (r: bool)
    requires
        tag@ == id_tag(id),
    ensures
        r == is_entry_line(line@, id),
{
    let t = trim_chars(line);
    let open = chars_of("- [");
    starts_with_chars(t.as_slice(), open.as_slice()) && contains_chars(line, tag)
}

fn opt_chars_view(o: &Option<Vec<char>>) -> (r: Option<String>)
    ensures
        opt_view(r) == match o {
            Some(v) => Some(v@),
            None => None::<Seq<char>>,
        },
{
    match o {
        Some(v) => Some(string_of(v.as_slice())),
        None => None,
    }
}

impl TaskFileReader {
    /// The index and text of the first checklist entry of `task_id`.
    pub fn find_task_entry_line(&self, task_id: &str) -> (r: Option<(usize, String)>)
        ensures
            match first_entry(lines_of(self.text()), task_id@) {
                Some(k) => r matches Some((i, l)) && i == k && k < lines_of(self.text()).len() && l@
                    == lines_of(self.text())[k as int],
                None => r is None,
            },
    {
        let cs = chars_of(self.content.as_str());
        let id = chars_of(task_id);
        let tag = id_tag_chars(id.as_slice());
        let ls = split_lines(cs.as_slice());
        let ghost all = views(ls@);
        let mut i: usize = 0;
        assert(all.skip(0) =~= all);
        while i < ls.len()
            invariant
                0 <= i <= ls.len(),
                all == views(ls@),
                all == lines_of(self.text()),
                tag@ == id_tag(task_id@),
                first_entry(all, task_id@) == (match first_entry(all.skip(i as int), task_id@) {
                    Some(k) => Some((k + i) as nat),
                    None => None::<nat>,
                }),
            decreases ls.len() - i,
        {
            assert(all.skip(i as int)[0] == ls[i as int]@);
            assert(all.skip(i as int).skip(1) =~= all.skip(i + 1));
            if is_entry_line_chars(ls[i].as_slice(), tag.as_slice(), Ghost(task_id@)) {
                return Some((i, string_of(ls[i].as_slice())));
            }
            i += 1;
        }
        None
    }

    /// The task `task_id`, when a reference defines it: its node reference,
    /// and the status, title, owner and comments that its checklist entries
    /// show.
    pub fn get_task(&self, task_id: &str) -> (r: Option<Task>)
        ensures
            match r {
                Some(t) => task_matches(t, self.text(), task_id@),
                None => lookup_dest(lines_of(self.text()), task_id@) is None,
            },
    {
        let node_ref = match self.get_node_ref(task_id) {
            Some(n) => n,
            None => {
                return None;
            },
        };
        let cs = chars_of(self.content.as_str());
        let id = chars_of(task_id);
        let tag = id_tag_chars(id.as_slice());
        let open = chars_of("- [");
        let comment_mark = chars_of("  - ");
        let indent = chars_of("  ");
        let title_mark = chars_of("] [");
        let ls = split_lines(cs.as_slice());
        let ghost all = views(ls@);
        let mut title: Option<Vec<char>> = None;
        let mut owner: Option<Vec<char>> = None;
        let mut done = false;
        let mut comments: Vec<String> = Vec::new();
        let mut in_task = false;
        let mut in_body = false;
        let mut i: usize = 0;
        assert(all.take(0) =~= Seq::<Seq<char>>::empty());
        while i < ls.len()
            invariant
                0 <= i <= ls.len(),
                all == views(ls@),
                all == lines_of(self.text()),
                id@ == task_id@,
                tag@ == id_tag(task_id@),
                open@ == "- ["@,
                comment_mark@ == "  - "@,
                indent@ == "  "@,
                title_mark@ == "] ["@,
                ({
                    let s = scan(all.take(i as int), task_id@);
                    &&& s.title == match title {
                        Some(v) => Some(v@),
                        None => None::<Seq<char>>,
                    }
                    &&& s.owner == match owner {
                        Some(v) => Some(v@),
                        None => None::<Seq<char>>,
                    }
                    &&& s.done == done
                    &&& s.comments == strs(comments@)
                    &&& s.in_task == in_task
                    &&& s.in_body == in_body
                }),
            decreases ls.len() - i,
        {
            proof {
                assert(all.take(i + 1).drop_last() =~= all.take(i as int));
                assert(all.take(i + 1).last() == ls[i as int]@);
            }
            let line = ls[i].as_slice();
            let t = trim_chars(line);
            if starts_with_chars(t.as_slice(), open.as_slice()) {
                if contains_chars(line, tag.as_slice()) {
                    let marked = first_occurrence_index(t.as_slice(), title_mark.as_slice()).is_some();
                    if marked {
                        match entry_title_chars(t.as_slice(), id.as_slice()) {
                            Some(x) => {
                                title = Some(x);
                            },
                            None => {},
                        }
                        match entry_owner_chars(t.as_slice()) {
                            Some(x) => {
                                owner = Some(x);
                            },
                            None => {},
                        }
                    }
                    if t.len() > 3 {
                        done = t[3] == 'x';
                    }
                    in_task = true;
                    in_body = true;
                } else {
                    in_task = false;
                }
            } else if in_task && starts_with_chars(line, comment_mark.as_slice()) {
                let c = if t.len() >= 2 {
                    slice_chars(t.as_slice(), 2, t.len())
                } else {
                    Vec::new()
                };
                assert(c@ =~= (if t@.len() >= 2 { t@.skip(2) } else { Seq::empty() }));
                let ghost c0 = comments@;
                comments.push(string_of(c.as_slice()));
                assert(strs(comments@) =~= strs(c0).push(c@));
            } else if in_task && t.len() > 0 && !starts_with_chars(line, indent.as_slice()) {
                in_task = false;
            }
            i += 1;
        }
        assert(all.take(ls.len() as int) =~= all);
        let status = if in_body {
            if done {
                TaskStatus::Done
            } else {
                TaskStatus::Doing
            }
        } else {
            TaskStatus::Backlog
        };
        Some(
            Task {
                id: task_id.to_owned(),
                title: opt_chars_view(&title),
                node_ref,
                status,
                owner: opt_chars_view(&owner),
                comments,
            },
        )
    }
}

/// The ids of the references that define a task (their first definition
/// has a destination), in order.
pub open spec fn task_ids(c: Seq<char>, refs: Seq<(Seq<char>, Seq<char>)>) -> Seq<Seq<char>>
    decreases refs.len(),
{
    if refs.len() == 0 {
        Seq::empty()
    } else {
        let r = task_ids(c, refs.drop_last());
        if lookup_dest(lines_of(c), refs.last().0) is Some {
            r.push(refs.last().0)
        } else {
            r
        }
    }
}

/// The indices of the `---` delimiter lines, in order.
pub open spec fn delimiters(ls: Seq<Seq<char>>) -> Seq<nat>
    decreases ls.len(),
{
    if ls.len() == 0 {
        Seq::empty()
    } else {
        let r = delimiters(ls.drop_last());
        if crate::markdown::is_delimiter(ls.last()) {
            r.push((ls.len() - 1) as nat)
        } else {
            r
        }
    }
}

/// The first index from `j` on whose line is not blank (the line count
/// when there is none).
pub open spec fn skip_blank(ls: Seq<Seq<char>>, j: nat) -> nat
    decreases ls.len() - j,
{
    if j >= ls.len() {
        j
    } else if trim(ls[j as int]).len() > 0 {
        j
    } else {
        skip_blank(ls, j + 1)
    }
}

/// Where the body starts: after the frontmatter's closing delimiter and the
/// blank lines that follow it; line 3 when there is no such delimiter.
pub open spec fn body_start(ls: Seq<Seq<char>>) -> nat {
    let d = delimiters(ls);
    if d.len() >= 2 {
        skip_blank(ls, d[1] + 1)
    } else {
        3
    }
}

/// Where the body ends: at the body/reference delimiter, else at the end.
pub open spec fn body_end(ls: Seq<Seq<char>>) -> nat {
    let d = delimiters(ls);
    if d.len() >= 3 {
        d[2]
    } else {
        ls.len()
    }
}

/// A header as written in the file: `## ` is added unless it starts with `##`.
pub open spec fn header_line(h: Seq<char>) -> Seq<char> {
    if starts_with(h, "##"@) {
        h
    } else {
        "## "@ + h
    }
}

/// The first line in `[lo, hi)` whose trimmed text is `h`.
pub open spec fn find_header(ls: Seq<Seq<char>>, h: Seq<char>, lo: nat, hi: nat) -> Option<nat>
    decreases hi - lo,
{
    if lo >= hi || lo >= ls.len() {
        None
    } else if trim(ls[lo as int]) == h {
        Some(lo)
    } else {
        find_header(ls, h, lo + 1, hi)
    }
}

/// Whether some line in `[lo, hi)` is a header.
pub open spec fn any_header(ls: Seq<Seq<char>>, lo: nat, hi: nat) -> bool {
    exists|k: int| lo <= k < hi && k < ls.len() && starts_with(trim(#[trigger] ls[k]), "##"@)
}

/// The message for a header that is missing.
pub open spec fn header_missing(h: Seq<char>) -> Seq<char> {
    "Header '"@ + header_line(h) + "' not found"@
}

/// Where a new checklist entry goes, and whether its header must be written
/// first: after the header when it exists; an error when it does not while
/// other headers do; at the body start otherwise.
pub open spec fn insert_point(ls: Seq<Seq<char>>, header: Option<Seq<char>>) -> Result<
    (nat, bool),
    Seq<char>,
> {
    let bs = body_start(ls);
    let be = body_end(ls);
    match header {
        None => Ok((bs, false)),
        Some(h) => match find_header(ls, header_line(h), bs, be) {
            Some(k) => Ok((k + 1, false)),
            None => if any_header(ls, bs, be) {
                Err(header_missing(h))
            } else {
                Ok((bs, true))
            },
        },
    }
}

/// Whether a line looks like a reference definition.
pub open spec fn is_ref_line(line: Seq<char>) -> bool {
    starts_with(trim(line), "["@) && contains_seq(line, "]:"@)
}

/// The last line that looks like a reference definition.
pub open spec fn last_ref_line(ls: Seq<Seq<char>>) -> Option<nat>
    decreases ls.len(),
{
    if ls.len() == 0 {
        None
    } else if is_ref_line(ls.last()) {
        Some((ls.len() - 1) as nat)
    } else {
        last_ref_line(ls.drop_last())
    }
}

/// Where a new reference definition goes: after the last one; else after
/// the body/reference delimiter and its blank lines; else at the end.
pub open spec fn ref_append_point(ls: Seq<Seq<char>>) -> nat {
    match last_ref_line(ls) {
        Some(i) => i + 1,
        None => {
            let d = delimiters(ls);
            if d.len() >= 3 {
                skip_blank(ls, d[2] + 1)
            } else {
                ls.len()
            }
        },
    }
}

/// The mathematical content of an optional string slice.
pub open spec fn opt_str(o: Option<&str>) -> Option<Seq<char>> {
    match o {
        Some(s) => Some(s@),
        None => None,
    }
}

pub open spec fn point_view(r: Result<(usize, bool), String>) -> Result<(nat, bool), Seq<char>> {
    match r {
        Ok((p, b)) => Ok((p as nat, b)),
        Err(m) => Err(m@),
    }
}

/// The first non-blank line from `j` on (see `skip_blank`).
pub(crate) fn skip_blank_of(ls: &Vec<Vec<char>>, j: usize) -> (r: usize)
    requires
        j <= ls.len(),
    ensures
        r as nat == skip_blank(views(ls@), j as nat),
        r <= ls.len(),
{
    skip_blank_index(ls, j)
}

/// The second and third delimiter lines (see `delimiters`).
pub(crate) fn delimiter_pair_of(ls: &Vec<Vec<char>>) -> (r: (Option<usize>, Option<usize>))
    ensures
        ({
            let d = delimiters(views(ls@));
            &&& r.0 == (if d.len() >= 2 { Some(d[1] as usize) } else { None::<usize> })
            &&& r.1 == (if d.len() >= 3 { Some(d[2] as usize) } else { None::<usize> })
            &&& forall|k: int| 0 <= k < d.len() ==> d[k] < ls.len()
        }),
{
    delimiter_pair(ls)
}

fn skip_blank_index(ls: &Vec<Vec<char>>, j: usize) -> (r: usize)
    requires
        j <= ls.len(),
    ensures
        r as nat == skip_blank(views(ls@), j as nat),
        r <= ls.len(),
{
    let ghost all = views(ls@);
    let mut k: usize = j;
    while k < ls.len()
        invariant
            j <= k <= ls.len(),
            all == views(ls@),
            skip_blank(all, j as nat) == skip_blank(all, k as nat),
        decreases ls.len() - k,
    {
        assert(all[k as int] == ls[k as int]@);
        let t = trim_chars(ls[k].as_slice());
        if t.len() > 0 {
            return k;
        }
        k += 1;
    }
    k
}

/// The second and third delimiter lines.
fn delimiter_pair(ls: &Vec<Vec<char>>) -> (r: (Option<usize>, Option<usize>))
    ensures
        ({
            let d = delimiters(views(ls@));
            &&& r.0 == (if d.len() >= 2 { Some(d[1] as usize) } else { None::<usize> })
            &&& r.1 == (if d.len() >= 3 { Some(d[2] as usize) } else { None::<usize> })
            &&& forall|k: int| 0 <= k < d.len() ==> d[k] < ls.len()
        }),
{
    let ghost all = views(ls@);
    let mut second: Option<usize> = None;
    let mut third: Option<usize> = None;
    let mut count: usize = 0;
    let mut i: usize = 0;
    assert(all.take(0) =~= Seq::<Seq<char>>::empty());
    while i < ls.len()
        invariant
            0 <= i <= ls.len(),
            all == views(ls@),
            ({
                let d = delimiters(all.take(i as int));
                &&& count == d.len()
                &&& count <= i
                &&& second == (if d.len() >= 2 { Some(d[1] as usize) } else { None::<usize> })
                &&& third == (if d.len() >= 3 { Some(d[2] as usize) } else { None::<usize> })
                &&& forall|k: int| 0 <= k < d.len() ==> d[k] < i
            }),
        decreases ls.len() - i,
    {
        proof {
            assert(all.take(i + 1).drop_last() =~= all.take(i as int));
            assert(all.take(i + 1).last() == ls[i as int]@);
        }
        if crate::markdown::is_delimiter_line(ls[i].as_slice()) {
            count += 1;
            if count == 2 {
                second = Some(i);
            } else if count == 3 {
                third = Some(i);
            }
        }
        i += 1;
    }
    assert(all.take(ls.len() as int) =~= all);
    (second, third)
}

impl TaskFileReader {
    /// Every task that a reference defines, in reference order.
    pub fn all_tasks(&self) -> (r: Vec<Task>)
        ensures
            r@.len() == task_ids(self.text(), references(self.text())).len(),
            forall|k: int|
                0 <= k < r@.len() ==> task_matches(
                    #[trigger] r@[k],
                    self.text(),
                    task_ids(self.text(), references(self.text()))[k],
                ),
    {
        let refs = self.get_references();
        let ghost all = pairs_view(refs@);
        let mut out: Vec<Task> = Vec::new();
        let mut i: usize = 0;
        assert(all.take(0) =~= Seq::<(Seq<char>, Seq<char>)>::empty());
        while i < refs.len()
            invariant
                0 <= i <= refs.len(),
                all == pairs_view(refs@),
                all == references(self.text()),
                out@.len() == task_ids(self.text(), all.take(i as int)).len(),
                forall|k: int|
                    0 <= k < out@.len() ==> task_matches(
                        #[trigger] out@[k],
                        self.text(),
                        task_ids(self.text(), all.take(i as int))[k],
                    ),
            decreases refs.len() - i,
        {
            proof {
                assert(all.take(i + 1).drop_last() =~= all.take(i as int));
                assert(all.take(i + 1).last() == all[i as int]);
            }
            match self.get_task(refs[i].0.as_str()) {
                Some(t) => {
                    out.push(t);
                },
                None => {},
            }
            i += 1;
        }
        assert(all.take(refs.len() as int) =~= all);
        out
    }

    /// Where a new checklist entry goes (and whether its header must be
    /// written first), or an error naming a header that is missing while
    /// other headers exist.
    pub fn find_body_insert_point(&self, header: Option<&str>) -> (r: Result<(usize, bool), String>)
        ensures
            point_view(r) == insert_point(lines_of(self.text()), opt_str(header)),
    {
        let cs = chars_of(self.content.as_str());
        let ls = split_lines(cs.as_slice());
        let ghost all = views(ls@);
        let (second, third) = delimiter_pair(&ls);
        let bs: usize = match second {
            Some(i) => skip_blank_index(&ls, i + 1),
            None => 3,
        };
        let be: usize = match third {
            Some(i) => i,
            None => ls.len(),
        };
        if header.is_none() {
            return Ok((bs, false));
        }
        let h = header.unwrap();
        let hc = chars_of(h);
        let hashes = chars_of("##");
        let hl = if starts_with_chars(hc.as_slice(), hashes.as_slice()) {
            hc
        } else {
            let mut v = chars_of("## ");
            crate::text::extend_chars(&mut v, hc.as_slice());
            v
        };
        assert(hl@ == header_line(h@));
        let mut k: usize = bs;
        let mut seen = false;
        while k < be && k < ls.len()
            invariant
                bs <= k,
                (k <= be && k <= ls.len()) || k == bs,
                all == views(ls@),
                all == lines_of(self.text()),
                bs as nat == body_start(all),
                be as nat == body_end(all),
                hl@ == header_line(h@),
                opt_str(header) == Some(h@),
                hashes@ == "##"@,
                find_header(all, hl@, bs as nat, be as nat) == find_header(all, hl@, k as nat, be as nat),
                seen == exists|j: int| bs <= j < k && j < all.len() && starts_with(trim(#[trigger] all[j]), "##"@),
            decreases ls.len() - k,
        {
            assert(all[k as int] == ls[k as int]@);
            let t = trim_chars(ls[k].as_slice());
            if crate::text::chars_eq(t.as_slice(), hl.as_slice()) {
                assert(find_header(all, hl@, k as nat, be as nat) == Some(k as nat));
                assert(find_header(all, header_line(h@), body_start(all), body_end(all)) == Some(k as nat));
                let res: Result<(usize, bool), String> = Ok((k + 1, false));
                assert(point_view(res) == insert_point(all, Some(h@)));
                return res;
            }
            if starts_with_chars(t.as_slice(), hashes.as_slice()) {
                seen = true;
            }
            k += 1;
        }
        assert(seen == any_header(all, bs as nat, be as nat));
        if seen {
            let mut m = "Header '".to_owned();
            let hs = string_of(hl.as_slice());
            m.append(hs.as_str());
            m.append("' not found");
            return Err(m);
        }
        Ok((bs, true))
    }

    /// The line after the last reference definition (see `ref_append_point`).
    pub fn find_reference_append_point(&self) -> (r: usize)
        ensures
            r as nat == ref_append_point(lines_of(self.text())),
            r <= lines_of(self.text()).len(),
    {
        let cs = chars_of(self.content.as_str());
        let ls = split_lines(cs.as_slice());
        let ghost all = views(ls@);
        let open = chars_of("[");
        let close = chars_of("]:");
        let mut i: usize = ls.len();
        assert(all.take(i as int) =~= all);
        while i > 0
            invariant
                i <= ls.len(),
                all == views(ls@),
                all == lines_of(self.text()),
                open@ == "["@,
                close@ == "]:"@,
                last_ref_line(all) == last_ref_line(all.take(i as int)),
            decreases i,
        {
            assert(all.take(i as int).last() == ls[i - 1]@);
            assert(all.take(i as int).drop_last() =~= all.take(i - 1));
            let t = trim_chars(ls[i - 1].as_slice());
            if starts_with_chars(t.as_slice(), open.as_slice()) && contains_chars(
                ls[i - 1].as_slice(),
                close.as_slice(),
            ) {
                return i;
            }
            i -= 1;
        }
        let (_second, third) = delimiter_pair(&ls);
        match third {
            Some(d) => skip_blank_index(&ls, d + 1),
            None => ls.len(),
        }
    }
}

proof fn lemma_digit_char(d: nat)
    requires
        d < 10,
    ensures
        is_digit(digit_chars()[d as int]),
        (digit_chars()[d as int] as u32 - '0' as u32) as nat == d,
{
    let s = digit_chars();
    if d == 0 {
        assert(s[0] == '0');
    } else if d == 1 {
        assert(s[1] == '1');
    } else if d == 2 {
        assert(s[2] == '2');
    } else if d == 3 {
        assert(s[3] == '3');
    } else if d == 4 {
        assert(s[4] == '4');
    } else if d == 5 {
        assert(s[5] == '5');
    } else if d == 6 {
        assert(s[6] == '6');
    } else if d == 7 {
        assert(s[7] == '7');
    } else if d == 8 {
        assert(s[8] == '8');
    } else {
        assert(s[9] == '9');
    }
}

proof fn lemma_decimal_value(n: nat)
    ensures
        decimal(n).len() > 0,
        all_digits(decimal(n)),
        digits_value(decimal(n)) == n,
    decreases n,
{
    if n < 10 {
        lemma_digit_char(n);
        let s = seq![digit_chars()[n as int]];
        assert(s.drop_last() =~= Seq::<char>::empty());
        assert(digits_value(Seq::<char>::empty()) == 0);
        assert(s.last() == digit_chars()[n as int]);
        assert(digits_value(s) == digits_value(s.drop_last()) * 10 + (s.last() as u32 - '0' as u32) as nat);
    } else {
        lemma_decimal_value(n / 10);
        lemma_digit_char(n % 10);
        let d = decimal(n / 10);
        assert(decimal(n).drop_last() =~= d);
        assert(n / 10 * 10 + n % 10 == n) by (nonlinear_arith);
        assert(decimal(n).last() == digit_chars()[(n % 10) as int]);
        assert(digits_value(decimal(n)) == digits_value(d) * 10 + (decimal(n).last() as u32 - '0' as u32) as nat);
        assert forall|i: int| 0 <= i < decimal(n).len() implies is_digit(#[trigger] decimal(n)[i]) by {
            if i < d.len() {
                assert(decimal(n)[i] == d[i]);
            }
        }
    }
}

proof fn lemma_pad2_value(n: nat)
    ensures
        parse_u32(pad2(n)) == (if n <= u32::MAX { Some(n) } else { None::<nat> }),
{
    if n < 10 {
        lemma_digit_char(n);
        let s = pad2(n);
        assert(s.drop_last() =~= seq!['0']);
        assert(seq!['0'].drop_last() =~= Seq::<char>::empty());
        assert(digits_value(Seq::<char>::empty()) == 0);
        assert(seq!['0'].last() == '0');
        assert(digits_value(seq!['0']) == 0);
        assert(digits_value(s) == n);
        assert(s[0] == '0');
        assert(all_digits(s)) by {
            assert forall|i: int| 0 <= i < s.len() implies is_digit(#[trigger] s[i]) by {}
        }
    } else {
        lemma_decimal_value(n);
        let s = decimal(n);
        assert(s[0] != '+') by {
            assert(is_digit(s[0]));
        }
    }
}

/// Ids only grow: after a reference with the next id is added, the next
/// id carries a number one larger; a file without references starts at 1.
pub proof fn lemma_next_id_monotone(
    refs: Seq<(Seq<char>, Seq<char>)>,
    prefix: Seq<char>,
    dest: Seq<char>,
)
    requires
        max_id_number(refs, prefix) + 1 <= u32::MAX,
    ensures
        max_id_number(refs.push((next_id(refs, prefix), dest)), prefix) == max_id_number(refs, prefix) + 1,
        max_id_number(Seq::empty(), prefix) + 1 == 1,
{
    let m = max_id_number(refs, prefix);
    let id = next_id(refs, prefix);
    assert(id.take(prefix.len() as int) =~= prefix);
    assert(id.skip(prefix.len() as int) =~= pad2(m + 1));
    lemma_pad2_value(m + 1);
    assert(id_number(id, prefix) == m + 1);
    let r2 = refs.push((id, dest));
    assert(r2.drop_last() =~= refs);
}

} // verus!

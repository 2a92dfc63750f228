//! A capsa (a directory of notes) and its tag files.
use vstd::prelude::*;
use crate::edit::{apply_edits, apply_ops, op_views, EditOp, OpView};
use crate::resolve::CapsaRef;
use crate::text::{chars_of, contains_seq, lines_of, split_lines, views};

verus! {

/// What `Path::join` gives for a base path and a relative part, as text.
pub uninterp spec fn joined_path(base: Seq<char>, part: Seq<char>) -> Seq<char>;

/// Relies on `Path::join` (and a lossy conversion back to text): `part`
/// appended to `base` with a separator.
#[verifier::external_body]
fn path_join(base: &str, part: &str) -> (r: String)
    ensures
        r@ == joined_path(base@, part@),
{
    std::path::Path::new(base).join(part).to_string_lossy().to_string()
}

/// A named collection of notes.
#[derive(Debug, Clone)]
pub struct Capsa {
    /// The capsa's name.
    pub name: String,
    /// Its directory.
    pub path: String,
}

impl Capsa {
    /// The capsa `name` under `base_path`.
    pub fn new(name: &str, base_path: &str) -> (r: Self)
        ensures
            r.name@ == name@,
            r.path@ == joined_path(base_path@, name@),
    {
        Capsa { name: name.to_owned(), path: path_join(base_path, name) }
    }

    /// Its directory.
    pub fn path(&self) -> (r: &str)
        ensures
            r@ == self.path@,
    {
        self.path.as_str()
    }
}

/// Operations on one resolved capsa.
pub struct CapsaEngine {
    inner: CapsaRef,
}

/// The tags of a capsa.
pub struct Tags {
    capsa_path: String,
}

/// One tag of a capsa.
pub struct Tag {
    capsa_path: String,
    name: String,
}

/// `s` without leading `'#'` characters.
pub open spec fn without_hashes(s: Seq<char>) -> Seq<char>
    decreases s.len(),
{
    if s.len() > 0 && s[0] == '#' {
        without_hashes(s.skip(1))
    } else {
        s
    }
}

/// The file name of a tag: `#name.md`.
pub open spec fn tag_file_name(name: Seq<char>) -> Seq<char> {
    "#"@ + name + ".md"@
}

/// A tag's link line for a note: `- [title](path)`.
pub open spec fn tag_link(title: Seq<char>, rel: Seq<char>) -> Seq<char> {
    "- ["@ + title + "]("@ + rel + ")"@
}

/// Whether a tag file already links to the note.
pub open spec fn links_to(content: Seq<char>, rel: Seq<char>) -> bool {
    exists|k: int|
        0 <= k < lines_of(content).len() && contains_seq(
            #[trigger] lines_of(content)[k],
            "]("@ + rel + ")"@,
        )
}

/// Whether a tag file has the date header `## date`.
pub open spec fn has_date_header(content: Seq<char>, date: Seq<char>) -> bool {
    lines_of(content).contains("## "@ + date)
}

/// A tag file after tagging a note: `None` when it already links to it;
/// a new file holds the tag heading, the date and the link; an existing one
/// gets the link appended, after a new date header when the date has none.
pub open spec fn tagged(
    existing: Option<Seq<char>>,
    name: Seq<char>,
    title: Seq<char>,
    rel: Seq<char>,
    date: Seq<char>,
) -> Option<Seq<char>> {
    match existing {
        None => Some("# "@ + name + "\n\n"@ + date + "\n"@ + tag_link(title, rel)),
        Some(c) => if links_to(c, rel) {
            None
        } else {
            let ops = if has_date_header(c, date) {
                seq![OpView::Append(tag_link(title, rel))]
            } else {
                seq![OpView::Append("\n## "@ + date), OpView::Append(tag_link(title, rel))]
            };
            match apply_ops(c, ops) {
                Ok(n) => Some(n),
                Err(_) => None,
            }
        },
    }
}

impl CapsaEngine {
    /// An engine for a resolved capsa.
    pub fn new(ref_: CapsaRef) -> (r: Self)
        ensures
            r.capsa() == ref_,
    {
        CapsaEngine { inner: ref_ }
    }

    /// The capsa operated on.
    pub closed spec fn capsa(&self) -> CapsaRef {
        self.inner
    }

    /// The capsa's reference.
    pub fn capsa_ref(&self) -> (r: &CapsaRef)
        ensures
            *r == self.capsa(),
    {
        &self.inner
    }

    /// The tags of this capsa.
    pub fn tags(&self) -> (r: Tags)
        ensures
            r.dir() == self.capsa().path@,
    {
        Tags { capsa_path: self.inner.path.clone() }
    }

    /// The task file of this capsa, named `file_name`.
    pub fn task_file(&self, file_name: &str) -> (r: String)
        ensures
            r@ == joined_path(self.capsa().path@, file_name@),
    {
        path_join(self.inner.path.as_str(), file_name)
    }
}

impl Tags {
    /// The directory of the capsa.
    pub closed spec fn dir(&self) -> Seq<char> {
        self.capsa_path@
    }

    /// The tag `tag` (leading `#` characters are not part of the name).
    pub fn get(&self, tag: &str) -> (r: Tag)
        ensures
            r.name() == without_hashes(tag@),
            r.dir() == self.dir(),
    {
        let cs = chars_of(tag);
        let mut i: usize = 0;
        assert(cs@.skip(0) =~= cs@);
        while i < cs.len() && cs[i] == '#'
            invariant
                0 <= i <= cs.len(),
                cs@ == tag@,
                without_hashes(tag@) == without_hashes(cs@.skip(i as int)),
            decreases cs.len() - i,
        {
            assert(cs@.skip(i as int).skip(1) =~= cs@.skip(i + 1));
            i += 1;
        }
        let rest = crate::text::slice_chars(cs.as_slice(), i, cs.len());
        assert(rest@ =~= cs@.skip(i as int));
        Tag { capsa_path: self.capsa_path.clone(), name: crate::text::string_of(rest.as_slice()) }
    }
}

impl Tag {
    /// The tag's name.
    pub closed spec fn name(&self) -> Seq<char> {
        self.name@
    }

    /// The directory of the capsa.
    pub closed spec fn dir(&self) -> Seq<char> {
        self.capsa_path@
    }

    /// The tag's name.
    pub fn tag_name(&self) -> (r: &str)
        ensures
            r@ == self.name(),
    {
        self.name.as_str()
    }

    /// The tag file: `#name.md` in the capsa's directory.
    pub fn file(&self) -> (r: String)
        ensures
            r@ == joined_path(self.dir(), tag_file_name(self.name())),
    {
        let mut f = "#".to_owned();
        f.append(self.name.as_str());
        f.append(".md");
        path_join(self.capsa_path.as_str(), f.as_str())
    }

    /// The tag file's new text after tagging a note with the given title and
    /// path relative to the capsa on `date`; `None` when it already links to
    /// the note.
    pub fn add_note(&self, existing: Option<&str>, note_title: &str, note_relative: &str, date: &str) -> (r:
        Option<String>)
        ensures
            crate::markdown::opt_view(r) == tagged(
                crate::task::opt_str(existing),
                self.name(),
                note_title@,
                note_relative@,
                date@,
            ),
    {
        let mut link = "- [".to_owned();
        link.append(note_title);
        link.append("](");
        link.append(note_relative);
        link.append(")");
        let content = match existing {
            None => {
                let mut c = "# ".to_owned();
                c.append(self.name.as_str());
                c.append("\n\n");
                c.append(date);
                c.append("\n");
                c.append(link.as_str());
                return Some(c);
            },
            Some(c) => c,
        };
        let mut target = "](".to_owned();
        target.append(note_relative);
        target.append(")");
        let mut header = "## ".to_owned();
        header.append(date);
        let cs = chars_of(content);
        let ls = split_lines(cs.as_slice());
        let tc = chars_of(target.as_str());
        let hc = chars_of(header.as_str());
        let ghost all = views(ls@);
        let mut linked = false;
        let mut dated = false;
        let mut i: usize = 0;
        while i < ls.len()
            invariant
                0 <= i <= ls.len(),
                all == views(ls@),
                all == lines_of(content@),
                tc@ == "]("@ + note_relative@ + ")"@,
                hc@ == "## "@ + date@,
                linked == exists|k: int| 0 <= k < i && contains_seq(#[trigger] all[k], tc@),
                dated == exists|k: int| 0 <= k < i && #[trigger] all[k] == hc@,
            decreases ls.len() - i,
        {
            assert(all[i as int] == ls[i as int]@);
            if crate::text::contains_chars(ls[i].as_slice(), tc.as_slice()) {
                linked = true;
            }
            if crate::text::chars_eq(ls[i].as_slice(), hc.as_slice()) {
                dated = true;
            }
            i += 1;
        }
        if linked {
            return None;
        }
        assert(dated == has_date_header(content@, date@));
        let mut edits: Vec<EditOp> = Vec::new();
        if !dated {
            let mut h = "\n".to_owned();
            h.append(header.as_str());
            proof {
                reveal_strlit("\n");
                reveal_strlit("## ");
                reveal_strlit("\n## ");
                assert(h@ =~= "\n## "@ + date@);
            }
            edits.push(EditOp::append(h.as_str()));
        }
        edits.push(EditOp::append(link.as_str()));
        assert(link@ =~= tag_link(note_title@, note_relative@));
        assert(op_views(edits@) =~= (if dated {
            seq![OpView::Append(tag_link(note_title@, note_relative@))]
        } else {
            seq![OpView::Append("\n## "@ + date@), OpView::Append(tag_link(note_title@, note_relative@))]
        }));
        match apply_edits(content, edits) {
            Ok(s) => Some(s),
            Err(_) => None,
        }
    }
}

} // verus!

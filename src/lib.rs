//! A markdown note store that behaves like a small structured database:
//! validated text edits, note reference resolution and a task state machine
//! kept in one markdown file.
use vstd::prelude::*;

pub mod capsa;
pub mod edit;
pub mod line_laws;
pub mod markdown;
pub mod note_resolver;
pub mod resolve;
pub mod task;
pub mod text;
pub mod util;
pub mod workflow;

pub use edit::{apply_edits, EditOp, ValidationError};
pub use markdown::{
    extract_frontmatter_prefix, extract_references, find_heading_line, get_reference_dest,
    has_reference, MarkdownHeading, MarkdownLink,
};
pub use note_resolver::{
    extract_time_prefix, find_by_prefix, index_link_targets, parse_full_timestamp,
    parse_time_only, plan_resolution, resolve_in_date_dir, resolved_from, validate_date,
    validate_time, NoteSearch, ResolvedNote,
};
pub use resolve::{capsa_ref, parse_link_content, CapsaRef, ResolveContext};
pub use task::{Task, TaskFileReader, TaskStatus};
pub use util::{
    abbreviate_hash, display_path, extract_note_title, hash_source, slugify, source_hash_id,
};
pub use workflow::{
    add_task, comment_line, comment_task, filter_tasks, find_tasks, release_is_report_only,
    release_tasks, status_name, take_entry, take_task, TaskError,
};

verus! {

} // verus!

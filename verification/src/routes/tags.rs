//! Tag endpoints: answer shapes and the listing of notes by tag.
use vstd::prelude::*;

use crate::db::queries::{Note, TagWithCount};
use crate::routes::notes::NotesResponse;
use crate::text::{chars_of, push_str, string_of};

verus! {

/// Answer of `GET /api/tags`.
pub struct TagsResponse {
    pub tags: Vec<TagWithCount>,
}

/// Query string of `GET /api/tags/notes`.
pub struct TagFilterQuery {
    pub tag: String,
    pub limit: i64,
}

/// Page size when the query names none.
pub fn default_limit() -> (r: i64)
    ensures
        r == 20,
{
    20
}

/// The query a tag listing reports: `tag:` then the tag.
pub fn tag_query(tag: &str) -> (r: String)
    ensures
        r@ == "tag:"@ + tag@,
{
    let mut v: Vec<char> = Vec::new();
    push_str(&mut v, "tag:");
    push_str(&mut v, tag);
    string_of(v.as_slice())
}

/// The answer listing the notes found for a tag: the notes, the tag query,
/// their number, the limit asked, and no offset.
pub fn tag_notes_response(notes: Vec<Note>, tag: &str, limit: i64) -> (r: NotesResponse)
    requires
        notes@.len() <= i64::MAX,
    ensures
        r.notes@ == notes@,
        r.query matches Some(q) && q@ == "tag:"@ + tag@,
        r.count == notes@.len(),
        r.limit == limit,
        r.offset == 0,
{
    let n = notes.len();
    NotesResponse { notes, query: Some(tag_query(tag)), count: n as i64, limit, offset: 0 }
}

} // verus!

//! Notes endpoints: request and response shapes, the errors handlers
//! answer with, and the decisions the handlers make.
use vstd::prelude::*;

use crate::db::queries::Note;
use crate::text::{chars_of, push_str, str_eq, str_views, string_of, trim, trim_chars};

verus! {

#[verifier::external_type_specification]
#[verifier::external_body]
pub struct ExAnyhowError(anyhow::Error);

#[verifier::external_type_specification]
#[verifier::external_body]
pub struct ExInteractError(deadpool_sqlite::InteractError);

// ---------------------------------------------------------------------------
// Request and response shapes
// ---------------------------------------------------------------------------

/// Body of `POST /api/notes`.
pub struct CreateNote {
    pub content: String,
    pub source_type: String,
    pub source_url: Option<String>,
    pub tags: Vec<String>,
}

/// Body of `POST /api/notes/batch`.
pub struct BatchCreateRequest {
    pub notes: Vec<CreateNote>,
}

/// Answer of `POST /api/notes/batch`.
pub struct BatchCreateResponse {
    pub note_ids: Vec<i64>,
    pub failed_count: usize,
}

/// Body of `PUT /api/notes/{id}`.
pub struct UpdateNote {
    pub content: String,
}

/// Query string of `GET /api/notes`.
pub struct NotesQuery {
    pub q: Option<String>,
    pub limit: i64,
    pub offset: i64,
    pub exclude_tag: Option<String>,
}

/// Answer of `GET /api/notes`.
pub struct NotesResponse {
    pub notes: Vec<Note>,
    pub query: Option<String>,
    pub count: i64,
    pub limit: i64,
    pub offset: i64,
}

/// Source type of a note created without one.
pub fn default_source() -> (r: String)
    ensures
        r@ == "web"@,
{
    "web".to_owned()
}

/// Page size when the query names none.
pub fn default_limit() -> (r: i64)
    ensures
        r == 20,
{
    20
}

// ---------------------------------------------------------------------------
// Errors
// ---------------------------------------------------------------------------

/// How a handler fails: a server-side failure, or a request refused with a
/// message for the client.
#[derive(Debug)]
pub enum AppError {
    Internal(anyhow::Error),
    BadRequest(String),
}

impl From<anyhow::Error> for AppError {
    fn from(e: anyhow::Error) -> (r: AppError) {
        AppError::Internal(e)
    }
}

impl vstd::std_specs::convert::FromSpecImpl<anyhow::Error> for AppError {
    open spec fn obeys_from_spec() -> bool {
        true
    }

    open spec fn from_spec(e: anyhow::Error) -> AppError {
        AppError::Internal(e)
    }
}

/// True when `e` is a refusal carrying exactly the message `msg`.
pub open spec fn is_bad_request(e: AppError, msg: Seq<char>) -> bool {
    e matches AppError::BadRequest(m) && m@ == msg
}

/// A refusal with the given message.
pub fn bad_request(msg: &str) -> (e: AppError)
    ensures
        is_bad_request(e, msg@),
{
    AppError::BadRequest(msg.to_owned())
}

/// The text an interaction failure displays (`Display` of
/// `deadpool_sqlite::InteractError`). It depends on the failure alone.
pub uninterp spec fn interact_error_display(e: deadpool_sqlite::InteractError) -> Seq<char>;

/// The text an error displays (`Display` of `anyhow::Error`, the outermost
/// message). It depends on the error alone.
pub uninterp spec fn anyhow_message(e: anyhow::Error) -> Seq<char>;

/// `Display` of `deadpool_sqlite::InteractError`, as
/// [`interact_error_display`] names it: `"Panic"` when the callback
/// panicked, `"Aborted"` when it was aborted.
#[verifier::external_body]
fn interact_error_text(e: &deadpool_sqlite::InteractError) -> (r: String)
    ensures
        r@ == interact_error_display(*e),
        r@ == "Panic"@ || r@ == "Aborted"@,
{
    e.to_string()
}

/// `anyhow::Error::msg`: an error that displays `message` (see
/// [`anyhow_message`]).
#[verifier::external_body]
pub(crate) fn error_with_message(message: String) -> (r: anyhow::Error)
    ensures
        anyhow_message(r) == message@,
{
    anyhow::Error::msg(message)
}

/// The error reported when a database interaction could not run: its
/// message is `Database interaction error: ` followed by the text of the
/// interaction failure.
pub fn interaction_failure(e: &deadpool_sqlite::InteractError) -> (r: anyhow::Error)
    ensures
        anyhow_message(r) == "Database interaction error: "@ + interact_error_display(*e),
{
    let text = interact_error_text(e);
    let mut v: Vec<char> = Vec::new();
    push_str(&mut v, "Database interaction error: ");
    push_str(&mut v, text.as_str());
    let m = string_of(v.as_slice());
    proof {
        reveal_strlit("Database interaction error: ");
    }
    assert(m@ =~= "Database interaction error: "@ + interact_error_display(*e));
    error_with_message(m)
}

/// Flattens the result of a pooled database interaction: the inner result
/// when the interaction ran, an error when it did not.
pub fn flatten_interact<T>(
    result: Result<Result<T, anyhow::Error>, deadpool_sqlite::InteractError>,
) -> (r: Result<T, anyhow::Error>)
    ensures
        match result {
            Ok(inner) => r == inner,
            Err(e) => r matches Err(x) && anyhow_message(x) == "Database interaction error: "@
                + interact_error_display(e),
        },
{
    match result {
        Ok(inner) => inner,
        Err(e) => Err(interaction_failure(&e)),
    }
}

// ---------------------------------------------------------------------------
// Validation
// ---------------------------------------------------------------------------

/// True when `content` has nothing but whitespace.
pub open spec fn is_blank(content: Seq<char>) -> bool {
    trim(content).len() == 0
}

/// Executable [`is_blank`] (`content.trim().is_empty()`).
pub fn blank(content: &str) -> (b: bool)
    ensures
        b == is_blank(content@),
{
    let v = chars_of(content);
    let t = trim_chars(v.as_slice());
    t.len() == 0
}

/// Checks the content of a note to create or update: refused with
/// `Content cannot be empty` exactly when it is blank.
pub fn validate_content(content: &str) -> (r: Result<(), AppError>)
    ensures
        r is Err <==> is_blank(content@),
        r matches Err(e) ==> is_bad_request(e, "Content cannot be empty"@),
{
    if blank(content) {
        Err(bad_request("Content cannot be empty"))
    } else {
        Ok(())
    }
}

/// Largest number of notes one batch may create.
pub const MAX_BATCH: usize = 1000;

/// Checks the size of a batch of notes to create: empty batches and
/// batches over [`MAX_BATCH`] are refused.
pub fn validate_batch_size(n: usize) -> (r: Result<(), AppError>)
    ensures
        r is Ok <==> 1 <= n <= MAX_BATCH,
        n == 0 ==> (r matches Err(e) && is_bad_request(e, "Empty notes array"@)),
        n > MAX_BATCH ==> (r matches Err(e) && is_bad_request(e, "Batch size exceeds 1000"@)),
{
    if n == 0 {
        Err(bad_request("Empty notes array"))
    } else if n > MAX_BATCH {
        Err(bad_request("Batch size exceeds 1000"))
    } else {
        Ok(())
    }
}

/// Which listing `GET /api/notes` gives.
pub enum NotesMode {
    /// Most recent notes, with the total count of notes.
    List,
    /// Most recent notes for a blank query, counted as returned.
    BlankQuery,
    /// Hybrid text and vector search for the query.
    Search,
}

/// The listing a query asks for: none gives the plain list, a blank one the
/// list counted as returned, any other a search.
pub fn notes_mode(q: &Option<String>) -> (m: NotesMode)
    ensures
        q is None ==> m is List,
        q matches Some(s) ==> (m is BlankQuery <==> is_blank(s@)),
        q matches Some(s) ==> (m is Search <==> !is_blank(s@)),
{
    match q {
        None => NotesMode::List,
        Some(s) => if blank(s.as_str()) {
            NotesMode::BlankQuery
        } else {
            NotesMode::Search
        },
    }
}

/// Page size of the rediscovery widget: the asked limit, at most 5.
pub fn random_limit(limit: i64) -> (r: i64)
    ensures
        r == if limit < 5 { limit } else { 5 },
{
    if limit < 5 {
        limit
    } else {
        5
    }
}

// ---------------------------------------------------------------------------
// Tag filter
// ---------------------------------------------------------------------------

/// True when the note carries a tag named `tag`.
pub open spec fn has_tag(note: Note, tag: Seq<char>) -> bool {
    str_views(note.tags@).contains(tag)
}

/// The notes that do not carry `tag`, in their order.
pub open spec fn without_tag(notes: Seq<Note>, tag: Seq<char>) -> Seq<Note>
    decreases notes.len(),
{
    if notes.len() == 0 {
        seq![]
    } else {
        let rest = without_tag(notes.drop_last(), tag);
        if has_tag(notes.last(), tag) {
            rest
        } else {
            rest.push(notes.last())
        }
    }
}

/// Executable [`has_tag`].
pub fn note_has_tag(note: &Note, tag: &str) -> (b: bool)
    ensures
        b == has_tag(*note, tag@),
{
    let mut i: usize = 0;
    while i < note.tags.len()
        invariant
            i <= note.tags@.len(),
            forall|j: int| 0 <= j < i ==> note.tags@[j]@ != tag@,
        decreases note.tags@.len() - i,
    {
        if str_eq(note.tags[i].as_str(), tag) {
            assert(str_views(note.tags@)[i as int] == tag@);
            return true;
        }
        i += 1;
    }
    assert(!str_views(note.tags@).contains(tag@)) by {
        if str_views(note.tags@).contains(tag@) {
            let k = choose|k: int| 0 <= k < str_views(note.tags@).len() && str_views(note.tags@)[k]
                == tag@;
            assert(note.tags@[k]@ == tag@);
        }
    }
    false
}

/// Drops the notes that carry the tag `exclude_tag`, keeping the order of
/// the others.
pub fn filter_notes_by_excluded_tag(notes: Vec<Note>, exclude_tag: &str) -> (r: Vec<Note>)
    ensures
        r@ == without_tag(notes@, exclude_tag@),
{
    let ghost all = notes@;
    let total = notes.len();
    assert(all.len() == total);
    let mut rest = notes;
    let mut out: Vec<Note> = Vec::new();
    let mut k: usize = 0;
    assert(all.take(0) =~= Seq::<Note>::empty());
    assert(all.skip(0) =~= all);
    while rest.len() > 0
        invariant
            k + rest@.len() == all.len(),
            all.len() <= usize::MAX,
            rest@ == all.skip(k as int),
            out@ == without_tag(all.take(k as int), exclude_tag@),
        decreases rest@.len(),
    {
        let n = rest.remove(0);
        assert(n == all[k as int]);
        assert(all.take(k + 1).drop_last() =~= all.take(k as int));
        assert(all.take(k + 1).last() == all[k as int]);
        assert(rest@ =~= all.skip(k + 1));
        if !note_has_tag(&n, exclude_tag) {
            out.push(n);
        }
        k += 1;
    }
    assert(all.take(k as int) =~= all);
    out
}

} // verus!

verus! {

// ---------------------------------------------------------------------------
// Merging search results
// ---------------------------------------------------------------------------

/// Each element greater than every later one.
pub open spec fn strictly_desc(s: Seq<i64>) -> bool {
    forall|i: int, j: int| 0 <= i < j < s.len() ==> s[i] > s[j]
}

proof fn lemma_push_contains(s: Seq<i64>, x: i64, y: i64)
    ensures
        s.push(x).contains(y) <==> (s.contains(y) || y == x),
{
    if s.push(x).contains(y) {
        let k = choose|k: int| 0 <= k < s.push(x).len() && s.push(x)[k] == y;
        if k < s.len() {
            assert(s[k] == y);
        }
    }
    if s.contains(y) {
        let k = choose|k: int| 0 <= k < s.len() && s[k] == y;
        assert(s.push(x)[k] == y);
    }
    if y == x {
        assert(s.push(x)[s.len() as int] == x);
    }
}

/// Inserts `x` into a strictly decreasing vector, unless it is there.
fn insert_desc(v: &mut Vec<i64>, x: i64)
    requires
        strictly_desc(old(v)@),
    ensures
        strictly_desc(final(v)@),
        forall|y: i64| final(v)@.contains(y) <==> (old(v)@.contains(y) || y == x),
{
    let mut i: usize = 0;
    while i < v.len() && v[i] > x
        invariant
            i <= v@.len(),
            forall|j: int| 0 <= j < i ==> v@[j] > x,
        decreases v@.len() - i,
    {
        i += 1;
    }
    if i < v.len() && v[i] == x {
        assert(v@.contains(x));
        return;
    }
    let ghost o = v@;
    v.insert(i, x);
    let ghost n = v@;
    assert(n =~= o.take(i as int).push(x) + o.skip(i as int));
    assert forall|y: i64| n.contains(y) implies (o.contains(y) || y == x) by {
        let k = choose|k: int| 0 <= k < n.len() && n[k] == y;
        if k < i {
            assert(o[k] == y);
        } else if k > i {
            assert(o[k - 1] == y);
        }
    }
    assert forall|y: i64| (o.contains(y) || y == x) implies n.contains(y) by {
        if y == x {
            assert(n[i as int] == x);
        } else {
            let k = choose|k: int| 0 <= k < o.len() && o[k] == y;
            if k < i {
                assert(n[k] == y);
            } else {
                assert(n[k + 1] == y);
            }
        }
    }
}

/// Note ids of a hybrid search: the union of the text-search ids and the
/// vector-search ids, without repeats, largest (most recent) first, cut to
/// `limit as usize` ids.
pub fn merge_search_ids(fts: &Vec<i64>, vector: &Vec<i64>, limit: i64) -> (r: Vec<i64>)
    ensures
        strictly_desc(r@),
        r@.len() <= limit as usize,
        forall|x: i64| r@.contains(x) ==> (fts@.contains(x) || vector@.contains(x)),
        forall|x: i64|
            (fts@.contains(x) || vector@.contains(x)) && !r@.contains(x) ==> r@.len() == limit
                as usize && (forall|k: int| 0 <= k < r@.len() ==> x < #[trigger] r@[k]),
{
    let mut v: Vec<i64> = Vec::new();
    let mut i: usize = 0;
    while i < fts.len()
        invariant
            i <= fts@.len(),
            strictly_desc(v@),
            forall|y: i64| v@.contains(y) <==> fts@.take(i as int).contains(y),
        decreases fts@.len() - i,
    {
        let x = fts[i];
        let ghost prev = v@;
        insert_desc(&mut v, x);
        assert(fts@.take(i + 1) =~= fts@.take(i as int).push(x));
        assert forall|y: i64| v@.contains(y) <==> fts@.take(i + 1).contains(y) by {
            lemma_push_contains(fts@.take(i as int), x, y);
            assert(prev.contains(y) <==> fts@.take(i as int).contains(y));
        }
        i += 1;
    }
    assert(fts@.take(fts@.len() as int) =~= fts@);
    let mut j: usize = 0;
    while j < vector.len()
        invariant
            j <= vector@.len(),
            strictly_desc(v@),
            forall|y: i64| v@.contains(y) <==> (fts@.contains(y) || vector@.take(j as int).contains(y)),
        decreases vector@.len() - j,
    {
        let x = vector[j];
        insert_desc(&mut v, x);
        assert(x == vector@[j as int]);
        assert forall|y: i64| vector@.take(j + 1).contains(y) <==> (vector@.take(j as int).contains(y)
            || y == vector@[j as int]) by {
            assert(vector@.take(j + 1) =~= vector@.take(j as int).push(vector@[j as int]));
            lemma_push_contains(vector@.take(j as int), vector@[j as int], y);
        }
        j += 1;
    }
    assert(vector@.take(vector@.len() as int) =~= vector@);
    #[verifier::truncate]
    let cap = limit as usize;
    let ghost full = v@;
    if cap < v.len() {
        v.truncate(cap);
        assert(v@ =~= full.take(cap as int));
        assert forall|x: i64| full.contains(x) && !v@.contains(x) implies (forall|k: int|
            0 <= k < v@.len() ==> x < #[trigger] v@[k]) by {
            let q = choose|q: int| 0 <= q < full.len() && full[q] == x;
            if q < cap {
                assert(v@[q] == x);
            }
        }
        assert(v@.len() == cap);
    }
    assert forall|x: i64| (fts@.contains(x) || vector@.contains(x)) && !v@.contains(x) implies v@.len()
        == cap && (forall|k: int| 0 <= k < v@.len() ==> x < #[trigger] v@[k]) by {
        assert(full.contains(x));
    }
    v
}

} // verus!

verus! {

/// The answer of `GET /api/notes`: the notes found, the limit and offset
/// asked; for a plain listing no query and the total number of notes; for
/// a blank query no query and the number of notes returned; for a search
/// the query and the number of notes returned.
pub fn notes_response(
    mode: NotesMode,
    notes: Vec<Note>,
    query: Option<String>,
    total: i64,
    limit: i64,
    offset: i64,
) -> (r: NotesResponse)
    requires
        notes@.len() <= i64::MAX,
    ensures
        r.notes@ == notes@,
        r.limit == limit,
        r.offset == offset,
        mode is List ==> r.query is None && r.count == total,
        mode is BlankQuery ==> r.query is None && r.count == notes@.len(),
        mode is Search ==> r.query == query && r.count == notes@.len(),
{
    let n = notes.len() as i64;
    match mode {
        NotesMode::List => NotesResponse { notes, query: None, count: total, limit, offset },
        NotesMode::BlankQuery => NotesResponse { notes, query: None, count: n, limit, offset },
        NotesMode::Search => NotesResponse { notes, query, count: n, limit, offset },
    }
}

/// Where the notes related to a question come from.
pub enum Retrieval {
    /// Full-text search of the question.
    FullText,
    /// The notes with these ids, most similar first.
    Vector(Vec<i64>),
}

/// Chooses how related notes are retrieved: by vector similarity when the
/// question could be embedded and the vector search found notes, else by
/// full-text search (the fallback when the embedding service is
/// unavailable or vector search returns no results).
pub fn retrieval_step(embedding_ok: bool, similar_ids: Vec<i64>) -> (r: Retrieval)
    ensures
        !embedding_ok ==> r is FullText,
        embedding_ok && similar_ids@.len() == 0 ==> r is FullText,
        embedding_ok && similar_ids@.len() > 0 ==> r == Retrieval::Vector(similar_ids),
{
    if embedding_ok && similar_ids.len() > 0 {
        Retrieval::Vector(similar_ids)
    } else {
        Retrieval::FullText
    }
}

/// A server-side failure whose message is `msg`.
pub fn internal_error(msg: &str) -> (e: AppError)
    ensures
        e matches AppError::Internal(x) && anyhow_message(x) == msg@,
{
    AppError::Internal(error_with_message(msg.to_owned()))
}


/// An internal error with the message `prefix` followed by `detail`.
pub fn internal_with(prefix: &str, detail: &str) -> (e: AppError)
    ensures
        e matches AppError::Internal(x) && anyhow_message(x) == prefix@ + detail@,
{
    let mut v = chars_of(prefix);
    push_str(&mut v, detail);
    AppError::Internal(error_with_message(string_of(v.as_slice())))
}

} // verus!

verus! {

/// Filtering out a tag keeps exactly the notes without it: no kept note
/// carries the tag, every note without the tag is kept, and nothing else
/// is.
pub proof fn lemma_without_tag(notes: Seq<Note>, tag: Seq<char>)
    ensures
        forall|i: int|
            0 <= i < without_tag(notes, tag).len() ==> !has_tag(
                #[trigger] without_tag(notes, tag)[i],
                tag,
            ),
        forall|i: int|
            0 <= i < notes.len() && !has_tag(#[trigger] notes[i], tag) ==> without_tag(
                notes,
                tag,
            ).contains(notes[i]),
        forall|n: Note| #[trigger] without_tag(notes, tag).contains(n) ==> notes.contains(n),
    decreases notes.len(),
{
    if notes.len() > 0 {
        let p = notes.drop_last();
        let l = notes.last();
        lemma_without_tag(p, tag);
        let rp = without_tag(p, tag);
        let r = without_tag(notes, tag);
        assert forall|i: int| 0 <= i < r.len() implies !has_tag(#[trigger] r[i], tag) by {
            if has_tag(l, tag) {
                assert(r == rp);
            } else {
                assert(r == rp.push(l));
                if i < rp.len() {
                    assert(r[i] == rp[i]);
                }
            }
        }
        assert forall|i: int| 0 <= i < notes.len() && !has_tag(#[trigger] notes[i], tag) implies r.contains(
            notes[i],
        ) by {
            if i < p.len() {
                assert(notes[i] == p[i]);
                assert(rp.contains(p[i]));
                let k = choose|k: int| 0 <= k < rp.len() && rp[k] == p[i];
                if !has_tag(l, tag) {
                    assert(r == rp.push(l));
                    assert(r[k] == rp[k]);
                }
            } else {
                assert(notes[i] == l);
                assert(r == rp.push(l));
                assert(r[rp.len() as int] == l);
            }
        }
        assert forall|n: Note| #[trigger] r.contains(n) implies notes.contains(n) by {
            let k = choose|k: int| 0 <= k < r.len() && r[k] == n;
            if !has_tag(l, tag) && k == rp.len() {
                assert(notes[notes.len() - 1] == n);
            } else {
                if !has_tag(l, tag) {
                    assert(r[k] == rp[k]);
                }
                assert(rp.contains(n));
                let q = choose|q: int| 0 <= q < p.len() && p[q] == n;
                assert(notes[q] == n);
            }
        }
    }
}

} // verus!

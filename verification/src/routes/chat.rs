//! Conversational search: request and answer shapes, the context handed
//! to the language model, and previews of the notes cited.
use vstd::prelude::*;

use crate::background::tts::prefix_chars;
use crate::db::queries::Note;
use crate::routes::notes::{bad_request, is_bad_request, is_blank, AppError};
use crate::text::{
    chars_of, int_decimal, nat_digits, push_all, push_str, slice_chars, string_of, utf8_len,
    utf8_len_chars,
};

verus! {

/// The language model that writes the answer.
#[derive(PartialEq, Eq, Structural, Clone, Copy, Debug)]
pub enum LlmProvider {
    Claude,
    Gemini,
}

impl Default for LlmProvider {
    fn default() -> (r: LlmProvider)
        ensures
            r == LlmProvider::Gemini,
    {
        LlmProvider::Gemini
    }
}

/// Body of `POST /api/chat`.
pub struct ChatRequest {
    pub message: String,
    pub max_results: i64,
    pub llm: LlmProvider,
}

/// Answer of `POST /api/chat`.
pub struct ChatResponse {
    pub answer: String,
    pub sources: Vec<SourceNote>,
}

/// A note the answer draws on.
pub struct SourceNote {
    pub id: i64,
    pub title: Option<String>,
    pub content_preview: String,
}

/// Number of notes searched when the request names none.
pub fn default_limit() -> (r: i64)
    ensures
        r == 5,
{
    5
}

/// Refuses a blank question.
pub fn validate_message(message: &str) -> (r: Result<(), AppError>)
    ensures
        r is Err <==> is_blank(message@),
        r matches Err(e) ==> is_bad_request(e, "Message cannot be empty"@),
{
    if crate::routes::notes::blank(message) {
        Err(bad_request("Message cannot be empty"))
    } else {
        Ok(())
    }
}

/// The answer given when no note matches the question.
pub fn no_notes_answer() -> (r: ChatResponse)
    ensures
        r.answer@ == "I couldn't find any relevant notes for your question."@,
        r.sources@.len() == 0,
{
    ChatResponse {
        answer: "I couldn't find any relevant notes for your question.".to_owned(),
        sources: Vec::new(),
    }
}

// ---------------------------------------------------------------------------
// Context
// ---------------------------------------------------------------------------

/// The context entry of the note at position `i` (counted from 0): its
/// number and id, then its title and summary when it has them, then its
/// content.
pub open spec fn note_entry(i: nat, n: Note) -> Seq<char> {
    "--- Note "@ + nat_digits(i + 1) + " (ID: "@ + int_decimal(n.id as int) + ") ---\n"@ + match n.title {
        Some(t) => "Title: "@ + t@ + seq!['\n'],
        None => seq![],
    } + match n.summary {
        Some(s) => "Summary: "@ + s@ + seq!['\n'],
        None => seq![],
    } + "Content: "@ + n.content@ + "\n\n"@
}

/// The context entries of all the notes, in order.
pub open spec fn note_entries(notes: Seq<Note>) -> Seq<char>
    decreases notes.len(),
{
    if notes.len() == 0 {
        seq![]
    } else {
        note_entries(notes.drop_last()) + note_entry((notes.len() - 1) as nat, notes.last())
    }
}

fn push_note_entry(v: &mut Vec<char>, i: usize, n: &Note)
    requires
        i < usize::MAX,
    ensures
        final(v)@ == old(v)@ + note_entry(i as nat, *n),
{
    let ghost o = v@;
    push_str(v, "--- Note ");
    let d = crate::text::u64_digits((i + 1) as u64);
    push_all(v, d.as_slice());
    push_str(v, " (ID: ");
    let id = crate::text::i64_decimal(n.id);
    push_all(v, id.as_slice());
    push_str(v, ") ---\n");
    match &n.title {
        Some(t) => {
            push_str(v, "Title: ");
            push_str(v, t.as_str());
            v.push('\n');
        },
        None => {},
    }
    match &n.summary {
        Some(s) => {
            push_str(v, "Summary: ");
            push_str(v, s.as_str());
            v.push('\n');
        },
        None => {},
    }
    push_str(v, "Content: ");
    push_str(v, n.content.as_str());
    push_str(v, "\n\n");
    assert(v@ =~= o + note_entry(i as nat, *n));
}

/// Appends the entries of all the notes.
pub fn push_note_entries(v: &mut Vec<char>, notes: &[Note])
    ensures
        final(v)@ == old(v)@ + note_entries(notes@),
{
    let ghost o = v@;
    let mut i: usize = 0;
    assert(notes@.take(0) =~= Seq::<Note>::empty());
    assert(v@ =~= o + note_entries(notes@.take(0)));
    while i < notes.len()
        invariant
            i <= notes@.len(),
            v@ == o + note_entries(notes@.take(i as int)),
        decreases notes@.len() - i,
    {
        assert(notes@.take(i + 1).drop_last() =~= notes@.take(i as int));
        assert(notes@.take(i + 1).last() == notes@[i as int]);
        push_note_entry(v, i, &notes[i]);
        assert(v@ =~= o + note_entries(notes@.take(i + 1)));
        i += 1;
    }
    assert(notes@.take(notes@.len() as int) =~= notes@);
}

/// The context handed to the model: a heading, then an entry per note.
pub open spec fn spec_build_context(notes: Seq<Note>) -> Seq<char> {
    "Here are the relevant notes:\n\n"@ + note_entries(notes)
}

/// Builds the context of the notes (see [`spec_build_context`]).
pub fn build_context(notes: &[Note]) -> (r: String)
    ensures
        r@ == spec_build_context(notes@),
{
    let mut v: Vec<char> = Vec::new();
    push_str(&mut v, "Here are the relevant notes:\n\n");
    push_note_entries(&mut v, notes);
    string_of(v.as_slice())
}

/// The request text asking the model to answer `question` from `context`.
pub fn answer_prompt(context: &str, question: &str) -> (r: String)
    ensures
        r@ == context@ + "\n\nUser question: "@ + question@
            + "\n\nPlease answer the question based on the notes above. Cite note IDs when referencing specific information."@,
{
    let mut v = chars_of(context);
    push_str(&mut v, "\n\nUser question: ");
    push_str(&mut v, question);
    push_str(
        &mut v,
        "\n\nPlease answer the question based on the notes above. Cite note IDs when referencing specific information.",
    );
    string_of(v.as_slice())
}

// ---------------------------------------------------------------------------
// Previews
// ---------------------------------------------------------------------------

/// `preview_content(content, max_len)` cuts at byte `max_len`; it does not
/// panic when the content is short enough or that byte ends a character.
pub open spec fn preview_ok(content: Seq<char>, max_len: nat) -> bool {
    utf8_len(content) <= max_len || prefix_chars(content, max_len) is Some
}

/// The content when it takes at most `max_len` bytes; else its first
/// `max_len` bytes followed by `...`.
pub open spec fn spec_preview_content(content: Seq<char>, max_len: nat) -> Seq<char> {
    if utf8_len(content) <= max_len {
        content
    } else {
        match prefix_chars(content, max_len) {
            Some(k) => content.take(k as int) + "..."@,
            None => seq![],
        }
    }
}

/// A preview of a note's content (see [`spec_preview_content`]).
pub fn preview_content(content: &str, max_len: usize) -> (r: String)
    requires
        preview_ok(content@, max_len as nat),
    ensures
        r@ == spec_preview_content(content@, max_len as nat),
{
    let v = chars_of(content);
    if utf8_len_chars(v.as_slice()) <= max_len as u128 {
        return string_of(v.as_slice());
    }
    let mut i: usize = 0;
    let mut left: usize = max_len;
    assert(v@.skip(0) =~= v@);
    while i < v.len() && left > 0
        invariant
            i <= v@.len(),
            left <= max_len,
            prefix_chars(v@, max_len as nat) is Some,
            prefix_chars(v@, max_len as nat) == match prefix_chars(v@.skip(i as int), left as nat) {
                Some(k) => Some((k + i) as nat),
                None => None,
            },
        decreases v@.len() - i,
    {
        let w = crate::text::width_of(v[i]);
        let ghost rest = v@.skip(i as int);
        assert(rest[0] == v@[i as int]);
        assert(rest.drop_first() =~= v@.skip(i + 1));
        if w > left {
            assert(prefix_chars(v@, max_len as nat) is None);
            return String::new();
        }
        left = left - w;
        i += 1;
    }
    if left > 0 {
        assert(prefix_chars(v@.skip(i as int), left as nat) is None);
        return String::new();
    }
    let mut out = slice_chars(v.as_slice(), 0, i);
    assert(out@ =~= v@.take(i as int));
    push_str(&mut out, "...");
    string_of(out.as_slice())
}

/// The source entry of a cited note: its id, title and a preview of its
/// content of at most 150 bytes.
pub fn source_note(note: &Note) -> (r: SourceNote)
    requires
        preview_ok(note.content@, 150),
    ensures
        r.id == note.id,
        crate::routes::ingest::opt_view(r.title) == crate::routes::ingest::opt_view(note.title),
        r.content_preview@ == spec_preview_content(note.content@, 150),
{
    let title = match &note.title {
        Some(t) => Some(t.clone()),
        None => None,
    };
    SourceNote { id: note.id, title, content_preview: preview_content(note.content.as_str(), 150) }
}

/// The sources of an answer: one entry per cited note, in the notes'
/// order (see [`source_note`]).
pub fn sources_of(notes: &[Note]) -> (r: Vec<SourceNote>)
    requires
        forall|i: int| 0 <= i < notes@.len() ==> preview_ok((#[trigger] notes@[i]).content@, 150),
    ensures
        r@.len() == notes@.len(),
        forall|i: int|
            0 <= i < notes@.len() ==> {
                &&& (#[trigger] r@[i]).id == notes@[i].id
                &&& crate::routes::ingest::opt_view(r@[i].title) == crate::routes::ingest::opt_view(
                    notes@[i].title,
                )
                &&& r@[i].content_preview@ == spec_preview_content(notes@[i].content@, 150)
            },
{
    let mut out: Vec<SourceNote> = Vec::new();
    let mut i: usize = 0;
    while i < notes.len()
        invariant
            i <= notes@.len(),
            out@.len() == i,
            forall|j: int| 0 <= j < notes@.len() ==> preview_ok((#[trigger] notes@[j]).content@, 150),
            forall|j: int|
                0 <= j < i ==> {
                    &&& (#[trigger] out@[j]).id == notes@[j].id
                    &&& crate::routes::ingest::opt_view(out@[j].title)
                        == crate::routes::ingest::opt_view(notes@[j].title)
                    &&& out@[j].content_preview@ == spec_preview_content(notes@[j].content@, 150)
                },
        decreases notes@.len() - i,
    {
        let s = source_note(&notes[i]);
        out.push(s);
        i += 1;
    }
    out
}

} // verus!

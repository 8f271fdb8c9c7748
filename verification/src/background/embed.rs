//! Embeddings: the text a note is embedded from, cut to what the model
//! takes, and the checks on the vector that comes back.
use vstd::prelude::*;

use crate::db::queries::Note;
use crate::text::{chars_of, push_str, slice_chars, string_of};

verus! {

/// Largest text, in characters, sent to the embedding model.
pub const MAX_EMBED_CHARS: usize = 8000;

/// Number of embedding dimensions the index takes.
pub const EMBED_DIMS: usize = 768;

/// The text a note is embedded from: its title (empty when it has none), a
/// blank line, its content, then its summary after a blank line when it
/// has one.
pub open spec fn spec_embed_source(note: Note) -> Seq<char> {
    (match note.title {
        Some(t) => t@,
        None => seq![],
    }) + "\n\n"@ + note.content@ + match note.summary {
        Some(s) => "\n\n"@ + s@,
        None => seq![],
    }
}

/// The text sent to the embedding model: the source text cut to its first
/// [`MAX_EMBED_CHARS`] characters.
pub open spec fn spec_embed_text(note: Note) -> Seq<char> {
    let s = spec_embed_source(note);
    if s.len() > MAX_EMBED_CHARS {
        s.take(MAX_EMBED_CHARS as int)
    } else {
        s
    }
}

/// The text a note is embedded from (see [`spec_embed_text`]).
pub fn embed_text(note: &Note) -> (r: String)
    ensures
        r@ == spec_embed_text(*note),
        r@.len() <= MAX_EMBED_CHARS,
{
    let mut v: Vec<char> = Vec::new();
    match &note.title {
        Some(t) => push_str(&mut v, t.as_str()),
        None => {},
    }
    push_str(&mut v, "\n\n");
    push_str(&mut v, note.content.as_str());
    match &note.summary {
        Some(s) => {
            push_str(&mut v, "\n\n");
            push_str(&mut v, s.as_str());
        },
        None => {},
    }
    assert(v@ =~= spec_embed_source(*note));
    if v.len() <= MAX_EMBED_CHARS {
        return string_of(v.as_slice());
    }
    let out = slice_chars(v.as_slice(), 0, MAX_EMBED_CHARS);
    assert(out@ =~= v@.take(MAX_EMBED_CHARS as int));
    string_of(out.as_slice())
}

/// Why an embedding answer is refused, if it is: it must hold exactly
/// [`EMBED_DIMS`] dimensions.
pub fn embedding_len_error(n: usize) -> (r: Option<String>)
    ensures
        n == EMBED_DIMS <==> r is None,
        r matches Some(m) ==> m@ == "Expected 768-dim embedding from Ollama, got "@
            + crate::text::nat_digits(n as nat),
{
    if n == EMBED_DIMS {
        None
    } else {
        let mut v: Vec<char> = Vec::new();
        push_str(&mut v, "Expected 768-dim embedding from Ollama, got ");
        let d = crate::text::u64_digits(n as u64);
        crate::text::push_all(&mut v, d.as_slice());
        Some(string_of(v.as_slice()))
    }
}

} // verus!

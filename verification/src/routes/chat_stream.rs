//! Streaming conversational search: the request shape, the context handed
//! to the model, and the translation of the model's stream events into the
//! events sent to the browser.
use vstd::prelude::*;

use crate::db::queries::Note;
use crate::routes::chat::{note_entries, push_note_entries};
use crate::routes::notes::AppError;
use crate::text::{chars_of, int_decimal, nat_digits, push_all, push_str, str_eq, string_of};

verus! {

/// Body of `POST /api/chat/stream`.
pub struct ChatStreamRequest {
    pub message: String,
    pub max_results: i64,
    pub previous_interaction_id: Option<String>,
}

/// Number of notes searched when the request names none.
pub fn default_limit() -> (r: i64)
    ensures
        r == 5,
{
    5
}

/// The system instruction handed to the model: a heading, an entry per
/// note, and a request to cite note ids.
pub open spec fn spec_build_context(notes: Seq<Note>) -> Seq<char> {
    "You have access to these relevant notes from the user's knowledge base:\n\n"@ + note_entries(
        notes,
    ) + "\nWhen answering, cite note IDs when referencing specific information."@
}

/// Builds the system instruction of the notes (see [`spec_build_context`]).
pub fn build_context(notes: &[Note]) -> (r: String)
    ensures
        r@ == spec_build_context(notes@),
{
    let mut v: Vec<char> = Vec::new();
    push_str(&mut v, "You have access to these relevant notes from the user's knowledge base:\n\n");
    push_note_entries(&mut v, notes);
    push_str(&mut v, "\nWhen answering, cite note IDs when referencing specific information.");
    string_of(v.as_slice())
}

/// The system instruction, none when no note was found.
pub fn stream_context(notes: &[Note]) -> (r: Option<String>)
    ensures
        notes@.len() == 0 ==> r is None,
        notes@.len() > 0 ==> (r matches Some(c) && c@ == spec_build_context(notes@)),
{
    if notes.len() == 0 {
        None
    } else {
        Some(build_context(notes))
    }
}

/// Address of the interactions service: the configured one, else Google's.
pub fn interactions_url(configured: Option<String>) -> (r: String)
    ensures
        r@ == match configured {
            Some(u) => u@,
            None => "https://generativelanguage.googleapis.com/v1beta/interactions"@,
        },
{
    match configured {
        Some(u) => u,
        None => "https://generativelanguage.googleapis.com/v1beta/interactions".to_owned(),
    }
}

/// The streaming address of the service.
pub fn sse_url(base: &str) -> (r: String)
    ensures
        r@ == base@ + "?alt=sse"@,
{
    let mut v = chars_of(base);
    push_str(&mut v, "?alt=sse");
    string_of(v.as_slice())
}

/// The error reported when no key for the service is configured.
pub fn missing_key_error() -> (e: AppError)
    ensures
        e matches AppError::Internal(x) && crate::routes::notes::anyhow_message(x)
            == "GEMINI_API_KEY environment variable is not set. Please configure the API key in your LaunchAgent plist."@,
{
    crate::routes::notes::internal_error(
        "GEMINI_API_KEY environment variable is not set. Please configure the API key in your LaunchAgent plist.",
    )
}

/// The message reported for a refused stream request: fixed texts for
/// authentication, billing and rate-limit statuses, else the status and
/// the body of the answer.
pub open spec fn spec_stream_error_message(code: u16, status: Seq<char>, body: Seq<char>) -> Seq<
    char,
> {
    if code == 401 || code == 403 {
        "Gemini API key is invalid or expired. Check your GEMINI_API_KEY configuration."@
    } else if code == 402 {
        "Gemini account has no credits remaining. Add billing to your Google Cloud account."@
    } else if code == 429 {
        "Gemini rate limit exceeded. Try again in a few minutes."@
    } else {
        "Gemini API error ("@ + status + "): "@ + body
    }
}

/// The message for a refused stream request (see
/// [`spec_stream_error_message`]); `status` is the status as it displays.
pub fn stream_error_message(code: u16, status: &str, body: &str) -> (r: String)
    ensures
        r@ == spec_stream_error_message(code, status@, body@),
{
    if code == 401 || code == 403 {
        "Gemini API key is invalid or expired. Check your GEMINI_API_KEY configuration.".to_owned()
    } else if code == 402 {
        "Gemini account has no credits remaining. Add billing to your Google Cloud account.".to_owned()
    } else if code == 429 {
        "Gemini rate limit exceeded. Try again in a few minutes.".to_owned()
    } else {
        let mut v: Vec<char> = Vec::new();
        push_str(&mut v, "Gemini API error (");
        push_str(&mut v, status);
        push_str(&mut v, "): ");
        push_str(&mut v, body);
        string_of(v.as_slice())
    }
}

// ---------------------------------------------------------------------------
// Stream events
// ---------------------------------------------------------------------------

/// Identifier of the `n`-th message or text part: `prefix` then `n`.
pub fn stream_id(prefix: &str, n: u64) -> (r: String)
    ensures
        r@ == prefix@ + nat_digits(n as nat),
{
    let mut v = chars_of(prefix);
    let d = crate::text::u64_digits(n);
    push_all(&mut v, d.as_slice());
    string_of(v.as_slice())
}

/// What one event of the model's stream becomes for the browser.
pub enum StreamOutput {
    /// More answer text.
    TextDelta { id: String, delta: String },
    /// The answer is complete.
    TextEnd { id: String },
}

/// Translates an event of the model's stream: a content delta with text
/// becomes more text, a completed interaction ends the text, anything
/// else is dropped.
pub fn translate_event(
    event_type: &str,
    delta_text: Option<String>,
    has_interaction: bool,
    text_id: &str,
) -> (r: Option<StreamOutput>)
    ensures
        (event_type@ == "content.delta"@ && delta_text is Some) <==> r matches Some(
            StreamOutput::TextDelta { .. },
        ),
        r matches Some(StreamOutput::TextDelta { id, delta }) ==> id@ == text_id@ && delta@
            == delta_text->0@,
        (event_type@ == "interaction.complete"@ && has_interaction) <==> r matches Some(
            StreamOutput::TextEnd { .. },
        ),
        r matches Some(StreamOutput::TextEnd { id }) ==> id@ == text_id@,
{
    proof {
        reveal_strlit("content.delta");
        reveal_strlit("interaction.complete");
        assert("content.delta"@.len() != "interaction.complete"@.len());
    }
    if str_eq(event_type, "content.delta") {
        match delta_text {
            Some(t) => Some(StreamOutput::TextDelta { id: text_id.to_owned(), delta: t }),
            None => None,
        }
    } else if str_eq(event_type, "interaction.complete") && has_interaction {
        Some(StreamOutput::TextEnd { id: text_id.to_owned() })
    } else {
        None
    }
}

/// The JSON object (`serde_json::Value::Object`) whose members are the
/// given keys with string values, a later pair replacing an earlier one
/// with the same key. It depends on the pairs alone.
pub uninterp spec fn json_string_object(pairs: Seq<(Seq<char>, Seq<char>)>) -> serde_json::Value;

/// The compact JSON text of a value (`Value::to_string`). It depends on the
/// value alone.
pub uninterp spec fn json_value_text(v: serde_json::Value) -> Seq<char>;

/// The pairs as text.
pub open spec fn pairs_view(pairs: Seq<(String, String)>) -> Seq<(Seq<char>, Seq<char>)> {
    pairs.map_values(|p: (String, String)| (p.0@, p.1@))
}

/// `serde_json::Value::Object` of the pairs, each value a
/// `Value::String`, as [`json_string_object`] names it.
#[verifier::external_body]
fn string_object(pairs: Vec<(String, String)>) -> (r: serde_json::Value)
    ensures
        r == json_string_object(pairs_view(pairs@)),
{
    serde_json::Value::Object(
        pairs.into_iter().map(|(k, v)| (k, serde_json::Value::String(v))).collect(),
    )
}

/// `Value::to_string`: the compact JSON text, as [`json_value_text`] names
/// it.
#[verifier::external_body]
fn value_text(v: &serde_json::Value) -> (r: String)
    ensures
        r@ == json_value_text(*v),
{
    v.to_string()
}

/// The JSON text of an object of string members given in this order.
fn object_text(pairs: Vec<(String, String)>) -> (r: String)
    ensures
        r@ == json_value_text(json_string_object(pairs_view(pairs@))),
{
    let v = string_object(pairs);
    value_text(&v)
}

/// Data of the event that opens a message: `type` `start` and the
/// message id.
pub open spec fn spec_start_data(message_id: Seq<char>) -> Seq<char> {
    json_value_text(json_string_object(seq![("type"@, "start"@), ("messageId"@, message_id)]))
}

/// Data of the event that opens a message (see [`spec_start_data`]).
pub fn start_data(message_id: &str) -> (r: String)
    ensures
        r@ == spec_start_data(message_id@),
{
    let mut pairs: Vec<(String, String)> = Vec::new();
    pairs.push(("type".to_owned(), "start".to_owned()));
    pairs.push(("messageId".to_owned(), message_id.to_owned()));
    assert(pairs_view(pairs@) =~= seq![("type"@, "start"@), ("messageId"@, message_id@)]);
    object_text(pairs)
}

/// Data of the event that opens the text of a message: `type`
/// `text-start` and the text id.
pub open spec fn spec_text_start_data(text_id: Seq<char>) -> Seq<char> {
    json_value_text(json_string_object(seq![("type"@, "text-start"@), ("id"@, text_id)]))
}

/// Data of the event that opens the text of a message (see
/// [`spec_text_start_data`]).
pub fn text_start_data(text_id: &str) -> (r: String)
    ensures
        r@ == spec_text_start_data(text_id@),
{
    let mut pairs: Vec<(String, String)> = Vec::new();
    pairs.push(("type".to_owned(), "text-start".to_owned()));
    pairs.push(("id".to_owned(), text_id.to_owned()));
    assert(pairs_view(pairs@) =~= seq![("type"@, "text-start"@), ("id"@, text_id@)]);
    object_text(pairs)
}

/// Data of the event sent for a translated stream event: `type`
/// `text-delta`, the text id and the delta; or `type` `text-end` and the
/// text id.
pub open spec fn spec_output_data(out: StreamOutput) -> Seq<char> {
    match out {
        StreamOutput::TextDelta { id, delta } => json_value_text(
            json_string_object(seq![("type"@, "text-delta"@), ("id"@, id@), ("delta"@, delta@)]),
        ),
        StreamOutput::TextEnd { id } => json_value_text(
            json_string_object(seq![("type"@, "text-end"@), ("id"@, id@)]),
        ),
    }
}

/// Data of the event sent for a translated stream event (see
/// [`spec_output_data`]).
pub fn output_data(out: &StreamOutput) -> (r: String)
    ensures
        r@ == spec_output_data(*out),
{
    let mut pairs: Vec<(String, String)> = Vec::new();
    match out {
        StreamOutput::TextDelta { id, delta } => {
            pairs.push(("type".to_owned(), "text-delta".to_owned()));
            pairs.push(("id".to_owned(), id.as_str().to_owned()));
            pairs.push(("delta".to_owned(), delta.as_str().to_owned()));
            assert(pairs_view(pairs@) =~= seq![("type"@, "text-delta"@), ("id"@, id@), ("delta"@, delta@)]);
        },
        StreamOutput::TextEnd { id } => {
            pairs.push(("type".to_owned(), "text-end".to_owned()));
            pairs.push(("id".to_owned(), id.as_str().to_owned()));
            assert(pairs_view(pairs@) =~= seq![("type"@, "text-end"@), ("id"@, id@)]);
        },
    }
    object_text(pairs)
}

} // verus!

//! The note tools offered to assistants over MCP: their requests and the
//! text of their answers.
use vstd::prelude::*;

use crate::routes::chat::{preview_ok, preview_content, spec_preview_content};
use crate::text::{chars_of, int_decimal, push_all, push_str, string_of};

verus! {

/// Request of the search tool.
pub struct SearchRequest {
    pub query: String,
    pub limit: i64,
}

/// Number of results when the request names none.
pub fn default_limit() -> (r: i64)
    ensures
        r == 10,
{
    10
}

/// Request of the capture tool.
pub struct CaptureRequest {
    pub content: String,
    pub source_type: String,
    pub tags: Vec<String>,
}

/// Source type of a note captured without one.
pub fn default_source() -> (r: String)
    ensures
        r@ == "mcp"@,
{
    "mcp".to_owned()
}

/// Request of the note tool.
pub struct GetNoteRequest {
    pub id: i64,
}

/// Content shown in search results: at most 500 bytes, then `...` when
/// cut.
pub fn result_content(content: &str) -> (r: String)
    requires
        preview_ok(content@, 500),
    ensures
        r@ == spec_preview_content(content@, 500),
{
    preview_content(content, 500)
}

/// Answer of the capture tool once the note is saved.
pub fn created_message(id: i64) -> (r: String)
    ensures
        r@ == "Note #"@ + int_decimal(id as int) + " created successfully"@,
{
    let mut v: Vec<char> = Vec::new();
    push_str(&mut v, "Note #");
    let d = crate::text::i64_decimal(id);
    push_all(&mut v, d.as_slice());
    push_str(&mut v, " created successfully");
    string_of(v.as_slice())
}

/// Answer of a tool that failed: what failed, then the error.
pub fn failure_message(what: &str, error: &str) -> (r: String)
    ensures
        r@ == what@ + ": "@ + error@,
{
    let mut v = chars_of(what);
    push_str(&mut v, ": ");
    push_str(&mut v, error);
    string_of(v.as_slice())
}

// ---------------------------------------------------------------------------
// Command line
// ---------------------------------------------------------------------------

/// What a command line asks for.
pub enum CliCommand {
    /// Fill in the titles of audio episodes that lack one.
    BackfillAudioTitles,
    /// Save a note with this content.
    Capture(String),
    /// Nothing to save: show how to use the command.
    Usage,
}

/// Reads the command-line arguments: the backfill flag, else the arguments
/// joined by spaces as a note, unless that is blank.
pub fn cli_command(args: &Vec<String>) -> (r: CliCommand)
    ensures
        args@.len() > 0 && args@[0]@ == "--backfill-audio-titles"@ ==> r is BackfillAudioTitles,
        !(args@.len() > 0 && args@[0]@ == "--backfill-audio-titles"@) ==> {
            let content = crate::text::join(crate::text::str_views(args@), seq![' ']);
            if crate::routes::notes::is_blank(content) {
                r is Usage
            } else {
                r matches CliCommand::Capture(c) && c@ == content
            }
        },
{
    if args.len() > 0 && crate::text::str_eq(args[0].as_str(), "--backfill-audio-titles") {
        return CliCommand::BackfillAudioTitles;
    }
    let content = crate::text::join_strings(args, " ");
    proof {
        reveal_strlit(" ");
        assert(" "@ =~= seq![' ']);
    }
    if crate::routes::notes::blank(content.as_str()) {
        CliCommand::Usage
    } else {
        CliCommand::Capture(content)
    }
}

/// What the command prints once the note is saved.
pub fn saved_message(id: i64) -> (r: String)
    ensures
        r@ == "Saved note #"@ + int_decimal(id as int),
{
    let mut v: Vec<char> = Vec::new();
    push_str(&mut v, "Saved note #");
    let d = crate::text::i64_decimal(id);
    push_all(&mut v, d.as_slice());
    string_of(v.as_slice())
}

} // verus!

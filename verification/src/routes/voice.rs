//! Voice notes: which upload carries the audio, what the note says while
//! a transcription is pending, and where the audio waits for a retry.
use vstd::prelude::*;

use crate::text::{chars_of, nat_digits, push_all, push_str, str_eq, string_of};

verus! {

/// True for the names of the form fields that carry the audio.
pub open spec fn spec_is_audio_field(name: Seq<char>) -> bool {
    name == "file"@ || name == "audio"@
}

/// Whether a form field carries the audio.
pub fn is_audio_field(name: &str) -> (b: bool)
    ensures
        b == spec_is_audio_field(name@),
{
    str_eq(name, "file") || str_eq(name, "audio")
}

/// The content of a voice note and whether its audio must be kept for a
/// later transcription: the transcript when there is one, else the
/// pending marker and a retry.
pub fn voice_note_content(transcript: Option<String>) -> (r: (String, bool))
    ensures
        match transcript {
            Some(t) => r.0@ == t@ && !r.1,
            None => r.0@ == crate::routes::audio::pending_marker() && r.1,
        },
{
    match transcript {
        Some(t) => (t, false),
        None => ("[Voice memo - transcribing...]".to_owned(), true),
    }
}

/// Name of the file holding the audio of note `note_id` until it is
/// transcribed: `{id}.webm`.
pub fn pending_audio_name(note_id: i64) -> (r: String)
    ensures
        r@ == crate::text::int_decimal(note_id as int) + ".webm"@,
{
    let mut v = crate::text::i64_decimal(note_id);
    push_str(&mut v, ".webm");
    string_of(v.as_slice())
}

/// Where transcription models are kept: the configured directory, else
/// `.cache/whisper` under the home directory (`.` when unknown).
pub fn whisper_model_dir(configured: Option<String>, home: Option<String>) -> (r: String)
    ensures
        r@ == match configured {
            Some(d) => d@,
            None => (match home {
                Some(h) => h@,
                None => "."@,
            }) + "/.cache/whisper"@,
        },
{
    match configured {
        Some(d) => d,
        None => {
            let mut v: Vec<char> = match home {
                Some(h) => chars_of(h.as_str()),
                None => chars_of("."),
            };
            push_str(&mut v, "/.cache/whisper");
            string_of(v.as_slice())
        },
    }
}

/// Size of the transcription model: the configured one, else `medium`.
pub fn whisper_model_size(configured: Option<String>) -> (r: String)
    ensures
        r@ == match configured {
            Some(s) => s@,
            None => "medium"@,
        },
{
    match configured {
        Some(s) => s,
        None => "medium".to_owned(),
    }
}

} // verus!

//! Background work: the jobs the server queues, and the decisions of the
//! text-to-speech pipeline.
pub mod auto_org;
pub mod embed;
pub mod tts;

use vstd::prelude::*;

verus! {

/// A unit of background work.
pub enum BackgroundJob {
    /// Embed and auto-organize the note with this id.
    ProcessNote(i64),
    /// Synthesize the audio of this episode.
    GenerateAudio { episode_id: i64 },
}

} // verus!

//! HTTP endpoints: the shapes of their requests and answers, and the
//! decisions their handlers make.
pub mod audio;
pub mod chat;
pub mod chat_stream;
pub mod export;
pub mod ingest;
pub mod notes;
pub mod settings;
pub mod status;
pub mod tags;
pub mod usage;
pub mod voice;

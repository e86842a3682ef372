//! Verified core of a meeting-minutes recorder: text shaping for Notion pages,
//! page-id normalization, recording sessions, PCM decoding and the decisions
//! taken around the transcription and summarization helper processes.

pub mod text;
pub mod markdown;
pub mod page_id;
pub mod title;
pub mod notion;
pub mod sessions;
pub mod recorder;
pub mod sidecar;

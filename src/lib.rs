//! Resilient core of a subtitle captioner that turns Japanese speech into
//! Traditional Chinese subtitles through outside speech-to-text and
//! text-generation services:
//!
//! - `retry`: which service failures are transient, and the capped
//!   exponential backoff shared by every call;
//! - `parse`: tolerant reading of a `{"translations": [...]}` reply, clean,
//!   fenced or embedded in prose, and cleanup of single-line replies;
//! - `transcript`: chunk planning and merging of per-chunk segment lists
//!   into one list in time of the whole recording;
//! - `translate`: windowed batch translation with bisection recovery and
//!   single-line fallback, as a state machine the caller drives;
//! - `paths`: default output names and escaping for filter arguments;
//! - `text`: character-level helpers.

pub mod text;
pub mod retry;
pub mod parse;
pub mod transcript;
pub mod translate;
pub mod paths;

//! Core engine of an on-device lecture-notes system: audio bookkeeping,
//! rolling transcript, exclusive model residency, endurance control,
//! an encrypted note store and the controller that ties them together.
//!
//! Text is carried as UTF-8 bytes (`Vec<u8>`); audio samples are carried
//! as the raw 32-bit patterns of the capture floats (`u32`), since this
//! library never inspects sample values, only moves and counts them.

pub mod api;
pub mod audio_buffer;
pub mod db;
pub mod endurance;
pub mod engine;
pub mod lang;
pub mod manager;
pub mod ocr;
pub mod security;
pub mod summarizer;
pub mod rag;
pub mod sync;
pub mod text;
pub mod textutil;
pub mod vad;

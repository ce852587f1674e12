//! Idempotent synchronisation of audio files with an external transcription
//! engine: which inputs still need work, which engine run folder belongs to an
//! input, and where a finished transcript is placed.

pub mod context;
pub mod files;
pub mod laws;
pub mod ledger;
pub mod locate;
pub mod paths;
pub mod session;
pub mod transcription;

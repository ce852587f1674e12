//! The values a run passes from stage to stage, gathered in one record.

use vstd::prelude::*;
use crate::ledger::CompletionLedger;

verus! {

pub struct TestContext {
    pub mp3_dir: Option<String>,
    pub dest_dir: Option<String>,
    pub mp3_files: Option<Vec<String>>,
    pub transcribed_files: Option<CompletionLedger>,
    pub untranscribed_files: Option<Vec<String>>,
    pub transcription_files: Option<Vec<String>>,
}

impl TestContext {
    /// A record with nothing set.
    pub fn new() -> (r: Self)
        ensures
            r.mp3_dir is None,
            r.dest_dir is None,
            r.mp3_files is None,
            r.transcribed_files is None,
            r.untranscribed_files is None,
            r.transcription_files is None,
    {
        TestContext {
            mp3_dir: None,
            dest_dir: None,
            mp3_files: None,
            transcribed_files: None,
            untranscribed_files: None,
            transcription_files: None,
        }
    }

    pub fn with_mp3_dir(self, mp3_dir: String) -> (r: Self)
        ensures
            r == (TestContext { mp3_dir: Some(mp3_dir), ..self }),
    {
        TestContext { mp3_dir: Some(mp3_dir), ..self }
    }

    pub fn with_dest_dir(self, dest_dir: String) -> (r: Self)
        ensures
            r == (TestContext { dest_dir: Some(dest_dir), ..self }),
    {
        TestContext { dest_dir: Some(dest_dir), ..self }
    }

    pub fn with_mp3_files(self, mp3_files: Vec<String>) -> (r: Self)
        ensures
            r == (TestContext { mp3_files: Some(mp3_files), ..self }),
    {
        TestContext { mp3_files: Some(mp3_files), ..self }
    }

    pub fn with_transcribed_files(self, transcribed_files: CompletionLedger) -> (r: Self)
        ensures
            r == (TestContext { transcribed_files: Some(transcribed_files), ..self }),
    {
        TestContext { transcribed_files: Some(transcribed_files), ..self }
    }

    pub fn with_untranscribed_files(self, untranscribed_files: Vec<String>) -> (r: Self)
        ensures
            r == (TestContext { untranscribed_files: Some(untranscribed_files), ..self }),
    {
        TestContext { untranscribed_files: Some(untranscribed_files), ..self }
    }

    pub fn with_transcription_files(self, transcription_files: Vec<String>) -> (r: Self)
        ensures
            r == (TestContext { transcription_files: Some(transcription_files), ..self }),
    {
        TestContext { transcription_files: Some(transcription_files), ..self }
    }
}

} // verus!

//! Which listed files are audio inputs, and where finished transcripts go.

use vstd::prelude::*;
use crate::paths::{has_extension, has_extension_ignoring_case, join_of, join_path};
use crate::transcription::{result_name_of, TranscriptionManager};

verus! {

/// The extension of audio inputs, `mp3`.
pub open spec fn audio_extension() -> Seq<char> {
    seq!['m', 'p', '3']
}

/// A file to copy.
pub struct CopyJob {
    pub from: String,
    pub to: String,
}

pub struct FileManager;

impl FileManager {
    /// Whether a listed file is an audio input: its extension is `mp3` in any case.
    pub fn is_mp3_file(path: &str) -> (r: bool)
        ensures
            r == has_extension(path@, audio_extension()),
    {
        let ext = "mp3";
        proof {
            reveal_strlit("mp3");
            assert(ext@ =~= audio_extension());
        }
        has_extension_ignoring_case(path, ext)
    }

    /// The copies that place each transcript in `dest_dir`, under its stem
    /// and the extension `md`.
    pub fn copy_transcription_files(transcription_files: &Vec<String>, dest_dir: &str) -> (r: Vec<CopyJob>)
        ensures
            r@.len() == transcription_files@.len(),
            forall|i: int|
                0 <= i < r@.len() ==> (#[trigger] r@[i]).from@ == transcription_files@[i]@
                    && r@[i].to@ == join_of(dest_dir@, result_name_of(transcription_files@[i]@)),
    {
        let mut r: Vec<CopyJob> = Vec::new();
        let mut i: usize = 0;
        while i < transcription_files.len()
            invariant
                i <= transcription_files@.len(),
                r@.len() == i,
                forall|k: int|
                    0 <= k < i ==> (#[trigger] r@[k]).from@ == transcription_files@[k]@
                        && r@[k].to@ == join_of(dest_dir@, result_name_of(transcription_files@[k]@)),
            decreases transcription_files@.len() - i,
        {
            let file = &transcription_files[i];
            let name = TranscriptionManager::result_file_name(file.as_str());
            let to = join_path(dest_dir, name.as_str());
            r.push(CopyJob { from: file.clone(), to });
            i = i + 1;
        }
        r
    }
}

} // verus!

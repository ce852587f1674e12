//! Which inputs still need a transcript, and the names results are kept under.

use vstd::prelude::*;
use crate::ledger::CompletionLedger;
use crate::paths::{file_stem, has_extension, has_extension_ignoring_case, join_of, join_path, stem_of};

verus! {

/// An entry of a directory listing.
pub struct ListedEntry {
    pub path: String,
    pub is_file: bool,
}

/// The extension of result files, `md`.
pub open spec fn result_extension() -> Seq<char> {
    seq!['m', 'd']
}

/// The file name a result for input `p` is kept under: its stem and `.md`.
pub open spec fn result_name_of(p: Seq<char>) -> Seq<char> {
    stem_of(p) + seq!['.'] + result_extension()
}

/// `entries[i]` is a result file.
pub open spec fn is_result_entry(entries: Seq<ListedEntry>, i: int) -> bool {
    entries[i].is_file && has_extension(entries[i].path@, result_extension())
}

/// The stems of the result files among `entries`.
pub open spec fn ledger_of(entries: Seq<ListedEntry>) -> Set<Seq<char>> {
    Set::new(
        |s: Seq<char>|
            exists|i: int| 0 <= i < entries.len() && is_result_entry(entries, i) && #[trigger] stem_of(entries[i].path@) == s,
    )
}

/// The paths held in `v`.
pub open spec fn paths_of(v: Seq<String>) -> Seq<Seq<char>> {
    v.map_values(|s: String| s@)
}

/// The inputs, in their order, whose stem is not in `done`.
pub open spec fn selection_of(inputs: Seq<Seq<char>>, done: Set<Seq<char>>) -> Seq<Seq<char>> {
    inputs.filter(|p: Seq<char>| !done.contains(stem_of(p)))
}

/// The directory, relative to the documents directory, where the engine
/// writes its run folders.
pub open spec fn transcriptions_subdir() -> Seq<char> {
    seq!['a', 'T', 'r', 'a', 'i', 'n', '/', 't', 'r', 'a', 'n', 's', 'c', 'r', 'i', 'p', 't', 'i', 'o', 'n', 's']
}

pub struct TranscriptionManager;

impl TranscriptionManager {
    /// The completion ledger of a destination directory, from its listing:
    /// the stems of the files there whose extension is `md` in any case.
    pub fn get_transcribed_files(entries: &Vec<ListedEntry>) -> (r: CompletionLedger)
        ensures
            r@ == ledger_of(entries@),
            r.wf(),
            forall|i: int| 0 <= i < entries@.len() && is_result_entry(entries@, i)
                ==> r@.contains(#[trigger] stem_of(entries@[i].path@)),
    {
        let ext = "md";
        proof {
            reveal_strlit("md");
            assert(ext@ =~= result_extension());
        }
        let mut ledger = CompletionLedger::new();
        let mut i: usize = 0;
        while i < entries.len()
            invariant
                i <= entries@.len(),
                ext@ == result_extension(),
                ledger.wf(),
                ledger@ == ledger_of(entries@.subrange(0, i as int)),
            decreases entries@.len() - i,
        {
            let ghost before = ledger_of(entries@.subrange(0, i as int));
            let entry = &entries[i];
            let keep = entry.is_file && has_extension_ignoring_case(entry.path.as_str(), ext);
            if keep {
                ledger.insert(file_stem(entry.path.as_str()));
            }
            proof {
                let pre = entries@.subrange(0, i as int);
                let post = entries@.subrange(0, i as int + 1);
                assert forall|s: Seq<char>| #[trigger] ledger@.contains(s) == ledger_of(post).contains(s) by {
                    if ledger_of(post).contains(s) {
                        let j = choose|j: int| 0 <= j < post.len() && is_result_entry(post, j) && #[trigger] stem_of(post[j].path@) == s;
                        if j < i {
                            assert(pre[j] == post[j]);
                            assert(before.contains(s));
                        }
                    }
                    if before.contains(s) {
                        let j = choose|j: int| 0 <= j < pre.len() && is_result_entry(pre, j) && #[trigger] stem_of(pre[j].path@) == s;
                        assert(pre[j] == post[j]);
                        assert(ledger_of(post).contains(s));
                    }
                    if keep && s == stem_of(entries@[i as int].path@) {
                        assert(post[i as int] == entries@[i as int]);
                        assert(ledger_of(post).contains(s));
                    }
                }
                assert(ledger@ =~= ledger_of(post));
            }
            i = i + 1;
        }
        assert(entries@.subrange(0, i as int) =~= entries@);
        ledger
    }

    /// The inputs, in their order, whose stem is not in the ledger.
    pub fn filter_untranscribed_files(mp3_files: Vec<String>, transcribed_files: &CompletionLedger) -> (r: Vec<String>)
        ensures
            paths_of(r@) == selection_of(paths_of(mp3_files@), transcribed_files@),
    {
        let mut r: Vec<String> = Vec::new();
        let mut i: usize = 0;
        while i < mp3_files.len()
            invariant
                i <= mp3_files@.len(),
                paths_of(r@) == selection_of(paths_of(mp3_files@).subrange(0, i as int), transcribed_files@),
            decreases mp3_files@.len() - i,
        {
            let stem = file_stem(mp3_files[i].as_str());
            let done = transcribed_files.contains(&stem);
            proof {
                let all = paths_of(mp3_files@);
                let pre = all.subrange(0, i as int);
                let post = all.subrange(0, i as int + 1);
                assert(post.drop_last() =~= pre);
                reveal_with_fuel(Seq::filter, 1);
            }
            if !done {
                r.push(mp3_files[i].clone());
                assert(paths_of(r@) =~= paths_of(r@).drop_last().push(mp3_files@[i as int]@));
            }
            i = i + 1;
        }
        assert(paths_of(mp3_files@).subrange(0, i as int) =~= paths_of(mp3_files@));
        r
    }

    /// The file name a result for `input` is kept under.
    pub fn result_file_name(input: &str) -> (r: String)
        ensures
            r@ == result_name_of(input@),
    {
        let suffix = ".md";
        proof {
            reveal_strlit(".md");
            assert(suffix@ =~= seq!['.'] + result_extension());
        }
        let stem = file_stem(input);
        let r = stem.concat(suffix);
        assert(r@ =~= result_name_of(input@));
        r
    }

    /// The engine's output root under the documents directory `documents`.
    pub fn transcriptions_root(documents: &str) -> (r: String)
        ensures
            r@ == join_of(documents@, transcriptions_subdir()),
    {
        let sub = "aTrain/transcriptions";
        proof {
            reveal_strlit("aTrain/transcriptions");
            assert(sub@ =~= transcriptions_subdir());
        }
        join_path(documents, sub)
    }
}

} // verus!

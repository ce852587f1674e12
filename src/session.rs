//! A transcription run as a state machine. The caller performs each action
//! (runs the engine, lists and reads run folders, copies a file) and hands
//! back what happened; the session decides what comes next. Every input is
//! taken through the same stages, and a failure at any stage moves on to the
//! next input.

use vstd::prelude::*;
use crate::locate::{is_latest, latest_run_folder, records_input, records_input_path, RunFolder};
use crate::paths::{join_of, join_path};
use crate::transcription::{paths_of, result_name_of, TranscriptionManager};

verus! {

/// The name of the metadata file in a run folder.
pub open spec fn metadata_file_name() -> Seq<char> {
    seq!['m', 'e', 't', 'a', 'd', 'a', 't', 'a', '.', 't', 'x', 't']
}

/// The name of the transcript file in a run folder.
pub open spec fn transcript_file_name() -> Seq<char> {
    seq!['t', 'r', 'a', 'n', 's', 'c', 'r', 'i', 'p', 't', 'i', 'o', 'n', '.', 't', 'x', 't']
}

/// Where the session stands with the current input.
pub enum Stage {
    /// The engine is to be run on the current input.
    Invoking,
    /// The engine succeeded; the run folders are to be listed.
    Listing,
    /// The latest run folder is to be read.
    Inspecting { folder: String },
    /// The located transcript is to be copied.
    Copying { from: String, to: String },
    /// Every input has been handled.
    Done,
}

pub enum StageView {
    Invoking,
    Listing,
    Inspecting(Seq<char>),
    Copying(Seq<char>, Seq<char>),
    Done,
}

impl View for Stage {
    type V = StageView;

    open spec fn view(&self) -> StageView {
        match self {
            Stage::Invoking => StageView::Invoking,
            Stage::Listing => StageView::Listing,
            Stage::Inspecting { folder } => StageView::Inspecting(folder@),
            Stage::Copying { from, to } => StageView::Copying(from@, to@),
            Stage::Done => StageView::Done,
        }
    }
}

/// What the caller observed while performing the last action.
pub enum Event {
    /// The engine exited, successfully or not (or could not be started).
    EngineFinished { success: bool },
    /// The entries of the engine's output root.
    RunFoldersListed { folders: Vec<RunFolder> },
    /// The metadata text of the run folder, if it could be read, and whether
    /// its transcript file exists.
    RunFolderInspected { metadata: Option<String>, result_present: bool },
    /// The copy of the transcript finished, successfully or not.
    CopyFinished { success: bool },
}

/// What the caller is to do next.
pub enum Action {
    /// Run the engine on this input.
    Invoke { input: String },
    /// List the engine's output root.
    ListRunFolders,
    /// Read the metadata file and check whether the transcript file exists.
    InspectRunFolder { metadata: String, result: String },
    /// Copy the transcript file.
    CopyResult { from: String, to: String },
    /// Nothing is left to do.
    Finished,
}

pub enum ActionView {
    Invoke(Seq<char>),
    ListRunFolders,
    InspectRunFolder(Seq<char>, Seq<char>),
    CopyResult(Seq<char>, Seq<char>),
    Finished,
}

impl View for Action {
    type V = ActionView;

    open spec fn view(&self) -> ActionView {
        match self {
            Action::Invoke { input } => ActionView::Invoke(input@),
            Action::ListRunFolders => ActionView::ListRunFolders,
            Action::InspectRunFolder { metadata, result } => ActionView::InspectRunFolder(metadata@, result@),
            Action::CopyResult { from, to } => ActionView::CopyResult(from@, to@),
            Action::Finished => ActionView::Finished,
        }
    }
}

pub struct SessionView {
    pub items: Seq<Seq<char>>,
    pub root: Seq<char>,
    pub current: nat,
    pub stage: StageView,
    pub produced: Seq<Seq<char>>,
}

/// The current index is in range, and the session is done exactly when every
/// input has been handled.
pub open spec fn session_wf(s: SessionView) -> bool {
    &&& s.current <= s.items.len()
    &&& (s.stage is Done <==> s.current == s.items.len())
}

/// The session moved on to the next input.
pub open spec fn next_item(s: SessionView) -> SessionView {
    SessionView {
        current: s.current + 1,
        stage: if s.current + 1 >= s.items.len() {
            StageView::Done
        } else {
            StageView::Invoking
        },
        ..s
    }
}

/// The action that a session state asks for.
pub open spec fn pending_of(s: SessionView) -> ActionView {
    match s.stage {
        StageView::Invoking => ActionView::Invoke(s.items[s.current as int]),
        StageView::Listing => ActionView::ListRunFolders,
        StageView::Inspecting(f) => ActionView::InspectRunFolder(
            join_of(f, metadata_file_name()),
            join_of(f, transcript_file_name()),
        ),
        StageView::Copying(from, to) => ActionView::CopyResult(from, to),
        StageView::Done => ActionView::Finished,
    }
}

/// The inspected run folder holds a transcript made for `input`.
pub open spec fn located(metadata: Option<String>, result_present: bool, input: Seq<char>) -> bool {
    &&& result_present
    &&& metadata matches Some(c)
    &&& records_input(c@, input)
}

/// The state after `e` is handed to a session in state `s`. An event that
/// does not answer the pending action leaves the state as it is.
pub open spec fn next_of(s: SessionView, e: Event) -> SessionView {
    match e {
        Event::EngineFinished { success } => if s.stage is Invoking {
            if success {
                SessionView { stage: StageView::Listing, ..s }
            } else {
                next_item(s)
            }
        } else {
            s
        },
        Event::RunFoldersListed { folders } => if s.stage is Listing {
            if exists|i: int| is_latest(folders@, i) {
                let i = choose|i: int| is_latest(folders@, i);
                SessionView { stage: StageView::Inspecting(folders@[i].path@), ..s }
            } else {
                next_item(s)
            }
        } else {
            s
        },
        Event::RunFolderInspected { metadata, result_present } => match s.stage {
            StageView::Inspecting(f) => if located(metadata, result_present, s.items[s.current as int]) {
                SessionView {
                    stage: StageView::Copying(
                        join_of(f, transcript_file_name()),
                        join_of(s.root, result_name_of(s.items[s.current as int])),
                    ),
                    ..s
                }
            } else {
                next_item(s)
            },
            _ => s,
        },
        Event::CopyFinished { success } => match s.stage {
            StageView::Copying(_, to) => if success {
                SessionView { produced: s.produced.push(to), ..next_item(s) }
            } else {
                next_item(s)
            },
            _ => s,
        },
    }
}

pub proof fn lemma_latest_unique(folders: Seq<RunFolder>, i: int, j: int)
    requires
        is_latest(folders, i),
        is_latest(folders, j),
    ensures
        i == j,
{
    if i < j {
        assert(folders[j].is_dir);
    } else if j < i {
        assert(folders[i].is_dir);
    }
}

impl TranscriptionManager {
    /// Starts a run of the engine over `mp3_files`, in their order; the engine
    /// writes its run folders under `transcriptions_dir`.
    pub fn transcribe_mp3_files(mp3_files: Vec<String>, transcriptions_dir: String) -> (r: TranscriptionSession)
        ensures
            r.wf(),
            r@ == (SessionView {
                items: paths_of(mp3_files@),
                root: transcriptions_dir@,
                current: 0,
                stage: if mp3_files@.len() == 0 {
                    StageView::Done
                } else {
                    StageView::Invoking
                },
                produced: Seq::empty(),
            }),
    {
        TranscriptionSession::new(mp3_files, transcriptions_dir)
    }
}

/// A run of the engine over a list of inputs.
pub struct TranscriptionSession {
    items: Vec<String>,
    output_root: String,
    current: usize,
    stage: Stage,
    produced: Vec<String>,
}

impl View for TranscriptionSession {
    type V = SessionView;

    closed spec fn view(&self) -> SessionView {
        SessionView {
            items: paths_of(self.items@),
            root: self.output_root@,
            current: self.current as nat,
            stage: self.stage@,
            produced: paths_of(self.produced@),
        }
    }
}

impl TranscriptionSession {
    pub open spec fn wf(&self) -> bool {
        session_wf(self@)
    }

    /// A session over `items`, whose engine writes run folders under `output_root`.
    pub fn new(items: Vec<String>, output_root: String) -> (r: Self)
        ensures
            r.wf(),
            r@ == (SessionView {
                items: paths_of(items@),
                root: output_root@,
                current: 0,
                stage: if items@.len() == 0 {
                    StageView::Done
                } else {
                    StageView::Invoking
                },
                produced: Seq::empty(),
            }),
    {
        let stage = if items.len() == 0 {
            Stage::Done
        } else {
            Stage::Invoking
        };
        let r = TranscriptionSession { items, output_root, current: 0, stage, produced: Vec::new() };
        assert(paths_of(r.produced@) =~= Seq::<Seq<char>>::empty());
        r
    }

    /// The action that the session waits on.
    pub fn pending_action(&self) -> (r: Action)
        requires
            self.wf(),
        ensures
            r@ == pending_of(self@),
    {
        match &self.stage {
            Stage::Invoking => Action::Invoke { input: self.items[self.current].clone() },
            Stage::Listing => Action::ListRunFolders,
            Stage::Inspecting { folder } => {
                let meta = "metadata.txt";
                let result = "transcription.txt";
                proof {
                    reveal_strlit("metadata.txt");
                    reveal_strlit("transcription.txt");
                    assert(meta@ =~= metadata_file_name());
                    assert(result@ =~= transcript_file_name());
                }
                Action::InspectRunFolder { metadata: join_path(folder.as_str(), meta), result: join_path(folder.as_str(), result) }
            },
            Stage::Copying { from, to } => Action::CopyResult { from: from.clone(), to: to.clone() },
            Stage::Done => Action::Finished,
        }
    }

    fn advance(&mut self)
        requires
            old(self).wf(),
            !(old(self)@.stage is Done),
        ensures
            final(self)@ == next_item(old(self)@),
    {
        assert(self@.items.len() == self.items@.len());
        assert(self@.stage == self.stage@);
        assert(self.current < self.items.len());
        self.current = self.current + 1;
        if self.current >= self.items.len() {
            self.stage = Stage::Done;
        } else {
            self.stage = Stage::Invoking;
        }
    }

    /// Hands the outcome of the pending action to the session; returns the
    /// next action.
    pub fn step(&mut self, event: Event) -> (action: Action)
        requires
            old(self).wf(),
        ensures
            final(self).wf(),
            final(self)@ == next_of(old(self)@, event),
            action@ == pending_of(final(self)@),
    {
        let ghost e = event;
        match event {
            Event::EngineFinished { success } => {
                if matches!(self.stage, Stage::Invoking) {
                    if success {
                        self.stage = Stage::Listing;
                    } else {
                        self.advance();
                    }
                }
            },
            Event::RunFoldersListed { folders } => {
                if matches!(self.stage, Stage::Listing) {
                    match latest_run_folder(&folders) {
                        Some(i) => {
                            proof {
                                assert forall|j: int| is_latest(folders@, j) implies j == i by {
                                    lemma_latest_unique(folders@, i as int, j);
                                }
                            }
                            self.stage = Stage::Inspecting { folder: folders[i].path.clone() };
                        },
                        None => {
                            self.advance();
                        },
                    }
                }
            },
            Event::RunFolderInspected { metadata, result_present } => {
                let folder = match &self.stage {
                    Stage::Inspecting { folder } => Some(folder.clone()),
                    _ => None,
                };
                if let Some(folder) = folder {
                    let input = self.items[self.current].as_str();
                    let found = result_present && match &metadata {
                        Some(c) => records_input_path(c.as_str(), input),
                        None => false,
                    };
                    if found {
                        let transcript = "transcription.txt";
                        proof {
                            reveal_strlit("transcription.txt");
                            assert(transcript@ =~= transcript_file_name());
                        }
                        let from = join_path(folder.as_str(), transcript);
                        let name = TranscriptionManager::result_file_name(input);
                        let to = join_path(self.output_root.as_str(), name.as_str());
                        self.stage = Stage::Copying { from, to };
                    } else {
                        self.advance();
                    }
                }
            },
            Event::CopyFinished { success } => {
                let to = match &self.stage {
                    Stage::Copying { to, .. } => Some(to.clone()),
                    _ => None,
                };
                if let Some(to) = to {
                    if success {
                        self.produced.push(to);
                        assert(paths_of(self.produced@) =~= old(self)@.produced.push(to@));
                    }
                    self.advance();
                }
            },
        }
        self.pending_action()
    }

    /// Whether every input has been handled.
    pub fn is_finished(&self) -> (r: bool)
        ensures
            r == (self@.stage is Done),
    {
        matches!(self.stage, Stage::Done)
    }

    /// The transcripts copied so far, in the order of their inputs.
    pub fn transcription_files(&self) -> (r: &Vec<String>)
        ensures
            paths_of(r@) == self@.produced,
    {
        &self.produced
    }
}

} // verus!

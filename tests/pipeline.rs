use atrain_sync::context::TestContext;
use atrain_sync::files::FileManager;
use atrain_sync::ledger::CompletionLedger;
use atrain_sync::locate::{latest_run_folder, records_input_path, trim_text, RunFolder};
use atrain_sync::paths::{file_name, file_stem, has_extension_ignoring_case, join_path, last_index};
use atrain_sync::session::{Action, Event, TranscriptionSession};
use atrain_sync::transcription::{ListedEntry, TranscriptionManager};

fn s(x: &str) -> String {
    x.to_string()
}

fn file(path: &str) -> ListedEntry {
    ListedEntry { path: s(path), is_file: true }
}

fn folder(path: &str, modified: u128) -> RunFolder {
    RunFolder { path: s(path), modified, is_dir: true }
}

fn invoked(a: &Action) -> Option<String> {
    match a {
        Action::Invoke { input } => Some(input.clone()),
        _ => None,
    }
}

/// Drives a session where the engine succeeds on every input and writes one
/// run folder per input, recording that input.
fn run_successfully(items: Vec<String>, root: &str) -> Vec<String> {
    let mut session = TranscriptionManager::transcribe_mp3_files(items, s(root));
    let mut action = session.pending_action();
    let mut last_input = String::new();
    let mut n: u128 = 0;
    loop {
        let event = match action {
            Action::Invoke { input } => {
                last_input = input;
                n += 1;
                Event::EngineFinished { success: true }
            }
            Action::ListRunFolders => {
                let mut folders = Vec::new();
                for k in 1..=n {
                    folders.push(folder(&format!("{}/run{}", root, k), k));
                }
                Event::RunFoldersListed { folders }
            }
            Action::InspectRunFolder { .. } => Event::RunFolderInspected {
                metadata: Some(format!("path_to_audio_file: {}\n", last_input)),
                result_present: true,
            },
            Action::CopyResult { .. } => Event::CopyFinished { success: true },
            Action::Finished => break,
        };
        action = session.step(event);
    }
    assert!(session.is_finished());
    session.transcription_files().clone()
}

#[test]
fn test_extract_mp3_files() {
    let listing = vec![s("/tmp/x/test.mp3")];
    let mp3_files: Vec<String> = listing.into_iter().filter(|p| FileManager::is_mp3_file(p)).collect();
    let context = TestContext::new().with_mp3_files(mp3_files);
    assert_eq!(context.mp3_files.as_ref().unwrap().len(), 1);
    assert!(context.mp3_files.as_ref().unwrap()[0].ends_with("test.mp3"));
}

#[test]
fn test_transcribe_mp3_files() {
    let context = TestContext::new().with_mp3_files(vec![s("/tmp/x/test.mp3")]);
    let produced = run_successfully(context.mp3_files.clone().unwrap(), "/home/u/Documents/aTrain/transcriptions");
    let context = context.with_transcription_files(produced);
    assert_eq!(context.transcription_files.as_ref().unwrap().len(), 1);
    assert!(context.transcription_files.as_ref().unwrap()[0].ends_with(".md"));
}

#[test]
fn test_copy_transcription_files() {
    let transcription_files = vec![s("/tmp/t1/test.mp3.md")];
    let context = TestContext::new().with_transcription_files(transcription_files).with_dest_dir(s("/tmp/d1"));
    let jobs = FileManager::copy_transcription_files(context.transcription_files.as_ref().unwrap(), context.dest_dir.as_ref().unwrap());
    assert_eq!(jobs.len(), 1);
    assert_eq!(jobs[0].from, "/tmp/t1/test.mp3.md");
    assert_eq!(jobs[0].to, "/tmp/d1/test.mp3.md");
}

#[test]
fn test_filter_untranscribed_files() {
    let dest_listing = vec![file("/tmp/d2/transcribed_test.md")];
    let transcribed = TranscriptionManager::get_transcribed_files(&dest_listing);
    let mut context = TestContext::new().with_transcribed_files(transcribed);
    context.mp3_files = Some(vec![s("/tmp/x/test.mp3")]);
    context.dest_dir = Some(s("/tmp/d2"));
    let untranscribed = TranscriptionManager::filter_untranscribed_files(
        context.mp3_files.clone().unwrap(),
        context.transcribed_files.as_ref().unwrap(),
    );
    let context = context.with_untranscribed_files(untranscribed);
    assert_eq!(context.untranscribed_files.as_ref().unwrap().len(), 1);
    assert!(context.untranscribed_files.as_ref().unwrap()[0].ends_with("test.mp3"));
}

#[test]
fn context_starts_empty_and_builders_set_one_field() {
    let c = TestContext::new();
    assert!(c.mp3_dir.is_none() && c.dest_dir.is_none() && c.mp3_files.is_none());
    assert!(c.transcribed_files.is_none() && c.untranscribed_files.is_none() && c.transcription_files.is_none());
    let c = c.with_mp3_dir(s("/a")).with_dest_dir(s("/b"));
    assert_eq!(c.mp3_dir.as_deref(), Some("/a"));
    assert_eq!(c.dest_dir.as_deref(), Some("/b"));
    assert!(c.mp3_files.is_none());
}

#[test]
fn stems_and_extensions() {
    assert_eq!(file_stem("dir/a.mp3"), "a");
    assert_eq!(file_stem("/x/y/song.live.mp3"), "song.live");
    assert_eq!(file_stem("/x/.hidden"), ".hidden");
    assert_eq!(file_stem("plain"), "plain");
    assert_eq!(file_stem("a/b."), "b");
    assert_eq!(file_name("/x/y/z.md"), "z.md");
    assert_eq!(last_index("a/b/c", '/'), Some(3));
    assert_eq!(last_index("abc", '/'), None);
    assert!(has_extension_ignoring_case("a/b.Md", "md"));
    assert!(!has_extension_ignoring_case("a/.md", "md"));
    assert!(!has_extension_ignoring_case("a/b.mdx", "md"));
}

#[test]
fn audio_files_are_recognised_in_any_case() {
    assert!(FileManager::is_mp3_file("/m/a.mp3"));
    assert!(FileManager::is_mp3_file("/m/a.MP3"));
    assert!(FileManager::is_mp3_file("/m/a.Mp3"));
    assert!(!FileManager::is_mp3_file("/m/a.mp4"));
    assert!(!FileManager::is_mp3_file("/m/mp3"));
    assert!(!FileManager::is_mp3_file("/m.mp3/a"));
}

#[test]
fn joining_paths() {
    assert_eq!(join_path("/d", "a.md"), "/d/a.md");
    assert_eq!(join_path("/d/", "a.md"), "/d/a.md");
    assert_eq!(join_path("", "a.md"), "a.md");
    assert_eq!(TranscriptionManager::transcriptions_root("/home/u/Documents"), "/home/u/Documents/aTrain/transcriptions");
    assert_eq!(TranscriptionManager::result_file_name("/s/sub/a.mp3"), "a.md");
}

#[test]
fn ledger_holds_each_stem_once() {
    let mut l = CompletionLedger::new();
    assert_eq!(l.len(), 0);
    l.insert(s("a"));
    l.insert(s("a"));
    l.insert(s("b"));
    assert_eq!(l.len(), 2);
    assert!(l.contains(&s("a")) && l.contains(&s("b")) && !l.contains(&s("c")));
}

#[test]
fn ledger_reads_only_result_files() {
    let entries = vec![
        file("/d/a.md"),
        file("/d/B.MD"),
        file("/d/c.txt"),
        ListedEntry { path: s("/d/dir.md"), is_file: false },
        file("/d/a.md"),
    ];
    let l = TranscriptionManager::get_transcribed_files(&entries);
    assert_eq!(l.len(), 2);
    assert!(l.contains(&s("a")) && l.contains(&s("B")));
    assert!(!l.contains(&s("c")) && !l.contains(&s("dir")));
}

#[test]
fn empty_destination_gives_empty_ledger() {
    let l = TranscriptionManager::get_transcribed_files(&vec![]);
    assert_eq!(l.len(), 0);
    let sel = TranscriptionManager::filter_untranscribed_files(vec![s("/s/a.mp3")], &l);
    assert_eq!(sel, vec![s("/s/a.mp3")]);
}

#[test]
fn selection_keeps_order_and_drops_done_stems() {
    let l = TranscriptionManager::get_transcribed_files(&vec![file("/d/b.md"), file("/d/d.md")]);
    let inputs = vec![s("/s/c.mp3"), s("/s/b.mp3"), s("/s/a.mp3"), s("/s/x/d.mp3"), s("/s/e.mp3")];
    let sel = TranscriptionManager::filter_untranscribed_files(inputs, &l);
    assert_eq!(sel, vec![s("/s/c.mp3"), s("/s/a.mp3"), s("/s/e.mp3")]);
}

#[test]
fn scenario_only_missing_input_is_selected_and_materialised() {
    let dest = "/dst";
    let ledger = TranscriptionManager::get_transcribed_files(&vec![file("/dst/a.md")]);
    let sel = TranscriptionManager::filter_untranscribed_files(vec![s("/src/a.mp3"), s("/src/b.mp3")], &ledger);
    assert_eq!(sel, vec![s("/src/b.mp3")]);
    let produced = run_successfully(sel, "/docs/aTrain/transcriptions");
    assert_eq!(produced, vec![s("/docs/aTrain/transcriptions/b.md")]);
    let jobs = FileManager::copy_transcription_files(&produced, dest);
    assert_eq!(jobs.len(), 1);
    assert_eq!(jobs[0].to, "/dst/b.md");
}

#[test]
fn rerun_after_success_selects_nothing() {
    let inputs = vec![s("/src/a.mp3"), s("/src/sub/b.MP3")];
    let produced = run_successfully(inputs.clone(), "/docs/aTrain/transcriptions");
    let jobs = FileManager::copy_transcription_files(&produced, "/dst");
    let listing: Vec<ListedEntry> = jobs.iter().map(|j| file(&j.to)).collect();
    let ledger = TranscriptionManager::get_transcribed_files(&listing);
    let sel = TranscriptionManager::filter_untranscribed_files(inputs, &ledger);
    assert!(sel.is_empty());
}

#[test]
fn scenario_engine_failure_skips_item_only() {
    let root = "/docs/aTrain/transcriptions";
    let mut session = TranscriptionSession::new(vec![s("/src/c.mp3"), s("/src/d.mp3")], s(root));
    assert_eq!(invoked(&session.pending_action()), Some(s("/src/c.mp3")));
    let a = session.step(Event::EngineFinished { success: false });
    assert_eq!(invoked(&a), Some(s("/src/d.mp3")));
    let a = session.step(Event::EngineFinished { success: true });
    assert!(matches!(a, Action::ListRunFolders));
    let a = session.step(Event::RunFoldersListed { folders: vec![folder("/r/1", 5)] });
    match a {
        Action::InspectRunFolder { metadata, result } => {
            assert_eq!(metadata, "/r/1/metadata.txt");
            assert_eq!(result, "/r/1/transcription.txt");
        }
        _ => panic!("expected an inspection"),
    }
    let a = session.step(Event::RunFolderInspected {
        metadata: Some(s("path_to_audio_file: /src/d.mp3\n")),
        result_present: true,
    });
    match a {
        Action::CopyResult { from, to } => {
            assert_eq!(from, "/r/1/transcription.txt");
            assert_eq!(to, "/docs/aTrain/transcriptions/d.md");
        }
        _ => panic!("expected a copy"),
    }
    let a = session.step(Event::CopyFinished { success: true });
    assert!(matches!(a, Action::Finished));
    assert_eq!(session.transcription_files(), &vec![s("/docs/aTrain/transcriptions/d.md")]);
}

#[test]
fn scenario_latest_folder_of_another_input_gives_no_result() {
    let mut session = TranscriptionSession::new(vec![s("/src/a.mp3"), s("/src/b.mp3")], s("/root"));
    session.step(Event::EngineFinished { success: true });
    let a = session.step(Event::RunFoldersListed {
        folders: vec![folder("/root/old", 1), folder("/root/new", 9)],
    });
    assert!(matches!(a, Action::InspectRunFolder { ref metadata, .. } if metadata == "/root/new/metadata.txt"));
    let a = session.step(Event::RunFolderInspected {
        metadata: Some(s("path_to_audio_file: /src/other.mp3\n")),
        result_present: true,
    });
    assert_eq!(invoked(&a), Some(s("/src/b.mp3")));
    assert!(session.transcription_files().is_empty());
}

#[test]
fn locate_and_copy_failures_move_on() {
    let mut session = TranscriptionSession::new(vec![s("/a.mp3"), s("/b.mp3"), s("/c.mp3"), s("/d.mp3")], s("/r"));
    session.step(Event::EngineFinished { success: true });
    let a = session.step(Event::RunFoldersListed { folders: vec![RunFolder { path: s("/r/f"), modified: 3, is_dir: false }] });
    assert_eq!(invoked(&a), Some(s("/b.mp3")));
    session.step(Event::EngineFinished { success: true });
    session.step(Event::RunFoldersListed { folders: vec![folder("/r/1", 1)] });
    let a = session.step(Event::RunFolderInspected { metadata: Some(s("path_to_audio_file: /b.mp3")), result_present: false });
    assert_eq!(invoked(&a), Some(s("/c.mp3")));
    session.step(Event::EngineFinished { success: true });
    session.step(Event::RunFoldersListed { folders: vec![folder("/r/1", 1)] });
    let a = session.step(Event::RunFolderInspected { metadata: Some(s("path_to_audio_file: /c.mp3")), result_present: true });
    assert!(matches!(a, Action::CopyResult { .. }));
    let a = session.step(Event::CopyFinished { success: false });
    assert_eq!(invoked(&a), Some(s("/d.mp3")));
    let a = session.step(Event::RunFolderInspected { metadata: None, result_present: true });
    assert_eq!(invoked(&a), Some(s("/d.mp3")));
    session.step(Event::EngineFinished { success: true });
    session.step(Event::RunFoldersListed { folders: vec![folder("/r/2", 2)] });
    let a = session.step(Event::RunFolderInspected { metadata: None, result_present: true });
    assert!(matches!(a, Action::Finished));
    assert!(session.is_finished());
    assert!(session.transcription_files().is_empty());
}

#[test]
fn empty_session_is_finished() {
    let session = TranscriptionSession::new(vec![], s("/r"));
    assert!(session.is_finished());
    assert!(matches!(session.pending_action(), Action::Finished));
}

#[test]
fn latest_folder_is_newest_directory_last_among_equals() {
    let fs = vec![folder("/r/a", 4), RunFolder { path: s("/r/f"), modified: 9, is_dir: false }, folder("/r/b", 7), folder("/r/c", 7), folder("/r/d", 2)];
    assert_eq!(latest_run_folder(&fs), Some(3));
    assert_eq!(latest_run_folder(&vec![]), None);
    assert_eq!(latest_run_folder(&vec![RunFolder { path: s("/r/f"), modified: 1, is_dir: false }]), None);
}

#[test]
fn metadata_lines_are_matched_exactly_after_trimming() {
    let content = "model: x\npath_to_audio_file:   /a/b.mp3 \r\nother: y\n";
    assert!(records_input_path(content, "/a/b.mp3"));
    assert!(!records_input_path(content, "/a/b"));
    assert!(!records_input_path(content, "/a/b.mp3 "));
    assert!(!records_input_path("xpath_to_audio_file: /a.mp3", "/a.mp3"));
    assert!(!records_input_path("", ""));
    assert!(records_input_path("path_to_audio_file:\n", ""));
    assert!(records_input_path("a: 1\r\npath_to_audio_file: /c:/d.mp3", "/c:/d.mp3"));
    assert_eq!(trim_text(" \t x y \n"), "x y");
    assert_eq!(trim_text("\u{3000}z\u{a0}"), "z");
}

#[test]
fn failing_middle_item_leaves_neighbours_alone() {
    let root = "/docs/aTrain/transcriptions";
    let mut session = TranscriptionManager::transcribe_mp3_files(vec![s("/src/a.mp3"), s("/src/c.mp3"), s("/src/d.mp3")], s(root));
    let mut action = session.pending_action();
    let mut current = String::new();
    let mut n: u128 = 0;
    loop {
        let event = match action {
            Action::Invoke { input } => {
                current = input;
                if current == "/src/c.mp3" {
                    Event::EngineFinished { success: false }
                } else {
                    n += 1;
                    Event::EngineFinished { success: true }
                }
            }
            Action::ListRunFolders => Event::RunFoldersListed { folders: vec![folder(&format!("{}/run{}", root, n), n)] },
            Action::InspectRunFolder { .. } => Event::RunFolderInspected {
                metadata: Some(format!("path_to_audio_file: {}", current)),
                result_present: true,
            },
            Action::CopyResult { .. } => Event::CopyFinished { success: true },
            Action::Finished => break,
        };
        action = session.step(event);
    }
    assert_eq!(
        session.transcription_files(),
        &vec![s("/docs/aTrain/transcriptions/a.md"), s("/docs/aTrain/transcriptions/d.md")]
    );
}

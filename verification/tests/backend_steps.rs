use lunatig::backend::{
    classify, list_files, Action, Backend, Command, Event, FileStatus, FileStatusStatus, Listing,
    Outcome, StatusEntry,
};

fn entry(path: &str, status: git2::Status) -> StatusEntry {
    StatusEntry { path: Some(path.to_string()), bits: status.bits() }
}

fn unreadable(status: git2::Status) -> StatusEntry {
    StatusEntry { path: None, bits: status.bits() }
}

fn shown(files: &[FileStatus]) -> Vec<(String, FileStatusStatus)> {
    files.iter().map(|f| (f.path.clone(), f.status_type)).collect()
}

fn sent_files(action: Action) -> (bool, Vec<(String, FileStatusStatus)>) {
    match action {
        Action::Send(Event::StagedFiles(files)) => (true, shown(&files)),
        Action::Send(Event::UnstagedFiles(files)) => (false, shown(&files)),
        other => panic!("expected a send, got {:?}", other),
    }
}

fn is_receive(action: &Action) -> bool {
    matches!(action, Action::ReceiveCommand)
}

#[test]
fn classify_reads_each_working_tree_flag() {
    assert_eq!(classify(Listing::Workdir, git2::Status::WT_NEW.bits()), Some(FileStatusStatus::New));
    assert_eq!(classify(Listing::Workdir, git2::Status::WT_MODIFIED.bits()), Some(FileStatusStatus::Modified));
    assert_eq!(classify(Listing::Workdir, git2::Status::WT_DELETED.bits()), Some(FileStatusStatus::Deleted));
    assert_eq!(classify(Listing::Workdir, git2::Status::WT_TYPECHANGE.bits()), Some(FileStatusStatus::TypeChanged));
    assert_eq!(classify(Listing::Workdir, git2::Status::WT_RENAMED.bits()), None);
    assert_eq!(classify(Listing::Workdir, git2::Status::INDEX_NEW.bits()), None);
    assert_eq!(classify(Listing::Workdir, 0), None);
}

#[test]
fn classify_reads_each_index_flag() {
    assert_eq!(classify(Listing::Index, git2::Status::INDEX_NEW.bits()), Some(FileStatusStatus::New));
    assert_eq!(classify(Listing::Index, git2::Status::INDEX_MODIFIED.bits()), Some(FileStatusStatus::Modified));
    assert_eq!(classify(Listing::Index, git2::Status::INDEX_DELETED.bits()), Some(FileStatusStatus::Deleted));
    assert_eq!(classify(Listing::Index, git2::Status::INDEX_TYPECHANGE.bits()), Some(FileStatusStatus::TypeChanged));
    assert_eq!(classify(Listing::Index, git2::Status::INDEX_RENAMED.bits()), None);
    assert_eq!(classify(Listing::Index, git2::Status::WT_NEW.bits()), None);
    assert_eq!(classify(Listing::Index, git2::Status::CONFLICTED.bits()), None);
}

#[test]
fn classify_follows_precedence() {
    let all_wt = git2::Status::WT_NEW | git2::Status::WT_MODIFIED | git2::Status::WT_DELETED | git2::Status::WT_TYPECHANGE;
    assert_eq!(classify(Listing::Workdir, all_wt.bits()), Some(FileStatusStatus::Deleted));
    let new_mod = git2::Status::WT_NEW | git2::Status::WT_MODIFIED;
    assert_eq!(classify(Listing::Workdir, new_mod.bits()), Some(FileStatusStatus::New));
    let mod_type = git2::Status::INDEX_MODIFIED | git2::Status::INDEX_TYPECHANGE;
    assert_eq!(classify(Listing::Index, mod_type.bits()), Some(FileStatusStatus::Modified));
    let both = git2::Status::INDEX_NEW | git2::Status::WT_MODIFIED;
    assert_eq!(classify(Listing::Index, both.bits()), Some(FileStatusStatus::New));
    assert_eq!(classify(Listing::Workdir, both.bits()), Some(FileStatusStatus::Modified));
}

#[test]
fn listing_keeps_order_and_paths() {
    let entries = vec![
        entry("a.txt", git2::Status::WT_NEW),
        entry("src/b.rs", git2::Status::WT_MODIFIED),
        entry("c", git2::Status::WT_DELETED | git2::Status::WT_NEW),
    ];
    let files = list_files(Listing::Workdir, &entries).unwrap();
    assert_eq!(
        shown(&files),
        vec![
            ("a.txt".to_string(), FileStatusStatus::New),
            ("src/b.rs".to_string(), FileStatusStatus::Modified),
            ("c".to_string(), FileStatusStatus::Deleted),
        ]
    );
}

#[test]
fn listing_of_nothing_is_empty() {
    let files = list_files(Listing::Index, &Vec::new()).unwrap();
    assert!(files.is_empty());
}

#[test]
fn listing_stops_at_first_unknown_status() {
    let entries = vec![
        entry("kept", git2::Status::INDEX_MODIFIED),
        entry("renamed", git2::Status::INDEX_RENAMED),
        entry("dropped", git2::Status::INDEX_NEW),
    ];
    let files = list_files(Listing::Index, &entries).unwrap();
    assert_eq!(shown(&files), vec![("kept".to_string(), FileStatusStatus::Modified)]);
}

#[test]
fn listing_with_unreadable_path_fails() {
    let entries = vec![entry("a", git2::Status::WT_NEW), unreadable(git2::Status::WT_MODIFIED)];
    assert!(list_files(Listing::Workdir, &entries).is_err());
    // The path of the entry that ends the list is read too.
    let entries = vec![entry("a", git2::Status::WT_NEW), unreadable(git2::Status::IGNORED)];
    assert!(list_files(Listing::Workdir, &entries).is_err());
}

#[test]
fn unreadable_path_after_the_end_does_not_matter() {
    let entries = vec![
        entry("a", git2::Status::WT_NEW),
        entry("b", git2::Status::CONFLICTED),
        unreadable(git2::Status::WT_NEW),
    ];
    let files = list_files(Listing::Workdir, &entries).unwrap();
    assert_eq!(shown(&files), vec![("a".to_string(), FileStatusStatus::New)]);
}

#[test]
fn close_stops_the_worker() {
    let mut backend = Backend::new();
    assert!(backend.running());
    let action = backend.step(Outcome::Received(Command::Close));
    assert!(matches!(action, Action::Stop));
    assert!(!backend.running());
    assert!(matches!(backend.step(Outcome::Received(Command::GetStatuses)), Action::Stop));
    assert!(matches!(backend.step(Outcome::Done), Action::Stop));
    assert!(!backend.running());
}

#[test]
fn closed_channel_stops_the_worker() {
    let mut backend = Backend::new();
    assert!(matches!(backend.step(Outcome::ChannelClosed), Action::Stop));
    assert!(!backend.running());
}

fn refresh_tail(backend: &mut Backend) {
    let (staged, files) = sent_files(backend.step(Outcome::Listed(vec![entry("s", git2::Status::INDEX_NEW)])));
    assert!(staged);
    assert_eq!(files, vec![("s".to_string(), FileStatusStatus::New)]);
    assert!(matches!(backend.step(Outcome::Done), Action::ListStatuses(Listing::Workdir)));
    let (staged, files) = sent_files(backend.step(Outcome::Listed(vec![entry("u", git2::Status::WT_MODIFIED)])));
    assert!(!staged);
    assert_eq!(files, vec![("u".to_string(), FileStatusStatus::Modified)]);
    assert!(is_receive(&backend.step(Outcome::Done)));
    assert!(backend.running());
}

#[test]
fn get_statuses_lists_staged_then_unstaged() {
    let mut backend = Backend::new();
    assert!(matches!(backend.step(Outcome::Received(Command::GetStatuses)), Action::ListStatuses(Listing::Index)));
    refresh_tail(&mut backend);
}

#[test]
fn staging_an_existing_file_adds_it() {
    let mut backend = Backend::new();
    match backend.step(Outcome::Received(Command::StageFile { path: "x.rs".to_string() })) {
        Action::CheckPathExists { path } => assert_eq!(path, "x.rs"),
        other => panic!("unexpected {:?}", other),
    }
    match backend.step(Outcome::PathExists(true)) {
        Action::AddToIndex { path } => assert_eq!(path, "x.rs"),
        other => panic!("unexpected {:?}", other),
    }
    assert!(matches!(backend.step(Outcome::Done), Action::WriteIndex));
    assert!(matches!(backend.step(Outcome::Done), Action::ListStatuses(Listing::Index)));
    refresh_tail(&mut backend);
}

#[test]
fn staging_a_missing_file_removes_it() {
    let mut backend = Backend::new();
    backend.step(Outcome::Received(Command::StageFile { path: "gone".to_string() }));
    match backend.step(Outcome::PathExists(false)) {
        Action::RemoveFromIndex { path } => assert_eq!(path, "gone"),
        other => panic!("unexpected {:?}", other),
    }
    assert!(matches!(backend.step(Outcome::Done), Action::WriteIndex));
    assert!(matches!(backend.step(Outcome::Done), Action::ListStatuses(Listing::Index)));
}

#[test]
fn unstaging_resets_to_head() {
    let mut backend = Backend::new();
    match backend.step(Outcome::Received(Command::ResetStagedFile { path: "y".to_string() })) {
        Action::ResetToHead { path } => assert_eq!(path, "y"),
        other => panic!("unexpected {:?}", other),
    }
    assert!(matches!(backend.step(Outcome::Done), Action::ListStatuses(Listing::Index)));
    refresh_tail(&mut backend);
}

#[test]
fn commit_creates_commit_with_message() {
    let mut backend = Backend::new();
    match backend.step(Outcome::Received(Command::Commit { message: "first".to_string() })) {
        Action::CreateCommit { message } => assert_eq!(message, "first"),
        other => panic!("unexpected {:?}", other),
    }
    assert!(matches!(backend.step(Outcome::Done), Action::ListStatuses(Listing::Index)));
    refresh_tail(&mut backend);
}

#[test]
fn failure_abandons_command_and_keeps_running() {
    let mut backend = Backend::new();
    backend.step(Outcome::Received(Command::Commit { message: "m".to_string() }));
    assert!(is_receive(&backend.step(Outcome::Failed)));
    assert!(backend.running());
    backend.step(Outcome::Received(Command::GetStatuses));
    backend.step(Outcome::Listed(Vec::new()));
    assert!(is_receive(&backend.step(Outcome::Failed)));
    backend.step(Outcome::Received(Command::StageFile { path: "p".to_string() }));
    assert!(is_receive(&backend.step(Outcome::Failed)));
    assert!(backend.running());
}

#[test]
fn unreadable_listing_sends_nothing() {
    let mut backend = Backend::new();
    backend.step(Outcome::Received(Command::GetStatuses));
    let action = backend.step(Outcome::Listed(vec![unreadable(git2::Status::INDEX_NEW)]));
    assert!(is_receive(&action));
    backend.step(Outcome::Received(Command::GetStatuses));
    backend.step(Outcome::Listed(Vec::new()));
    backend.step(Outcome::Done);
    assert!(is_receive(&backend.step(Outcome::Listed(vec![unreadable(git2::Status::WT_NEW)]))));
}

#[test]
fn unexpected_outcome_abandons_command() {
    let mut backend = Backend::new();
    backend.step(Outcome::Received(Command::StageFile { path: "p".to_string() }));
    assert!(is_receive(&backend.step(Outcome::Done)));
    // While waiting for a command, other outcomes are ignored.
    assert!(is_receive(&backend.step(Outcome::Done)));
    assert!(backend.running());
}

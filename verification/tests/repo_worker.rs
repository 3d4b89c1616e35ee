use lunatig::backend::{list_files, Action, Listing, StatusEntry};
use lunatig::repo::{all_paths_readable, strict_list_files, Command, Event, FileStatusStatus, Outcome, Worker};

fn entry(path: &str, status: git2::Status) -> StatusEntry {
    StatusEntry { path: Some(path.to_string()), bits: status.bits() }
}

fn unreadable(status: git2::Status) -> StatusEntry {
    StatusEntry { path: None, bits: status.bits() }
}

#[test]
fn strict_listing_reads_paths_after_status() {
    let entries = vec![
        entry("a", git2::Status::WT_TYPECHANGE),
        unreadable(git2::Status::IGNORED),
        entry("b", git2::Status::WT_NEW),
    ];
    assert!(all_paths_readable(Listing::Workdir, &entries));
    let files = strict_list_files(Listing::Workdir, &entries);
    assert_eq!(files.len(), 1);
    assert_eq!(files[0].path, "a");
    assert_eq!(files[0].status_type, FileStatusStatus::TypeChanged);
    // The newer worker reads the path of the entry that ends the list.
    assert!(list_files(Listing::Workdir, &entries).is_err());
}

#[test]
fn strict_listing_needs_paths_of_shown_files() {
    let entries = vec![entry("a", git2::Status::INDEX_NEW), unreadable(git2::Status::INDEX_DELETED)];
    assert!(!all_paths_readable(Listing::Index, &entries));
}

#[test]
fn strict_listing_agrees_with_backend() {
    let entries = vec![
        entry("x", git2::Status::INDEX_DELETED),
        entry("y", git2::Status::INDEX_NEW | git2::Status::INDEX_MODIFIED),
    ];
    let strict = strict_list_files(Listing::Index, &entries);
    let newer = list_files(Listing::Index, &entries).unwrap();
    assert_eq!(strict.len(), newer.len());
    for (a, b) in strict.iter().zip(newer.iter()) {
        assert_eq!(a.path, b.path);
        assert_eq!(a.status_type, b.status_type);
    }
}

#[test]
fn strict_worker_stages_without_checking() {
    let mut worker = Worker::new();
    let outcome = Outcome::Received(Command::StageFile { path: "f".to_string() });
    assert!(worker.accepts(&outcome));
    match worker.step(outcome) {
        Action::AddToIndex { path } => assert_eq!(path, "f"),
        other => panic!("unexpected {:?}", other),
    }
    assert!(!worker.accepts(&Outcome::Failed));
    assert!(!worker.accepts(&Outcome::PathExists(true)));
    assert!(worker.accepts(&Outcome::Done));
    assert!(matches!(worker.step(Outcome::Done), Action::WriteIndex));
    assert!(matches!(worker.step(Outcome::Done), Action::ListStatuses(Listing::Index)));
    let listing = Outcome::Listed(vec![entry("f", git2::Status::INDEX_NEW)]);
    assert!(worker.accepts(&listing));
    match worker.step(listing) {
        Action::Send(Event::StagedFiles(files)) => {
            assert_eq!(files.len(), 1);
            assert_eq!(files[0].status_type, FileStatusStatus::New);
        },
        other => panic!("unexpected {:?}", other),
    }
    assert!(matches!(worker.step(Outcome::Done), Action::ListStatuses(Listing::Workdir)));
    let listing = Outcome::Listed(vec![unreadable(git2::Status::WT_NEW)]);
    assert!(!worker.accepts(&listing));
    let listing = Outcome::Listed(Vec::new());
    assert!(worker.accepts(&listing));
    match worker.step(listing) {
        Action::Send(Event::UnstagedFiles(files)) => assert!(files.is_empty()),
        other => panic!("unexpected {:?}", other),
    }
    assert!(matches!(worker.step(Outcome::Done), Action::ReceiveCommand));
    assert!(worker.running());
}

#[test]
fn strict_worker_stops_on_close() {
    let mut worker = Worker::new();
    assert!(!worker.accepts(&Outcome::Done));
    assert!(matches!(worker.step(Outcome::Received(Command::Close)), Action::Stop));
    assert!(!worker.running());
    assert!(worker.accepts(&Outcome::Failed));
    assert!(matches!(worker.step(Outcome::Failed), Action::Stop));
}

#[test]
fn strict_worker_stops_when_channel_closes() {
    let mut worker = Worker::new();
    assert!(worker.accepts(&Outcome::ChannelClosed));
    assert!(matches!(worker.step(Outcome::ChannelClosed), Action::Stop));
    assert!(!worker.running());
}

#[test]
fn strict_worker_commits_and_resets() {
    let mut worker = Worker::new();
    match worker.step(Outcome::Received(Command::Commit { message: "msg".to_string() })) {
        Action::CreateCommit { message } => assert_eq!(message, "msg"),
        other => panic!("unexpected {:?}", other),
    }
    assert!(matches!(worker.step(Outcome::Done), Action::ListStatuses(Listing::Index)));
    let mut worker = Worker::new();
    match worker.step(Outcome::Received(Command::ResetStagedFile { path: "r".to_string() })) {
        Action::ResetToHead { path } => assert_eq!(path, "r"),
        other => panic!("unexpected {:?}", other),
    }
    assert!(matches!(worker.step(Outcome::Done), Action::ListStatuses(Listing::Index)));
}

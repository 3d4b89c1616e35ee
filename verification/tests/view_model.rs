use lunatig::backend::{Event, FileStatus, FileStatusStatus};
use lunatig::view::{status_tag, Poll, Reaction, RepoView};

fn file(path: &str, status_type: FileStatusStatus) -> FileStatus {
    FileStatus { path: path.to_string(), status_type }
}

#[test]
fn new_view_is_empty_and_attached() {
    let view = RepoView::new();
    assert!(view.unstaged_files.is_empty());
    assert!(view.staged_files.is_empty());
    assert!(view.is_backend_alive(false));
    assert!(!view.is_backend_alive(true));
}

#[test]
fn events_replace_their_own_list() {
    let mut view = RepoView::new();
    view.apply_event(Event::StagedFiles(vec![file("s", FileStatusStatus::New)]));
    view.apply_event(Event::UnstagedFiles(vec![file("u", FileStatusStatus::Deleted), file("v", FileStatusStatus::Modified)]));
    assert_eq!(view.staged_files.len(), 1);
    assert_eq!(view.staged_files[0].path, "s");
    assert_eq!(view.unstaged_files.len(), 2);
    assert_eq!(view.unstaged_files[1].path, "v");
    view.apply_event(Event::StagedFiles(Vec::new()));
    assert!(view.staged_files.is_empty());
    assert_eq!(view.unstaged_files.len(), 2);
}

#[test]
fn polls_are_answered() {
    let mut view = RepoView::new();
    assert!(matches!(view.on_poll(Poll::Empty), Reaction::Nothing));
    match view.on_poll(Poll::Event(Event::StagedFiles(vec![file("a", FileStatusStatus::TypeChanged)]))) {
        Reaction::Deliver(Event::StagedFiles(files)) => assert_eq!(files[0].path, "a"),
        other => panic!("unexpected {:?}", other),
    }
    assert!(view.backend_attached);
    assert!(matches!(view.on_poll(Poll::Disconnected), Reaction::CloseBackend));
    assert!(!view.backend_attached);
    assert!(!view.is_backend_alive(false));
}

#[test]
fn status_tags() {
    assert_eq!(status_tag(FileStatusStatus::New), "NEW");
    assert_eq!(status_tag(FileStatusStatus::Modified), "MOD");
    assert_eq!(status_tag(FileStatusStatus::Deleted), "DEL");
    assert_eq!(status_tag(FileStatusStatus::TypeChanged), "TYP");
}

#[test]
fn frame_drains_until_first_non_event() {
    let mut view = RepoView::new();
    let polls = vec![
        Poll::Event(Event::StagedFiles(vec![file("s", FileStatusStatus::New)])),
        Poll::Event(Event::UnstagedFiles(vec![file("u", FileStatusStatus::Modified)])),
        Poll::Empty,
        Poll::Event(Event::StagedFiles(Vec::new())),
    ];
    assert!(!view.frame(false, polls));
    assert_eq!(view.staged_files.len(), 1);
    assert_eq!(view.unstaged_files[0].path, "u");
    assert!(view.backend_attached);
}

#[test]
fn frame_detaches_a_gone_worker() {
    let mut view = RepoView::new();
    let polls = vec![Poll::Event(Event::UnstagedFiles(vec![file("a", FileStatusStatus::New)])), Poll::Disconnected];
    assert!(view.frame(false, polls));
    assert!(!view.backend_attached);
    assert_eq!(view.unstaged_files.len(), 1);
    // Offline from now on: later frames change nothing and ask for nothing.
    let polls = vec![Poll::Event(Event::UnstagedFiles(Vec::new())), Poll::Disconnected];
    assert!(!view.frame(false, polls));
    assert_eq!(view.unstaged_files.len(), 1);
    assert!(!view.is_backend_alive(false));
}

#[test]
fn frame_of_finished_worker_changes_nothing() {
    let mut view = RepoView::new();
    let polls = vec![Poll::Event(Event::StagedFiles(vec![file("x", FileStatusStatus::Deleted)]))];
    assert!(!view.frame(true, polls));
    assert!(view.staged_files.is_empty());
    assert!(view.backend_attached);
}

//! What the user interface knows of the repository: the staged and unstaged
//! files the worker last sent, and whether the worker is still attached.
use vstd::prelude::*;
use crate::backend::{Event, EventView, FileStatus, FileStatusStatus};

verus! {

/// The short tag shown in front of a file of the given status.
pub open spec fn tag_of(status: FileStatusStatus) -> Seq<char> {
    match status {
        FileStatusStatus::New => "NEW"@,
        FileStatusStatus::Modified => "MOD"@,
        FileStatusStatus::Deleted => "DEL"@,
        FileStatusStatus::TypeChanged => "TYP"@,
    }
}

/// The short tag shown in front of a file of the given status.
pub fn status_tag(status: FileStatusStatus) -> (r: &'static str)
    ensures
        r@ == tag_of(status),
        match status {
            FileStatusStatus::New => r@ == "NEW"@,
            FileStatusStatus::Modified => r@ == "MOD"@,
            FileStatusStatus::Deleted => r@ == "DEL"@,
            FileStatusStatus::TypeChanged => r@ == "TYP"@,
        },
{
    match status {
        FileStatusStatus::New => "NEW",
        FileStatusStatus::Modified => "MOD",
        FileStatusStatus::Deleted => "DEL",
        FileStatusStatus::TypeChanged => "TYP",
    }
}

/// The lists shown, unstaged files first, after `event` arrives while
/// `lists` are shown: the event replaces the list it carries and leaves the
/// other one.
pub open spec fn applied(lists: (Seq<FileStatus>, Seq<FileStatus>), event: EventView) -> (
    Seq<FileStatus>,
    Seq<FileStatus>,
) {
    match event {
        EventView::UnstagedFiles(files) => (files, lists.1),
        EventView::StagedFiles(files) => (lists.0, files),
    }
}

/// What a poll of the event channel gave.
#[derive(Debug)]
pub enum Poll {
    /// An event arrived.
    Event(Event),
    /// No event is waiting.
    Empty,
    /// The worker is gone: no event can arrive any more.
    Disconnected,
}

/// What the user interface does with a poll.
#[derive(Debug)]
pub enum Reaction {
    /// Fold this event into the lists.
    Deliver(Event),
    /// Nothing to do until the next poll.
    Nothing,
    /// Ask the worker to close; it is no longer attached.
    CloseBackend,
}

/// The repository as the user interface shows it.
pub struct RepoView {
    pub unstaged_files: Vec<FileStatus>,
    pub staged_files: Vec<FileStatus>,
    /// Whether a worker was started and has not been let go.
    pub backend_attached: bool,
}

impl RepoView {
    /// The view of a freshly opened repository: nothing listed yet, its
    /// worker attached.
    pub fn new() -> (r: RepoView)
        ensures
            r.unstaged_files@ == Seq::<FileStatus>::empty(),
            r.staged_files@ == Seq::<FileStatus>::empty(),
            r.backend_attached,
    {
        RepoView { unstaged_files: Vec::new(), staged_files: Vec::new(), backend_attached: true }
    }

    /// Whether the worker is alive: it is attached and its thread has not
    /// `finished`.
    pub fn is_backend_alive(&self, finished: bool) -> (r: bool)
        ensures
            r == (self.backend_attached && !finished),
    {
        if self.backend_attached {
            !finished
        } else {
            false
        }
    }

    /// Decides what a poll of the event channel leads to. When the worker is
    /// gone it is let go and asked to close.
    pub fn on_poll(&mut self, poll: Poll) -> (r: Reaction)
        ensures
            match poll {
                Poll::Event(event) => r == Reaction::Deliver(event) && final(self).backend_attached
                    == old(self).backend_attached,
                Poll::Empty => r is Nothing && final(self).backend_attached == old(self).backend_attached,
                Poll::Disconnected => r is CloseBackend && !final(self).backend_attached,
            },
            final(self).unstaged_files == old(self).unstaged_files,
            final(self).staged_files == old(self).staged_files,
    {
        match poll {
            Poll::Event(event) => Reaction::Deliver(event),
            Poll::Empty => Reaction::Nothing,
            Poll::Disconnected => {
                self.backend_attached = false;
                Reaction::CloseBackend
            },
        }
    }

    /// Folds an event from the worker into the lists.
    pub fn apply_event(&mut self, event: Event)
        ensures
            (final(self).unstaged_files@, final(self).staged_files@) == applied(
                (old(self).unstaged_files@, old(self).staged_files@),
                event@,
            ),
            final(self).backend_attached == old(self).backend_attached,
            match event {
                Event::UnstagedFiles(files) => final(self).unstaged_files@ == files@
                    && final(self).staged_files == old(self).staged_files,
                Event::StagedFiles(files) => final(self).staged_files@ == files@
                    && final(self).unstaged_files == old(self).unstaged_files,
            },
    {
        match event {
            Event::UnstagedFiles(files) => {
                self.unstaged_files = files;
            },
            Event::StagedFiles(files) => {
                self.staged_files = files;
            },
        }
    }
}

/// After the two events of a refresh, the staged files and then the unstaged
/// files, the view shows exactly what they carried, whatever it showed
/// before.
pub proof fn lemma_refresh_replaces_lists(
    lists: (Seq<FileStatus>, Seq<FileStatus>),
    staged: Seq<FileStatus>,
    unstaged: Seq<FileStatus>,
)
    ensures
        applied(applied(lists, EventView::StagedFiles(staged)), EventView::UnstagedFiles(unstaged)) == (
            unstaged,
            staged,
        ),
{
}


/// What the window shows, as the specifications see it.
pub struct Shown {
    pub unstaged: Seq<FileStatus>,
    pub staged: Seq<FileStatus>,
    pub attached: bool,
}

impl RepoView {
    /// What this view shows.
    pub open spec fn shown(&self) -> Shown {
        Shown { unstaged: self.unstaged_files@, staged: self.staged_files@, attached: self.backend_attached }
    }
}

/// Whether a view showing `shown` has a live worker, its thread having
/// `finished` or not.
pub open spec fn alive(shown: Shown, finished: bool) -> bool {
    shown.attached && !finished
}

/// `shown` after `event` arrives.
pub open spec fn apply_shown(shown: Shown, event: EventView) -> Shown {
    let lists = applied((shown.unstaged, shown.staged), event);
    Shown { unstaged: lists.0, staged: lists.1, attached: shown.attached }
}

/// `shown` after draining `polls` in order: events are folded in until the
/// first poll that is not an event. The flag is set when that poll found the
/// worker gone, which lets the worker go and asks it to close.
pub open spec fn drained(shown: Shown, polls: Seq<Poll>) -> (Shown, bool)
    decreases polls.len(),
{
    if polls.len() == 0 {
        (shown, false)
    } else {
        match polls[0] {
            Poll::Event(event) => drained(apply_shown(shown, event@), polls.drop_first()),
            Poll::Empty => (shown, false),
            Poll::Disconnected => (Shown { attached: false, ..shown }, true),
        }
    }
}

/// One frame of the window: events are drained only while the worker is
/// alive; otherwise nothing changes.
pub open spec fn frame(shown: Shown, finished: bool, polls: Seq<Poll>) -> (Shown, bool) {
    if alive(shown, finished) {
        drained(shown, polls)
    } else {
        (shown, false)
    }
}

/// What is shown after the frames whose thread states are `finished` and
/// whose polls are `polls`, one frame per position.
pub open spec fn frames(shown: Shown, finished: Seq<bool>, polls: Seq<Seq<Poll>>) -> Shown
    decreases finished.len(),
{
    if finished.len() == 0 || polls.len() == 0 {
        shown
    } else {
        frames(frame(shown, finished[0], polls[0]).0, finished.drop_first(), polls.drop_first())
    }
}

impl RepoView {
    /// Runs one frame: when the worker is alive, folds in the `polls` of the
    /// event channel in order, up to the first that is not an event. Returns
    /// whether the worker was found gone, so that it is to be asked to close.
    pub fn frame(&mut self, finished: bool, polls: Vec<Poll>) -> (close: bool)
        ensures
            (final(self).shown(), close) == frame(old(self).shown(), finished, polls@),
    {
        if !self.is_backend_alive(finished) {
            return false;
        }
        let ghost start = self.shown();
        let ghost all = polls@;
        let mut pending = polls;
        while pending.len() > 0
            invariant
                all == polls@,
                frame(old(self).shown(), finished, all) == drained(start, all),
                drained(start, all) == drained(self.shown(), pending@),
            decreases pending.len(),
        {
            let ghost before = pending@;
            let poll = pending.remove(0);
            assert(before.drop_first() =~= pending@);
            match self.on_poll(poll) {
                Reaction::Deliver(event) => self.apply_event(event),
                Reaction::Nothing => {
                    return false;
                },
                Reaction::CloseBackend => {
                    return true;
                },
            }
        }
        false
    }
}

/// Once the worker is offline at the start of a frame, and its thread, once
/// finished, stays finished, it is offline at the start of every later frame
/// and nothing shown ever changes again, whatever the polls.
pub proof fn lemma_offline_is_final(shown: Shown, finished: Seq<bool>, polls: Seq<Seq<Poll>>)
    requires
        finished.len() > 0,
        !alive(shown, finished[0]),
        forall|i: int, j: int| 0 <= i <= j < finished.len() && #[trigger] finished[i] ==> #[trigger] finished[j],
    ensures
        forall|k: int| 0 <= k < finished.len() ==> !alive(shown, #[trigger] finished[k]),
        forall|k: int| 0 <= k <= finished.len() ==> #[trigger] frames(shown, finished.take(k), polls.take(k)) == shown,
{
    assert forall|k: int| 0 <= k < finished.len() implies !alive(shown, #[trigger] finished[k]) by {
        if shown.attached {
            assert(finished[0]);
        }
    }
    assert forall|k: int| 0 <= k <= finished.len() implies #[trigger] frames(
        shown,
        finished.take(k),
        polls.take(k),
    ) == shown by {
        lemma_offline_frames(shown, finished.take(k), polls.take(k));
    }
}

/// Frames whose every thread state leaves the worker offline change nothing.
proof fn lemma_offline_frames(shown: Shown, finished: Seq<bool>, polls: Seq<Seq<Poll>>)
    requires
        forall|k: int| 0 <= k < finished.len() ==> !alive(shown, #[trigger] finished[k]),
    ensures
        frames(shown, finished, polls) == shown,
    decreases finished.len(),
{
    if finished.len() > 0 && polls.len() > 0 {
        let rest = finished.drop_first();
        assert forall|k: int| 0 <= k < rest.len() implies !alive(shown, #[trigger] rest[k]) by {
            assert(rest[k] == finished[k + 1]);
        }
        lemma_offline_frames(shown, rest, polls.drop_first());
    }
}


/// An event replaces the list it carries with exactly that list, whatever it
/// holds, and leaves the other list as it was.
pub proof fn lemma_event_replaces_only_its_list(
    lists: (Seq<FileStatus>, Seq<FileStatus>),
    files: Seq<FileStatus>,
)
    ensures
        applied(lists, EventView::StagedFiles(files)) == (lists.0, files),
        applied(lists, EventView::UnstagedFiles(files)) == (files, lists.1),
{
}

/// Draining the event channel: an event is folded in, its list replaced by
/// exactly the one it carries, and draining goes on with the next poll; an
/// empty poll ends the draining with nothing more changed; a poll that finds
/// the worker gone ends it, lets the worker go and asks it to close.
pub proof fn lemma_drain_step(shown: Shown, files: Seq<FileStatus>, rest: Seq<Poll>)
    ensures
        forall|event: Event|
            #![trigger drained(shown, seq![Poll::Event(event)] + rest)]
            event@ == EventView::StagedFiles(files) ==> drained(shown, seq![Poll::Event(event)] + rest)
                == drained(Shown { unstaged: shown.unstaged, staged: files, attached: shown.attached }, rest),
        forall|event: Event|
            #![trigger drained(shown, seq![Poll::Event(event)] + rest)]
            event@ == EventView::UnstagedFiles(files) ==> drained(shown, seq![Poll::Event(event)] + rest)
                == drained(Shown { unstaged: files, staged: shown.staged, attached: shown.attached }, rest),
        drained(shown, seq![Poll::Empty] + rest) == (shown, false),
        drained(shown, seq![Poll::Disconnected] + rest) == (
            Shown { unstaged: shown.unstaged, staged: shown.staged, attached: false },
            true,
        ),
        drained(shown, Seq::<Poll>::empty()) == (shown, false),
{
    assert forall|p: Poll| (#[trigger] (seq![p] + rest)).drop_first() == rest by {
        assert((seq![p] + rest).drop_first() =~= rest);
    }
    assert forall|p: Poll| (#[trigger] (seq![p] + rest))[0] == p by {}
}

/// A frame of a live worker drains the polls; a frame of a worker that is not
/// alive (let go, or its thread finished) changes nothing and asks nothing.
pub proof fn lemma_frame_drains_only_when_alive(shown: Shown, finished: bool, polls: Seq<Poll>)
    ensures
        shown.attached && !finished ==> frame(shown, finished, polls) == drained(shown, polls),
        !shown.attached || finished ==> frame(shown, finished, polls) == (shown, false),
{
}

} // verus!

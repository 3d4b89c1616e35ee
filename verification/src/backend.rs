//! The background worker: the commands it takes, the events it sends, how it
//! turns git's status listings into file lists, and the decisions it makes
//! while it processes a command.
//!
//! The worker's git work happens outside this module. [`Backend::step`] takes
//! what the last piece of work gave back and says what to do next, so that
//! the caller runs a loop of: perform the action, report the outcome.
use vstd::prelude::*;
use crate::flags::{
    has_flag, is_index_deleted, is_index_modified, is_index_new, is_index_typechange, is_wt_deleted,
    is_wt_modified, is_wt_new, is_wt_typechange, INDEX_DELETED, INDEX_MODIFIED, INDEX_NEW,
    INDEX_TYPECHANGE, WT_DELETED, WT_MODIFIED, WT_NEW, WT_TYPECHANGE,
};

verus! {

/// How a file differs from what it is compared against.
#[derive(Clone, Copy, Debug, PartialEq, Eq, Structural)]
pub enum FileStatusStatus {
    New,
    Modified,
    Deleted,
    TypeChanged,
}

/// One file of a listing with its status.
#[derive(Debug)]
pub struct FileStatus {
    pub path: String,
    pub status_type: FileStatusStatus,
}

/// What the worker sends to the user interface.
#[derive(Debug)]
pub enum Event {
    UnstagedFiles(Vec<FileStatus>),
    StagedFiles(Vec<FileStatus>),
}

/// What the user interface asks the worker to do.
#[derive(Debug)]
pub enum Command {
    Close,
    GetStatuses,
    StageFile { path: String },
    ResetStagedFile { path: String },
    Commit { message: String },
}

/// Which comparison a status listing reports: the index against the head
/// commit (staged changes), or the working tree against the index (unstaged
/// changes).
#[derive(Clone, Copy, Debug, PartialEq, Eq, Structural)]
pub enum Listing {
    Index,
    Workdir,
}

/// One entry of a status listing as git reports it: the path, absent when it
/// is not valid UTF-8, and the status flags.
#[derive(Debug)]
pub struct StatusEntry {
    pub path: Option<String>,
    pub bits: u32,
}

/// A listing held an entry whose path is not valid UTF-8.
#[derive(Debug)]
pub struct UnreadablePath;

/// The status shown for flags `bits` in a listing, if it is one of the four
/// known ones. A deletion takes precedence over a new file, which takes
/// precedence over a modification, which takes precedence over a type change.
pub open spec fn status_of(listing: Listing, bits: u32) -> Option<FileStatusStatus> {
    match listing {
        Listing::Workdir => {
            if has_flag(bits, WT_DELETED) {
                Some(FileStatusStatus::Deleted)
            } else if has_flag(bits, WT_NEW) {
                Some(FileStatusStatus::New)
            } else if has_flag(bits, WT_MODIFIED) {
                Some(FileStatusStatus::Modified)
            } else if has_flag(bits, WT_TYPECHANGE) {
                Some(FileStatusStatus::TypeChanged)
            } else {
                None
            }
        },
        Listing::Index => {
            if has_flag(bits, INDEX_DELETED) {
                Some(FileStatusStatus::Deleted)
            } else if has_flag(bits, INDEX_NEW) {
                Some(FileStatusStatus::New)
            } else if has_flag(bits, INDEX_MODIFIED) {
                Some(FileStatusStatus::Modified)
            } else if has_flag(bits, INDEX_TYPECHANGE) {
                Some(FileStatusStatus::TypeChanged)
            } else {
                None
            }
        },
    }
}

/// The file list of a listing: entries are taken in order while their status
/// is known, and the list ends at the first entry whose status is not. Each
/// entry's path is read before its status, so `None` (the listing cannot be
/// shown) comes when a path before that point, or the path of the entry
/// that ends the list, is unreadable.
pub open spec fn listed(listing: Listing, entries: Seq<StatusEntry>) -> Option<Seq<FileStatus>>
    decreases entries.len(),
{
    if entries.len() == 0 {
        Some(Seq::empty())
    } else if entries[0].path is None {
        None
    } else if status_of(listing, entries[0].bits) is None {
        Some(Seq::empty())
    } else {
        match listed(listing, entries.drop_first()) {
            Some(rest) => Some(
                seq![FileStatus { path: entries[0].path->0, status_type: status_of(listing, entries[0].bits)->0 }]
                    + rest,
            ),
            None => None,
        }
    }
}

/// `files` followed by the list `rest`, if there is one.
pub open spec fn prepend(files: Seq<FileStatus>, rest: Option<Seq<FileStatus>>) -> Option<Seq<FileStatus>> {
    match rest {
        Some(r) => Some(files + r),
        None => None,
    }
}

/// The status shown for flags `bits` in a listing, asked of `git2` flag by
/// flag in order of precedence.
pub fn classify(listing: Listing, bits: u32) -> (r: Option<FileStatusStatus>)
    ensures
        r == status_of(listing, bits),
{
    match listing {
        Listing::Workdir => {
            if is_wt_deleted(bits) {
                Some(FileStatusStatus::Deleted)
            } else if is_wt_new(bits) {
                Some(FileStatusStatus::New)
            } else if is_wt_modified(bits) {
                Some(FileStatusStatus::Modified)
            } else if is_wt_typechange(bits) {
                Some(FileStatusStatus::TypeChanged)
            } else {
                None
            }
        },
        Listing::Index => {
            if is_index_deleted(bits) {
                Some(FileStatusStatus::Deleted)
            } else if is_index_new(bits) {
                Some(FileStatusStatus::New)
            } else if is_index_modified(bits) {
                Some(FileStatusStatus::Modified)
            } else if is_index_typechange(bits) {
                Some(FileStatusStatus::TypeChanged)
            } else {
                None
            }
        },
    }
}

/// Turns the entries of a listing into the file list the worker sends.
pub fn list_files(listing: Listing, entries: &Vec<StatusEntry>) -> (r: Result<Vec<FileStatus>, UnreadablePath>)
    ensures
        match r {
            Ok(files) => listed(listing, entries@) == Some(files@),
            Err(_) => listed(listing, entries@) is None,
        },
{
    let mut files: Vec<FileStatus> = Vec::new();
    let mut i: usize = 0;
    assert(entries@.skip(0) =~= entries@);
    proof {
        if let Some(all) = listed(listing, entries@) {
            assert(Seq::<FileStatus>::empty() + all =~= all);
        }
    }
    while i < entries.len()
        invariant
            i <= entries.len(),
            listed(listing, entries@) == prepend(files@, listed(listing, entries@.skip(i as int))),
        decreases entries.len() - i,
    {
        let ghost rest = entries@.skip(i as int);
        assert(rest[0] == entries@[i as int]);
        assert(rest.drop_first() =~= entries@.skip(i + 1));
        let entry = &entries[i];
        match &entry.path {
            None => {
                return Err(UnreadablePath);
            },
            Some(path) => {
                match classify(listing, entry.bits) {
                    None => {
                        assert(files@ + Seq::<FileStatus>::empty() =~= files@);
                        return Ok(files);
                    },
                    Some(status_type) => {
                        let ghost old_files = files@;
                        let file = FileStatus { path: path.clone(), status_type };
                        files.push(file);
                        proof {
                            match listed(listing, rest.drop_first()) {
                                Some(tail) => {
                                    assert(old_files + (seq![file] + tail) =~= files@ + tail);
                                },
                                None => {},
                            }
                        }
                    },
                }
            },
        }
        i = i + 1;
    }
    assert(entries@.skip(i as int) =~= Seq::<StatusEntry>::empty());
    assert(files@ + Seq::<FileStatus>::empty() =~= files@);
    Ok(files)
}


/// An event as the specifications see it.
pub enum EventView {
    UnstagedFiles(Seq<FileStatus>),
    StagedFiles(Seq<FileStatus>),
}

impl View for Event {
    type V = EventView;

    open spec fn view(&self) -> EventView {
        match self {
            Event::UnstagedFiles(files) => EventView::UnstagedFiles(files@),
            Event::StagedFiles(files) => EventView::StagedFiles(files@),
        }
    }
}

/// Where the worker stands in processing a command.
#[derive(Debug)]
pub enum Phase {
    /// Waiting for the next command.
    AwaitingCommand,
    /// Stopped for good.
    Stopped,
    /// Staging `path`: waiting to learn whether it exists on disk.
    CheckingPath { path: String },
    /// Staging: waiting for the index entry to be added or removed.
    UpdatingIndex,
    /// Staging: waiting for the index to be written.
    WritingIndex,
    /// Unstaging: waiting for the index entry to be reset to the head commit.
    Resetting,
    /// Waiting for the commit to be created.
    Committing,
    /// Refreshing: waiting for the index listing.
    ListingStaged,
    /// Refreshing: waiting for the staged files to be sent.
    SendingStaged,
    /// Refreshing: waiting for the working tree listing.
    ListingUnstaged,
    /// Refreshing: waiting for the unstaged files to be sent.
    SendingUnstaged,
}

/// The next piece of work the worker's caller performs.
#[derive(Debug)]
pub enum Action {
    /// Wait for the next command.
    ReceiveCommand,
    /// Leave the loop.
    Stop,
    /// Find out whether `path` exists on disk.
    CheckPathExists { path: String },
    /// Add `path` to the index.
    AddToIndex { path: String },
    /// Remove `path` from the index.
    RemoveFromIndex { path: String },
    /// Write the index to disk.
    WriteIndex,
    /// Reset the index entry of `path` to the head commit.
    ResetToHead { path: String },
    /// Commit the index on top of the head commit, with `message`.
    CreateCommit { message: String },
    /// List the statuses of one comparison.
    ListStatuses(Listing),
    /// Send an event to the user interface.
    Send(Event),
}

/// An action as the specifications see it.
pub enum ActionView {
    ReceiveCommand,
    Stop,
    CheckPathExists { path: String },
    AddToIndex { path: String },
    RemoveFromIndex { path: String },
    WriteIndex,
    ResetToHead { path: String },
    CreateCommit { message: String },
    ListStatuses(Listing),
    Send(EventView),
}

impl View for Action {
    type V = ActionView;

    open spec fn view(&self) -> ActionView {
        match self {
            Action::ReceiveCommand => ActionView::ReceiveCommand,
            Action::Stop => ActionView::Stop,
            Action::CheckPathExists { path } => ActionView::CheckPathExists { path: *path },
            Action::AddToIndex { path } => ActionView::AddToIndex { path: *path },
            Action::RemoveFromIndex { path } => ActionView::RemoveFromIndex { path: *path },
            Action::WriteIndex => ActionView::WriteIndex,
            Action::ResetToHead { path } => ActionView::ResetToHead { path: *path },
            Action::CreateCommit { message } => ActionView::CreateCommit { message: *message },
            Action::ListStatuses(listing) => ActionView::ListStatuses(*listing),
            Action::Send(event) => ActionView::Send(event@),
        }
    }
}

/// What the last action gave back.
#[derive(Debug)]
pub enum Outcome {
    /// A command arrived.
    Received(Command),
    /// No command can arrive any more.
    ChannelClosed,
    /// The action succeeded.
    Done,
    /// The action failed.
    Failed,
    /// Whether the path asked about exists.
    PathExists(bool),
    /// The entries of the status listing asked for.
    Listed(Vec<StatusEntry>),
}

/// An outcome as the specifications see it.
pub enum OutcomeView {
    Received(Command),
    ChannelClosed,
    Done,
    Failed,
    PathExists(bool),
    Listed(Seq<StatusEntry>),
}

impl View for Outcome {
    type V = OutcomeView;

    open spec fn view(&self) -> OutcomeView {
        match self {
            Outcome::Received(command) => OutcomeView::Received(*command),
            Outcome::ChannelClosed => OutcomeView::ChannelClosed,
            Outcome::Done => OutcomeView::Done,
            Outcome::Failed => OutcomeView::Failed,
            Outcome::PathExists(exists) => OutcomeView::PathExists(*exists),
            Outcome::Listed(entries) => OutcomeView::Listed(entries@),
        }
    }
}

/// Back to waiting for a command.
pub open spec fn idle() -> (Phase, ActionView) {
    (Phase::AwaitingCommand, ActionView::ReceiveCommand)
}

/// The start of a refresh: list the staged changes first.
pub open spec fn refresh() -> (Phase, ActionView) {
    (Phase::ListingStaged, ActionView::ListStatuses(Listing::Index))
}

/// The first step of processing `command`.
pub open spec fn begin(command: Command) -> (Phase, ActionView) {
    match command {
        Command::Close => (Phase::Stopped, ActionView::Stop),
        Command::GetStatuses => refresh(),
        Command::StageFile { path } => (Phase::CheckingPath { path }, ActionView::CheckPathExists { path }),
        Command::ResetStagedFile { path } => (Phase::Resetting, ActionView::ResetToHead { path }),
        Command::Commit { message } => (Phase::Committing, ActionView::CreateCommit { message }),
    }
}

/// The worker's decision: from its phase and the outcome of the last action,
/// its next phase and the next action. Once stopped it stays stopped. A
/// failure, or an outcome that answers no pending action, abandons the command
/// being processed and the worker waits for the next one.
pub open spec fn transition(phase: Phase, outcome: OutcomeView) -> (Phase, ActionView) {
    match phase {
        Phase::Stopped => (Phase::Stopped, ActionView::Stop),
        Phase::AwaitingCommand => match outcome {
            OutcomeView::Received(command) => begin(command),
            OutcomeView::ChannelClosed => (Phase::Stopped, ActionView::Stop),
            _ => idle(),
        },
        Phase::CheckingPath { path } => match outcome {
            OutcomeView::PathExists(exists) => if exists {
                (Phase::UpdatingIndex, ActionView::AddToIndex { path })
            } else {
                (Phase::UpdatingIndex, ActionView::RemoveFromIndex { path })
            },
            _ => idle(),
        },
        Phase::UpdatingIndex => match outcome {
            OutcomeView::Done => (Phase::WritingIndex, ActionView::WriteIndex),
            _ => idle(),
        },
        Phase::WritingIndex | Phase::Resetting | Phase::Committing => match outcome {
            OutcomeView::Done => refresh(),
            _ => idle(),
        },
        Phase::ListingStaged => match outcome {
            OutcomeView::Listed(entries) => match listed(Listing::Index, entries) {
                Some(files) => (Phase::SendingStaged, ActionView::Send(EventView::StagedFiles(files))),
                None => idle(),
            },
            _ => idle(),
        },
        Phase::SendingStaged => match outcome {
            OutcomeView::Done => (Phase::ListingUnstaged, ActionView::ListStatuses(Listing::Workdir)),
            _ => idle(),
        },
        Phase::ListingUnstaged => match outcome {
            OutcomeView::Listed(entries) => match listed(Listing::Workdir, entries) {
                Some(files) => (Phase::SendingUnstaged, ActionView::Send(EventView::UnstagedFiles(files))),
                None => idle(),
            },
            _ => idle(),
        },
        Phase::SendingUnstaged => idle(),
    }
}

/// The decisions of the background worker.
pub struct Backend {
    phase: Phase,
}

impl View for Backend {
    type V = Phase;

    closed spec fn view(&self) -> Phase {
        self.phase
    }
}

impl Backend {
    /// A worker that waits for its first command.
    pub fn new() -> (r: Backend)
        ensures
            r@ == Phase::AwaitingCommand,
    {
        Backend { phase: Phase::AwaitingCommand }
    }

    /// Whether the worker still takes commands.
    pub fn running(&self) -> (r: bool)
        ensures
            r == !(self@ is Stopped),
    {
        match self.phase {
            Phase::Stopped => false,
            _ => true,
        }
    }

    /// Takes the outcome of the last action and returns the next action.
    pub fn step(&mut self, outcome: Outcome) -> (action: Action)
        ensures
            (final(self)@, action@) == transition(old(self)@, outcome@),
    {
        let mut phase = Phase::AwaitingCommand;
        std::mem::swap(&mut phase, &mut self.phase);
        let (next, action) = match phase {
            Phase::Stopped => (Phase::Stopped, Action::Stop),
            Phase::AwaitingCommand => match outcome {
                Outcome::Received(command) => Self::begin(command),
                Outcome::ChannelClosed => (Phase::Stopped, Action::Stop),
                _ => (Phase::AwaitingCommand, Action::ReceiveCommand),
            },
            Phase::CheckingPath { path } => match outcome {
                Outcome::PathExists(exists) => if exists {
                    (Phase::UpdatingIndex, Action::AddToIndex { path })
                } else {
                    (Phase::UpdatingIndex, Action::RemoveFromIndex { path })
                },
                _ => (Phase::AwaitingCommand, Action::ReceiveCommand),
            },
            Phase::UpdatingIndex => match outcome {
                Outcome::Done => (Phase::WritingIndex, Action::WriteIndex),
                _ => (Phase::AwaitingCommand, Action::ReceiveCommand),
            },
            Phase::WritingIndex | Phase::Resetting | Phase::Committing => match outcome {
                Outcome::Done => (Phase::ListingStaged, Action::ListStatuses(Listing::Index)),
                _ => (Phase::AwaitingCommand, Action::ReceiveCommand),
            },
            Phase::ListingStaged => match outcome {
                Outcome::Listed(entries) => match list_files(Listing::Index, &entries) {
                    Ok(files) => (Phase::SendingStaged, Action::Send(Event::StagedFiles(files))),
                    Err(_) => (Phase::AwaitingCommand, Action::ReceiveCommand),
                },
                _ => (Phase::AwaitingCommand, Action::ReceiveCommand),
            },
            Phase::SendingStaged => match outcome {
                Outcome::Done => (Phase::ListingUnstaged, Action::ListStatuses(Listing::Workdir)),
                _ => (Phase::AwaitingCommand, Action::ReceiveCommand),
            },
            Phase::ListingUnstaged => match outcome {
                Outcome::Listed(entries) => match list_files(Listing::Workdir, &entries) {
                    Ok(files) => (Phase::SendingUnstaged, Action::Send(Event::UnstagedFiles(files))),
                    Err(_) => (Phase::AwaitingCommand, Action::ReceiveCommand),
                },
                _ => (Phase::AwaitingCommand, Action::ReceiveCommand),
            },
            Phase::SendingUnstaged => (Phase::AwaitingCommand, Action::ReceiveCommand),
        };
        self.phase = next;
        action
    }

    /// The first step of processing `command`.
    fn begin(command: Command) -> (r: (Phase, Action))
        ensures
            (r.0, r.1@) == begin(command),
    {
        match command {
            Command::Close => (Phase::Stopped, Action::Stop),
            Command::GetStatuses => (Phase::ListingStaged, Action::ListStatuses(Listing::Index)),
            Command::StageFile { path } => {
                let asked = path.clone();
                (Phase::CheckingPath { path }, Action::CheckPathExists { path: asked })
            },
            Command::ResetStagedFile { path } => (Phase::Resetting, Action::ResetToHead { path }),
            Command::Commit { message } => (Phase::Committing, Action::CreateCommit { message }),
        }
    }
}


/// The last phase and the actions taken when `outcomes` arrive in order,
/// starting from `phase`.
pub open spec fn run(phase: Phase, outcomes: Seq<OutcomeView>) -> (Phase, Seq<ActionView>)
    decreases outcomes.len(),
{
    if outcomes.len() == 0 {
        (phase, Seq::empty())
    } else {
        let (next, action) = transition(phase, outcomes[0]);
        let (last, actions) = run(next, outcomes.drop_first());
        (last, seq![action] + actions)
    }
}

/// The outcomes of a refresh whose every step succeeds: the index listing
/// `staged`, the staged files sent, the working tree listing `unstaged`, the
/// unstaged files sent.
pub open spec fn refresh_outcomes(staged: Seq<StatusEntry>, unstaged: Seq<StatusEntry>) -> Seq<OutcomeView> {
    seq![
        OutcomeView::Listed(staged),
        OutcomeView::Done,
        OutcomeView::Listed(unstaged),
        OutcomeView::Done,
    ]
}

/// The actions that answer `refresh_outcomes`, after the index listing was
/// asked for: send the staged files, list the working tree, send the unstaged
/// files, wait for the next command.
pub open spec fn refresh_actions(staged: Seq<FileStatus>, unstaged: Seq<FileStatus>) -> Seq<ActionView> {
    seq![
        ActionView::Send(EventView::StagedFiles(staged)),
        ActionView::ListStatuses(Listing::Workdir),
        ActionView::Send(EventView::UnstagedFiles(unstaged)),
        ActionView::ReceiveCommand,
    ]
}

/// One outcome followed by others runs as one transition followed by the
/// run of the others.
pub proof fn lemma_run_cons(phase: Phase, outcome: OutcomeView, rest: Seq<OutcomeView>)
    ensures
        run(phase, seq![outcome] + rest) == ({
            let (next, action) = transition(phase, outcome);
            let (last, actions) = run(next, rest);
            (last, seq![action] + actions)
        }),
{
    assert((seq![outcome] + rest).drop_first() =~= rest);
}

/// Once stopped, the worker stays stopped and asks only to stop, whatever
/// outcomes arrive.
pub proof fn lemma_stopped_is_final(outcomes: Seq<OutcomeView>)
    ensures
        run(Phase::Stopped, outcomes) == (Phase::Stopped, Seq::new(outcomes.len(), |i: int| ActionView::Stop)),
    decreases outcomes.len(),
{
    if outcomes.len() > 0 {
        lemma_stopped_is_final(outcomes.drop_first());
        assert(seq![ActionView::Stop] + Seq::new((outcomes.len() - 1) as nat, |i: int| ActionView::Stop)
            =~= Seq::new(outcomes.len(), |i: int| ActionView::Stop));
    }
}

/// A `Close` command, or the end of the command channel, stops a waiting
/// worker for good: every later action is `Stop`.
pub proof fn lemma_close_stops(last: OutcomeView, outcomes: Seq<OutcomeView>)
    requires
        last == OutcomeView::Received(Command::Close) || last == OutcomeView::ChannelClosed,
    ensures
        run(Phase::AwaitingCommand, seq![last] + outcomes)
            == (Phase::Stopped, Seq::new(outcomes.len() + 1, |i: int| ActionView::Stop)),
{
    lemma_run_cons(Phase::AwaitingCommand, last, outcomes);
    lemma_stopped_is_final(outcomes);
    assert(seq![ActionView::Stop] + Seq::new(outcomes.len(), |i: int| ActionView::Stop)
        =~= Seq::new(outcomes.len() + 1, |i: int| ActionView::Stop));
}

/// A failure while a command is processed abandons the command; the worker
/// keeps running and waits for the next command.
pub proof fn lemma_failure_abandons_command(phase: Phase)
    requires
        !(phase is Stopped),
        !(phase is AwaitingCommand),
    ensures
        transition(phase, OutcomeView::Failed) == (Phase::AwaitingCommand, ActionView::ReceiveCommand),
{
}

/// A listing that cannot be shown sends nothing: the refresh ends there and
/// the worker waits for the next command.
pub proof fn lemma_unreadable_listing_sends_nothing(listing: Listing, entries: Seq<StatusEntry>)
    requires
        listed(listing, entries) is None,
    ensures
        transition(
            match listing {
                Listing::Index => Phase::ListingStaged,
                Listing::Workdir => Phase::ListingUnstaged,
            },
            OutcomeView::Listed(entries),
        ) == (Phase::AwaitingCommand, ActionView::ReceiveCommand),
{
}

/// A refresh whose steps succeed sends the staged files, then lists and sends
/// the unstaged files, then waits for the next command.
pub proof fn lemma_refresh(staged: Seq<StatusEntry>, unstaged: Seq<StatusEntry>)
    requires
        listed(Listing::Index, staged) is Some,
        listed(Listing::Workdir, unstaged) is Some,
    ensures
        run(Phase::ListingStaged, refresh_outcomes(staged, unstaged)) == (
            Phase::AwaitingCommand,
            refresh_actions(listed(Listing::Index, staged)->0, listed(Listing::Workdir, unstaged)->0),
        ),
{
    let outs = refresh_outcomes(staged, unstaged);
    reveal_with_fuel(run, 5);
    assert(outs.drop_first() =~= seq![OutcomeView::Done, OutcomeView::Listed(unstaged), OutcomeView::Done]);
    assert(outs.drop_first().drop_first() =~= seq![OutcomeView::Listed(unstaged), OutcomeView::Done]);
    assert(outs.drop_first().drop_first().drop_first() =~= seq![OutcomeView::Done]);
    assert(outs.drop_first().drop_first().drop_first().drop_first() =~= Seq::<OutcomeView>::empty());
    assert(run(Phase::ListingStaged, outs).1 =~= refresh_actions(
        listed(Listing::Index, staged)->0,
        listed(Listing::Workdir, unstaged)->0,
    ));
}

/// `GetStatuses` refreshes: it lists the index, sends the staged files, lists
/// the working tree, sends the unstaged files and waits for the next command.
pub proof fn lemma_get_statuses_refreshes(staged: Seq<StatusEntry>, unstaged: Seq<StatusEntry>)
    requires
        listed(Listing::Index, staged) is Some,
        listed(Listing::Workdir, unstaged) is Some,
    ensures
        run(
            Phase::AwaitingCommand,
            seq![OutcomeView::Received(Command::GetStatuses)] + refresh_outcomes(staged, unstaged),
        ) == (
            Phase::AwaitingCommand,
            seq![ActionView::ListStatuses(Listing::Index)] + refresh_actions(
                listed(Listing::Index, staged)->0,
                listed(Listing::Workdir, unstaged)->0,
            ),
        ),
{
    lemma_run_cons(
        Phase::AwaitingCommand,
        OutcomeView::Received(Command::GetStatuses),
        refresh_outcomes(staged, unstaged),
    );
    lemma_refresh(staged, unstaged);
}

/// Staging a path that exists adds it to the index, and staging one that does
/// not removes it; then the index is written and the lists are refreshed.
pub proof fn lemma_stage_file(path: String, exists: bool, staged: Seq<StatusEntry>, unstaged: Seq<StatusEntry>)
    requires
        listed(Listing::Index, staged) is Some,
        listed(Listing::Workdir, unstaged) is Some,
    ensures
        run(
            Phase::AwaitingCommand,
            seq![
                OutcomeView::Received(Command::StageFile { path }),
                OutcomeView::PathExists(exists),
                OutcomeView::Done,
                OutcomeView::Done,
            ] + refresh_outcomes(staged, unstaged),
        ) == (
            Phase::AwaitingCommand,
            seq![
                ActionView::CheckPathExists { path },
                if exists { ActionView::AddToIndex { path } } else { ActionView::RemoveFromIndex { path } },
                ActionView::WriteIndex,
                ActionView::ListStatuses(Listing::Index),
            ] + refresh_actions(listed(Listing::Index, staged)->0, listed(Listing::Workdir, unstaged)->0),
        ),
{
    let tail = refresh_outcomes(staged, unstaged);
    let o1 = OutcomeView::Received(Command::StageFile { path });
    let o2 = OutcomeView::PathExists(exists);
    let o3 = OutcomeView::Done;
    assert(seq![o1, o2, o3, o3] + tail =~= seq![o1] + (seq![o2] + (seq![o3] + (seq![o3] + tail))));
    lemma_run_cons(Phase::UpdatingIndex, o3, seq![o3] + tail);
    lemma_run_cons(Phase::WritingIndex, o3, tail);
    lemma_run_cons(Phase::CheckingPath { path }, o2, seq![o3] + (seq![o3] + tail));
    lemma_run_cons(Phase::AwaitingCommand, o1, seq![o2] + (seq![o3] + (seq![o3] + tail)));
    lemma_refresh(staged, unstaged);
    let acts = refresh_actions(listed(Listing::Index, staged)->0, listed(Listing::Workdir, unstaged)->0);
    let a2 = if exists { ActionView::AddToIndex { path } } else { ActionView::RemoveFromIndex { path } };
    assert(seq![ActionView::CheckPathExists { path }] + (seq![a2] + (seq![ActionView::WriteIndex] + (
        seq![ActionView::ListStatuses(Listing::Index)] + acts))) =~= seq![
        ActionView::CheckPathExists { path },
        a2,
        ActionView::WriteIndex,
        ActionView::ListStatuses(Listing::Index),
    ] + acts);
}

/// Unstaging a path resets its index entry to the head commit, then the
/// lists are refreshed.
pub proof fn lemma_reset_staged_file(path: String, staged: Seq<StatusEntry>, unstaged: Seq<StatusEntry>)
    requires
        listed(Listing::Index, staged) is Some,
        listed(Listing::Workdir, unstaged) is Some,
    ensures
        run(
            Phase::AwaitingCommand,
            seq![OutcomeView::Received(Command::ResetStagedFile { path }), OutcomeView::Done]
                + refresh_outcomes(staged, unstaged),
        ) == (
            Phase::AwaitingCommand,
            seq![ActionView::ResetToHead { path }, ActionView::ListStatuses(Listing::Index)]
                + refresh_actions(listed(Listing::Index, staged)->0, listed(Listing::Workdir, unstaged)->0),
        ),
{
    let tail = refresh_outcomes(staged, unstaged);
    let o1 = OutcomeView::Received(Command::ResetStagedFile { path });
    assert(seq![o1, OutcomeView::Done] + tail =~= seq![o1] + (seq![OutcomeView::Done] + tail));
    lemma_run_cons(Phase::Resetting, OutcomeView::Done, tail);
    lemma_run_cons(Phase::AwaitingCommand, o1, seq![OutcomeView::Done] + tail);
    lemma_refresh(staged, unstaged);
    let acts = refresh_actions(listed(Listing::Index, staged)->0, listed(Listing::Workdir, unstaged)->0);
    assert(seq![ActionView::ResetToHead { path }] + (seq![ActionView::ListStatuses(Listing::Index)] + acts)
        =~= seq![ActionView::ResetToHead { path }, ActionView::ListStatuses(Listing::Index)] + acts);
}

/// Committing creates the commit with the given message, then the lists are
/// refreshed.
pub proof fn lemma_commit(message: String, staged: Seq<StatusEntry>, unstaged: Seq<StatusEntry>)
    requires
        listed(Listing::Index, staged) is Some,
        listed(Listing::Workdir, unstaged) is Some,
    ensures
        run(
            Phase::AwaitingCommand,
            seq![OutcomeView::Received(Command::Commit { message }), OutcomeView::Done]
                + refresh_outcomes(staged, unstaged),
        ) == (
            Phase::AwaitingCommand,
            seq![ActionView::CreateCommit { message }, ActionView::ListStatuses(Listing::Index)]
                + refresh_actions(listed(Listing::Index, staged)->0, listed(Listing::Workdir, unstaged)->0),
        ),
{
    let tail = refresh_outcomes(staged, unstaged);
    let o1 = OutcomeView::Received(Command::Commit { message });
    assert(seq![o1, OutcomeView::Done] + tail =~= seq![o1] + (seq![OutcomeView::Done] + tail));
    lemma_run_cons(Phase::Committing, OutcomeView::Done, tail);
    lemma_run_cons(Phase::AwaitingCommand, o1, seq![OutcomeView::Done] + tail);
    lemma_refresh(staged, unstaged);
    let acts = refresh_actions(listed(Listing::Index, staged)->0, listed(Listing::Workdir, unstaged)->0);
    assert(seq![ActionView::CreateCommit { message }] + (seq![ActionView::ListStatuses(Listing::Index)] + acts)
        =~= seq![ActionView::CreateCommit { message }, ActionView::ListStatuses(Listing::Index)] + acts);
}

/// A shown list is the files of the listing's first entries, in order, each
/// with its path and status; when it is shorter than the listing, the entry
/// after it has a status that is not shown.
pub proof fn lemma_listing_is_prefix(listing: Listing, entries: Seq<StatusEntry>)
    requires
        listed(listing, entries) is Some,
    ensures
        ({
            let files = listed(listing, entries)->0;
            &&& files.len() <= entries.len()
            &&& forall|i: int|
                0 <= i < files.len() ==> {
                    &&& entries[i].path == Some(#[trigger] files[i].path)
                    &&& status_of(listing, entries[i].bits) == Some(files[i].status_type)
                }
            &&& files.len() < entries.len() ==> status_of(listing, entries[files.len() as int].bits) is None
        }),
    decreases entries.len(),
{
    if entries.len() > 0 && status_of(listing, entries[0].bits) is Some {
        let rest = entries.drop_first();
        lemma_listing_is_prefix(listing, rest);
        let files = listed(listing, entries)->0;
        let tail = listed(listing, rest)->0;
        assert forall|i: int| 0 < i < files.len() implies files[i] == tail[i - 1] && entries[i] == rest[i - 1] by {}
    }
}

/// A listing whose entries all have readable paths and shown statuses shows
/// every file, in order.
pub proof fn lemma_listing_shows_all(listing: Listing, entries: Seq<StatusEntry>)
    requires
        forall|i: int| 0 <= i < entries.len() ==> (#[trigger] entries[i]).path is Some
            && status_of(listing, entries[i].bits) is Some,
    ensures
        listed(listing, entries) == Some(Seq::new(
            entries.len(),
            |i: int| FileStatus {
                path: entries[i].path->0,
                status_type: status_of(listing, entries[i].bits)->0,
            },
        )),
    decreases entries.len(),
{
    let all = Seq::new(
        entries.len(),
        |i: int| FileStatus { path: entries[i].path->0, status_type: status_of(listing, entries[i].bits)->0 },
    );
    if entries.len() > 0 {
        let rest = entries.drop_first();
        assert forall|i: int| 0 <= i < rest.len() implies (#[trigger] rest[i]).path is Some
            && status_of(listing, rest[i].bits) is Some by {
            assert(rest[i] == entries[i + 1]);
        }
        lemma_listing_shows_all(listing, rest);
        let tail = listed(listing, rest)->0;
        assert(entries[0].path is Some);
        assert(seq![FileStatus { path: entries[0].path->0, status_type: status_of(listing, entries[0].bits)->0 }]
            + tail =~= all);
    } else {
        assert(all =~= Seq::<FileStatus>::empty());
    }
}


/// The status shown in the index listing depends on the index flags alone,
/// and the one shown in the working tree listing on the working tree flags
/// alone: any other flag can be cleared without changing it.
pub proof fn lemma_status_reads_only_its_flags(bits: u32)
    ensures
        status_of(Listing::Index, bits) == status_of(Listing::Index, bits & 0x17),
        status_of(Listing::Workdir, bits) == status_of(Listing::Workdir, bits & 0x780),
{
    assert(((bits & 0x17) & 0x1 != 0) == (bits & 0x1 != 0)) by (bit_vector);
    assert(((bits & 0x17) & 0x2 != 0) == (bits & 0x2 != 0)) by (bit_vector);
    assert(((bits & 0x17) & 0x4 != 0) == (bits & 0x4 != 0)) by (bit_vector);
    assert(((bits & 0x17) & 0x10 != 0) == (bits & 0x10 != 0)) by (bit_vector);
    assert(((bits & 0x780) & 0x80 != 0) == (bits & 0x80 != 0)) by (bit_vector);
    assert(((bits & 0x780) & 0x100 != 0) == (bits & 0x100 != 0)) by (bit_vector);
    assert(((bits & 0x780) & 0x200 != 0) == (bits & 0x200 != 0)) by (bit_vector);
    assert(((bits & 0x780) & 0x400 != 0) == (bits & 0x400 != 0)) by (bit_vector);
}

/// The flags that each status stands for, with their precedence: in the index
/// listing a file flagged deleted is shown deleted; otherwise one flagged new
/// is shown new; otherwise one flagged modified is shown modified; otherwise
/// one flagged as changing type is shown so; a file with none of these flags
/// has no status shown. The same holds of the working tree listing with the
/// working tree flags.
pub proof fn lemma_status_precedence(bits: u32)
    ensures
        bits & 0x4 != 0 ==> status_of(Listing::Index, bits) == Some(FileStatusStatus::Deleted),
        bits & 0x4 == 0 && bits & 0x1 != 0 ==> status_of(Listing::Index, bits) == Some(FileStatusStatus::New),
        bits & 0x4 == 0 && bits & 0x1 == 0 && bits & 0x2 != 0 ==> status_of(Listing::Index, bits) == Some(
            FileStatusStatus::Modified,
        ),
        bits & 0x4 == 0 && bits & 0x1 == 0 && bits & 0x2 == 0 && bits & 0x10 != 0 ==> status_of(
            Listing::Index,
            bits,
        ) == Some(FileStatusStatus::TypeChanged),
        bits & 0x17 == 0 ==> status_of(Listing::Index, bits) is None,
        bits & 0x200 != 0 ==> status_of(Listing::Workdir, bits) == Some(FileStatusStatus::Deleted),
        bits & 0x200 == 0 && bits & 0x80 != 0 ==> status_of(Listing::Workdir, bits) == Some(FileStatusStatus::New),
        bits & 0x200 == 0 && bits & 0x80 == 0 && bits & 0x100 != 0 ==> status_of(Listing::Workdir, bits) == Some(
            FileStatusStatus::Modified,
        ),
        bits & 0x200 == 0 && bits & 0x80 == 0 && bits & 0x100 == 0 && bits & 0x400 != 0 ==> status_of(
            Listing::Workdir,
            bits,
        ) == Some(FileStatusStatus::TypeChanged),
        bits & 0x780 == 0 ==> status_of(Listing::Workdir, bits) is None,
{
    assert(bits & 0x17 == 0 ==> bits & 0x1 == 0 && bits & 0x2 == 0 && bits & 0x4 == 0 && bits & 0x10 == 0)
        by (bit_vector);
    assert(bits & 0x780 == 0 ==> bits & 0x80 == 0 && bits & 0x100 == 0 && bits & 0x200 == 0 && bits & 0x400 == 0)
        by (bit_vector);
}


/// Whether every entry before position `i` of a listing has a shown status.
pub open spec fn known_before(listing: Listing, entries: Seq<StatusEntry>, i: int) -> bool {
    forall|j: int| 0 <= j < i ==> status_of(listing, #[trigger] entries[j].bits) is Some
}

/// A listing cannot be shown exactly when some entry has an unreadable path
/// and every entry before it has a shown status.
pub proof fn lemma_listing_fails_exactly_on_unreadable_path(listing: Listing, entries: Seq<StatusEntry>)
    ensures
        listed(listing, entries) is None <==> exists|i: int|
            0 <= i < entries.len() && (#[trigger] entries[i]).path is None && known_before(listing, entries, i),
    decreases entries.len(),
{
    if entries.len() == 0 {
    } else if entries[0].path is None {
        assert(known_before(listing, entries, 0));
    } else if status_of(listing, entries[0].bits) is None {
        assert forall|i: int| 0 <= i < entries.len() && (#[trigger] entries[i]).path is None implies !known_before(
            listing,
            entries,
            i,
        ) by {
            assert(i > 0);
            assert(status_of(listing, entries[0].bits) is None);
        }
    } else {
        let rest = entries.drop_first();
        lemma_listing_fails_exactly_on_unreadable_path(listing, rest);
        if listed(listing, rest) is None {
            let k = choose|k: int| 0 <= k < rest.len() && (#[trigger] rest[k]).path is None && known_before(listing, rest, k);
            assert(entries[k + 1] == rest[k]);
            assert forall|j: int| 0 <= j < k + 1 implies status_of(listing, #[trigger] entries[j].bits) is Some by {
                if j > 0 {
                    assert(entries[j] == rest[j - 1]);
                }
            }
            assert(known_before(listing, entries, k + 1));
        } else {
            assert forall|i: int| 0 <= i < entries.len() && (#[trigger] entries[i]).path is None implies !known_before(
                listing,
                entries,
                i,
            ) by {
                assert(i > 0);
                assert(entries[i] == rest[i - 1]);
                if known_before(listing, entries, i) {
                    assert forall|j: int| 0 <= j < i - 1 implies status_of(listing, #[trigger] rest[j].bits) is Some by {
                        assert(rest[j] == entries[j + 1]);
                    }
                    assert(known_before(listing, rest, i - 1));
                }
            }
        }
    }
}

} // verus!

//! The first form of the worker, kept for the front end that still drives it.
//! It takes the same commands and sends the same events as the worker of
//! [`crate::backend`], but it treats every failed git operation as fatal, and
//! it stages a file by adding it to the index without first asking whether
//! it still exists on disk.
//!
//! Because a failure ends it, [`Worker::step`] accepts only outcomes that
//! answer the pending action successfully; [`Worker::accepts`] tells the
//! caller whether an outcome is one of them.
use vstd::prelude::*;
use crate::backend::{
    classify, idle, listed, refresh, status_of, Action, ActionView, EventView, Listing, OutcomeView,
    Phase, StatusEntry, known_before,
};
pub use crate::backend::{Command, Event, FileStatus, FileStatusStatus, Outcome};

verus! {

/// Whether every entry of a listing that this worker turns into a file, that
/// is every entry before the first one whose status is not shown, has a
/// readable path. This worker reads a path only after it has read the status.
pub open spec fn paths_readable(listing: Listing, entries: Seq<StatusEntry>) -> bool
    decreases entries.len(),
{
    entries.len() == 0 || status_of(listing, entries[0].bits) is None || (entries[0].path is Some
        && paths_readable(listing, entries.drop_first()))
}

/// The file list this worker makes of a listing: entries are taken in order
/// while their status is known, and the list ends at the first entry whose
/// status is not.
pub open spec fn strict_listed(listing: Listing, entries: Seq<StatusEntry>) -> Seq<FileStatus>
    decreases entries.len(),
{
    if entries.len() == 0 || status_of(listing, entries[0].bits) is None {
        Seq::empty()
    } else {
        seq![FileStatus { path: entries[0].path->0, status_type: status_of(listing, entries[0].bits)->0 }]
            + strict_listed(listing, entries.drop_first())
    }
}

/// Whether `outcome` answers the action this worker waits on in `phase`
/// successfully.
pub open spec fn answers(phase: Phase, outcome: OutcomeView) -> bool {
    match phase {
        Phase::Stopped => true,
        Phase::AwaitingCommand => outcome is Received || outcome is ChannelClosed,
        Phase::CheckingPath { .. } => false,
        Phase::ListingStaged => outcome matches OutcomeView::Listed(entries) && paths_readable(
            Listing::Index,
            entries,
        ),
        Phase::ListingUnstaged => outcome matches OutcomeView::Listed(entries) && paths_readable(
            Listing::Workdir,
            entries,
        ),
        _ => outcome is Done,
    }
}

/// The first step of processing `command`.
pub open spec fn strict_begin(command: Command) -> (Phase, ActionView) {
    match command {
        Command::Close => (Phase::Stopped, ActionView::Stop),
        Command::GetStatuses => refresh(),
        Command::StageFile { path } => (Phase::UpdatingIndex, ActionView::AddToIndex { path }),
        Command::ResetStagedFile { path } => (Phase::Resetting, ActionView::ResetToHead { path }),
        Command::Commit { message } => (Phase::Committing, ActionView::CreateCommit { message }),
    }
}

/// This worker's decision on an outcome that `answers` its phase.
pub open spec fn strict_transition(phase: Phase, outcome: OutcomeView) -> (Phase, ActionView) {
    match phase {
        Phase::Stopped => (Phase::Stopped, ActionView::Stop),
        Phase::AwaitingCommand => match outcome {
            OutcomeView::Received(command) => strict_begin(command),
            _ => (Phase::Stopped, ActionView::Stop),
        },
        Phase::UpdatingIndex => (Phase::WritingIndex, ActionView::WriteIndex),
        Phase::WritingIndex | Phase::Resetting | Phase::Committing => refresh(),
        Phase::ListingStaged => match outcome {
            OutcomeView::Listed(entries) => (
                Phase::SendingStaged,
                ActionView::Send(EventView::StagedFiles(strict_listed(Listing::Index, entries))),
            ),
            _ => idle(),
        },
        Phase::SendingStaged => (Phase::ListingUnstaged, ActionView::ListStatuses(Listing::Workdir)),
        Phase::ListingUnstaged => match outcome {
            OutcomeView::Listed(entries) => (
                Phase::SendingUnstaged,
                ActionView::Send(EventView::UnstagedFiles(strict_listed(Listing::Workdir, entries))),
            ),
            _ => idle(),
        },
        _ => idle(),
    }
}

/// Whether every entry before the first one whose status is not shown has a
/// readable path.
pub fn all_paths_readable(listing: Listing, entries: &Vec<StatusEntry>) -> (r: bool)
    ensures
        r == paths_readable(listing, entries@),
{
    let mut i: usize = 0;
    assert(entries@.skip(0) =~= entries@);
    while i < entries.len()
        invariant
            i <= entries.len(),
            paths_readable(listing, entries@) == paths_readable(listing, entries@.skip(i as int)),
        decreases entries.len() - i,
    {
        let ghost rest = entries@.skip(i as int);
        assert(rest[0] == entries@[i as int]);
        assert(rest.drop_first() =~= entries@.skip(i + 1));
        match classify(listing, entries[i].bits) {
            None => {
                return true;
            },
            Some(_) => {
                if entries[i].path.is_none() {
                    return false;
                }
            },
        }
        i = i + 1;
    }
    true
}

/// Turns the entries of a listing into the file list this worker sends.
pub fn strict_list_files(listing: Listing, entries: &Vec<StatusEntry>) -> (files: Vec<FileStatus>)
    requires
        paths_readable(listing, entries@),
    ensures
        files@ == strict_listed(listing, entries@),
{
    let mut files: Vec<FileStatus> = Vec::new();
    let mut i: usize = 0;
    assert(entries@.skip(0) =~= entries@);
    assert(Seq::<FileStatus>::empty() + strict_listed(listing, entries@) =~= strict_listed(listing, entries@));
    while i < entries.len()
        invariant
            i <= entries.len(),
            paths_readable(listing, entries@.skip(i as int)),
            strict_listed(listing, entries@) == files@ + strict_listed(listing, entries@.skip(i as int)),
        decreases entries.len() - i,
    {
        let ghost rest = entries@.skip(i as int);
        assert(rest[0] == entries@[i as int]);
        assert(rest.drop_first() =~= entries@.skip(i + 1));
        let entry = &entries[i];
        match classify(listing, entry.bits) {
            None => {
                assert(files@ + Seq::<FileStatus>::empty() =~= files@);
                return files;
            },
            Some(status_type) => {
                let ghost old_files = files@;
                let path = match &entry.path {
                    Some(path) => path.clone(),
                    None => {
                        assert(false);
                        String::new()
                    },
                };
                let file = FileStatus { path, status_type };
                files.push(file);
                assert(old_files + (seq![file] + strict_listed(listing, rest.drop_first())) =~= files@
                    + strict_listed(listing, rest.drop_first()));
            },
        }
        i = i + 1;
    }
    assert(entries@.skip(i as int) =~= Seq::<StatusEntry>::empty());
    assert(files@ + Seq::<FileStatus>::empty() =~= files@);
    files
}

/// The decisions of the first form of the worker.
pub struct Worker {
    phase: Phase,
}

impl View for Worker {
    type V = Phase;

    closed spec fn view(&self) -> Phase {
        self.phase
    }
}

impl Worker {
    /// A worker that waits for its first command.
    pub fn new() -> (r: Worker)
        ensures
            r@ == Phase::AwaitingCommand,
    {
        Worker { phase: Phase::AwaitingCommand }
    }

    /// Whether the worker still takes commands.
    pub fn running(&self) -> (r: bool)
        ensures
            r == !(self@ is Stopped),
    {
        match self.phase {
            Phase::Stopped => false,
            _ => true,
        }
    }

    /// Whether `outcome` answers the pending action successfully, so that the
    /// worker goes on; any other outcome ends it.
    pub fn accepts(&self, outcome: &Outcome) -> (r: bool)
        ensures
            r == answers(self@, outcome@),
    {
        match &self.phase {
            Phase::Stopped => true,
            Phase::AwaitingCommand => match outcome {
                Outcome::Received(_) | Outcome::ChannelClosed => true,
                _ => false,
            },
            Phase::CheckingPath { .. } => false,
            Phase::ListingStaged => match outcome {
                Outcome::Listed(entries) => all_paths_readable(Listing::Index, entries),
                _ => false,
            },
            Phase::ListingUnstaged => match outcome {
                Outcome::Listed(entries) => all_paths_readable(Listing::Workdir, entries),
                _ => false,
            },
            _ => match outcome {
                Outcome::Done => true,
                _ => false,
            },
        }
    }

    /// Takes the successful outcome of the last action and returns the next
    /// action.
    pub fn step(&mut self, outcome: Outcome) -> (action: Action)
        requires
            answers(old(self)@, outcome@),
        ensures
            (final(self)@, action@) == strict_transition(old(self)@, outcome@),
    {
        let mut phase = Phase::AwaitingCommand;
        std::mem::swap(&mut phase, &mut self.phase);
        let (next, action) = match phase {
            Phase::Stopped => (Phase::Stopped, Action::Stop),
            Phase::AwaitingCommand => match outcome {
                Outcome::Received(command) => Self::begin(command),
                _ => (Phase::Stopped, Action::Stop),
            },
            Phase::UpdatingIndex => (Phase::WritingIndex, Action::WriteIndex),
            Phase::WritingIndex | Phase::Resetting | Phase::Committing => (
                Phase::ListingStaged,
                Action::ListStatuses(Listing::Index),
            ),
            Phase::ListingStaged => match outcome {
                Outcome::Listed(entries) => (
                    Phase::SendingStaged,
                    Action::Send(Event::StagedFiles(strict_list_files(Listing::Index, &entries))),
                ),
                _ => (Phase::AwaitingCommand, Action::ReceiveCommand),
            },
            Phase::SendingStaged => (Phase::ListingUnstaged, Action::ListStatuses(Listing::Workdir)),
            Phase::ListingUnstaged => match outcome {
                Outcome::Listed(entries) => (
                    Phase::SendingUnstaged,
                    Action::Send(Event::UnstagedFiles(strict_list_files(Listing::Workdir, &entries))),
                ),
                _ => (Phase::AwaitingCommand, Action::ReceiveCommand),
            },
            _ => (Phase::AwaitingCommand, Action::ReceiveCommand),
        };
        self.phase = next;
        action
    }

    /// The first step of processing `command`.
    fn begin(command: Command) -> (r: (Phase, Action))
        ensures
            (r.0, r.1@) == strict_begin(command),
    {
        match command {
            Command::Close => (Phase::Stopped, Action::Stop),
            Command::GetStatuses => (Phase::ListingStaged, Action::ListStatuses(Listing::Index)),
            Command::StageFile { path } => (Phase::UpdatingIndex, Action::AddToIndex { path }),
            Command::ResetStagedFile { path } => (Phase::Resetting, Action::ResetToHead { path }),
            Command::Commit { message } => (Phase::Committing, Action::CreateCommit { message }),
        }
    }
}

/// Whenever the worker of `crate::backend` can show a listing, this worker
/// can too, and both show the same list.
pub proof fn lemma_listings_agree(listing: Listing, entries: Seq<StatusEntry>)
    requires
        listed(listing, entries) is Some,
    ensures
        paths_readable(listing, entries),
        strict_listed(listing, entries) == listed(listing, entries)->0,
    decreases entries.len(),
{
    if entries.len() > 0 && status_of(listing, entries[0].bits) is Some {
        lemma_listings_agree(listing, entries.drop_first());
    }
}

/// Once stopped, the worker stays stopped; `Close` or the end of the command
/// channel stops a waiting worker.
pub proof fn lemma_strict_close_stops(outcome: OutcomeView)
    ensures
        strict_transition(Phase::Stopped, outcome) == (Phase::Stopped, ActionView::Stop),
        strict_transition(Phase::AwaitingCommand, OutcomeView::Received(Command::Close)) == (
            Phase::Stopped,
            ActionView::Stop,
        ),
        strict_transition(Phase::AwaitingCommand, OutcomeView::ChannelClosed) == (
            Phase::Stopped,
            ActionView::Stop,
        ),
{
}

/// Staging a file adds it to the index and writes the index, then the lists
/// are refreshed, staged files first.
pub proof fn lemma_strict_stage_file(path: String)
    ensures
        strict_transition(Phase::AwaitingCommand, OutcomeView::Received(Command::StageFile { path })) == (
            Phase::UpdatingIndex,
            ActionView::AddToIndex { path },
        ),
        strict_transition(Phase::UpdatingIndex, OutcomeView::Done) == (Phase::WritingIndex, ActionView::WriteIndex),
        strict_transition(Phase::WritingIndex, OutcomeView::Done) == (Phase::ListingStaged, ActionView::ListStatuses(Listing::Index)),
{
}

/// A refresh lists the index, sends the staged files, lists the working tree,
/// sends the unstaged files and waits for the next command.
pub proof fn lemma_strict_refresh(staged: Seq<StatusEntry>, unstaged: Seq<StatusEntry>)
    ensures
        strict_transition(Phase::ListingStaged, OutcomeView::Listed(staged)) == (
            Phase::SendingStaged,
            ActionView::Send(EventView::StagedFiles(strict_listed(Listing::Index, staged))),
        ),
        strict_transition(Phase::SendingStaged, OutcomeView::Done) == (
            Phase::ListingUnstaged,
            ActionView::ListStatuses(Listing::Workdir),
        ),
        strict_transition(Phase::ListingUnstaged, OutcomeView::Listed(unstaged)) == (
            Phase::SendingUnstaged,
            ActionView::Send(EventView::UnstagedFiles(strict_listed(Listing::Workdir, unstaged))),
        ),
        strict_transition(Phase::SendingUnstaged, OutcomeView::Done) == (Phase::AwaitingCommand, ActionView::ReceiveCommand),
{
}


/// The last phase and the actions of this worker when the successful
/// `outcomes` arrive in order, starting from `phase`.
pub open spec fn strict_run(phase: Phase, outcomes: Seq<OutcomeView>) -> (Phase, Seq<ActionView>)
    decreases outcomes.len(),
{
    if outcomes.len() == 0 {
        (phase, Seq::empty())
    } else {
        let (next, action) = strict_transition(phase, outcomes[0]);
        let (last, actions) = strict_run(next, outcomes.drop_first());
        (last, seq![action] + actions)
    }
}

/// One outcome followed by others runs as one transition followed by the run
/// of the others.
pub proof fn lemma_strict_run_cons(phase: Phase, outcome: OutcomeView, rest: Seq<OutcomeView>)
    ensures
        strict_run(phase, seq![outcome] + rest) == ({
            let (next, action) = strict_transition(phase, outcome);
            let (last, actions) = strict_run(next, rest);
            (last, seq![action] + actions)
        }),
{
    assert((seq![outcome] + rest).drop_first() =~= rest);
}

/// Which outcomes the worker goes on after: a waiting worker takes any
/// command and the end of the channel; the successful completion of any git
/// action or send it waits on is taken; a listing is taken when the paths of
/// the files it shows are readable; a failure is fatal in every phase but the
/// stopped one.
pub proof fn lemma_accepted_outcomes(phase: Phase, command: Command, entries: Seq<StatusEntry>)
    ensures
        answers(Phase::AwaitingCommand, OutcomeView::Received(command)),
        answers(Phase::AwaitingCommand, OutcomeView::ChannelClosed),
        answers(Phase::UpdatingIndex, OutcomeView::Done),
        answers(Phase::WritingIndex, OutcomeView::Done),
        answers(Phase::Resetting, OutcomeView::Done),
        answers(Phase::Committing, OutcomeView::Done),
        answers(Phase::SendingStaged, OutcomeView::Done),
        answers(Phase::SendingUnstaged, OutcomeView::Done),
        answers(Phase::ListingStaged, OutcomeView::Listed(entries)) == paths_readable(Listing::Index, entries),
        answers(Phase::ListingUnstaged, OutcomeView::Listed(entries)) == paths_readable(
            Listing::Workdir,
            entries,
        ),
        !(phase is Stopped) ==> !answers(phase, OutcomeView::Failed),
        answers(Phase::Stopped, OutcomeView::Failed),
{
}

/// The actions of a successful refresh after the index listing was asked
/// for: send the staged files of `staged`, list the working tree, send the
/// unstaged files of `unstaged`, wait for the next command.
pub open spec fn strict_refresh_actions(staged: Seq<StatusEntry>, unstaged: Seq<StatusEntry>) -> Seq<ActionView> {
    seq![
        ActionView::Send(EventView::StagedFiles(strict_listed(Listing::Index, staged))),
        ActionView::ListStatuses(Listing::Workdir),
        ActionView::Send(EventView::UnstagedFiles(strict_listed(Listing::Workdir, unstaged))),
        ActionView::ReceiveCommand,
    ]
}

/// The outcomes of a successful refresh: the index listing `staged`, the
/// staged files sent, the working tree listing `unstaged`, the unstaged files
/// sent.
pub open spec fn strict_refresh_outcomes(staged: Seq<StatusEntry>, unstaged: Seq<StatusEntry>) -> Seq<OutcomeView> {
    seq![OutcomeView::Listed(staged), OutcomeView::Done, OutcomeView::Listed(unstaged), OutcomeView::Done]
}

/// A refresh sends the staged files, then lists and sends the unstaged
/// files, and then the worker waits for the next command.
pub proof fn lemma_strict_refresh_run(staged: Seq<StatusEntry>, unstaged: Seq<StatusEntry>)
    ensures
        strict_run(Phase::ListingStaged, strict_refresh_outcomes(staged, unstaged)) == (
            Phase::AwaitingCommand,
            strict_refresh_actions(staged, unstaged),
        ),
{
    let outs = strict_refresh_outcomes(staged, unstaged);
    reveal_with_fuel(strict_run, 5);
    assert(outs.drop_first() =~= seq![OutcomeView::Done, OutcomeView::Listed(unstaged), OutcomeView::Done]);
    assert(outs.drop_first().drop_first() =~= seq![OutcomeView::Listed(unstaged), OutcomeView::Done]);
    assert(outs.drop_first().drop_first().drop_first() =~= seq![OutcomeView::Done]);
    assert(outs.drop_first().drop_first().drop_first().drop_first() =~= Seq::<OutcomeView>::empty());
    assert(strict_run(Phase::ListingStaged, outs).1 =~= strict_refresh_actions(staged, unstaged));
}

/// `GetStatuses` lists the index, sends the staged files, lists the working
/// tree, sends the unstaged files and waits for the next command.
pub proof fn lemma_strict_get_statuses_refreshes(staged: Seq<StatusEntry>, unstaged: Seq<StatusEntry>)
    ensures
        strict_run(
            Phase::AwaitingCommand,
            seq![OutcomeView::Received(Command::GetStatuses)] + strict_refresh_outcomes(staged, unstaged),
        ) == (
            Phase::AwaitingCommand,
            seq![ActionView::ListStatuses(Listing::Index)] + strict_refresh_actions(staged, unstaged),
        ),
{
    lemma_strict_run_cons(
        Phase::AwaitingCommand,
        OutcomeView::Received(Command::GetStatuses),
        strict_refresh_outcomes(staged, unstaged),
    );
    lemma_strict_refresh_run(staged, unstaged);
}

/// Staging adds the path to the index without asking whether it exists,
/// writes the index, and refreshes.
pub proof fn lemma_strict_stage_file_run(path: String, staged: Seq<StatusEntry>, unstaged: Seq<StatusEntry>)
    ensures
        strict_run(
            Phase::AwaitingCommand,
            seq![OutcomeView::Received(Command::StageFile { path }), OutcomeView::Done, OutcomeView::Done]
                + strict_refresh_outcomes(staged, unstaged),
        ) == (
            Phase::AwaitingCommand,
            seq![
                ActionView::AddToIndex { path },
                ActionView::WriteIndex,
                ActionView::ListStatuses(Listing::Index),
            ] + strict_refresh_actions(staged, unstaged),
        ),
{
    let tail = strict_refresh_outcomes(staged, unstaged);
    let o1 = OutcomeView::Received(Command::StageFile { path });
    let d = OutcomeView::Done;
    assert(seq![o1, d, d] + tail =~= seq![o1] + (seq![d] + (seq![d] + tail)));
    lemma_strict_run_cons(Phase::WritingIndex, d, tail);
    lemma_strict_run_cons(Phase::UpdatingIndex, d, seq![d] + tail);
    lemma_strict_run_cons(Phase::AwaitingCommand, o1, seq![d] + (seq![d] + tail));
    lemma_strict_refresh_run(staged, unstaged);
    let acts = strict_refresh_actions(staged, unstaged);
    assert(seq![ActionView::AddToIndex { path }] + (seq![ActionView::WriteIndex] + (
        seq![ActionView::ListStatuses(Listing::Index)] + acts)) =~= seq![
        ActionView::AddToIndex { path },
        ActionView::WriteIndex,
        ActionView::ListStatuses(Listing::Index),
    ] + acts);
}

/// Unstaging resets the path to the head commit and refreshes; committing
/// creates the commit with the given message and refreshes.
pub proof fn lemma_strict_reset_and_commit_run(
    path: String,
    message: String,
    staged: Seq<StatusEntry>,
    unstaged: Seq<StatusEntry>,
)
    ensures
        strict_run(
            Phase::AwaitingCommand,
            seq![OutcomeView::Received(Command::ResetStagedFile { path }), OutcomeView::Done]
                + strict_refresh_outcomes(staged, unstaged),
        ) == (
            Phase::AwaitingCommand,
            seq![ActionView::ResetToHead { path }, ActionView::ListStatuses(Listing::Index)]
                + strict_refresh_actions(staged, unstaged),
        ),
        strict_run(
            Phase::AwaitingCommand,
            seq![OutcomeView::Received(Command::Commit { message }), OutcomeView::Done]
                + strict_refresh_outcomes(staged, unstaged),
        ) == (
            Phase::AwaitingCommand,
            seq![ActionView::CreateCommit { message }, ActionView::ListStatuses(Listing::Index)]
                + strict_refresh_actions(staged, unstaged),
        ),
{
    let tail = strict_refresh_outcomes(staged, unstaged);
    let d = OutcomeView::Done;
    let acts = strict_refresh_actions(staged, unstaged);
    lemma_strict_refresh_run(staged, unstaged);
    lemma_strict_run_cons(Phase::Resetting, d, tail);
    lemma_strict_run_cons(Phase::Committing, d, tail);
    let r = OutcomeView::Received(Command::ResetStagedFile { path });
    assert(seq![r, d] + tail =~= seq![r] + (seq![d] + tail));
    lemma_strict_run_cons(Phase::AwaitingCommand, r, seq![d] + tail);
    assert(seq![ActionView::ResetToHead { path }] + (seq![ActionView::ListStatuses(Listing::Index)] + acts)
        =~= seq![ActionView::ResetToHead { path }, ActionView::ListStatuses(Listing::Index)] + acts);
    let c = OutcomeView::Received(Command::Commit { message });
    assert(seq![c, d] + tail =~= seq![c] + (seq![d] + tail));
    lemma_strict_run_cons(Phase::AwaitingCommand, c, seq![d] + tail);
    assert(seq![ActionView::CreateCommit { message }] + (seq![ActionView::ListStatuses(Listing::Index)] + acts)
        =~= seq![ActionView::CreateCommit { message }, ActionView::ListStatuses(Listing::Index)] + acts);
}

/// Each shown file of this worker's listing is an entry of the listing, in
/// order, with its path and status; the list ends at the first entry whose
/// status is not shown.
pub proof fn lemma_strict_listing_is_prefix(listing: Listing, entries: Seq<StatusEntry>)
    requires
        paths_readable(listing, entries),
    ensures
        ({
            let files = strict_listed(listing, entries);
            &&& files.len() <= entries.len()
            &&& forall|i: int|
                0 <= i < files.len() ==> {
                    &&& entries[i].path == Some(#[trigger] files[i].path)
                    &&& status_of(listing, entries[i].bits) == Some(files[i].status_type)
                }
            &&& files.len() < entries.len() ==> status_of(listing, entries[files.len() as int].bits) is None
        }),
    decreases entries.len(),
{
    if entries.len() > 0 && status_of(listing, entries[0].bits) is Some {
        let rest = entries.drop_first();
        lemma_strict_listing_is_prefix(listing, rest);
        let files = strict_listed(listing, entries);
        let tail = strict_listed(listing, rest);
        assert forall|i: int| 0 < i < files.len() implies files[i] == tail[i - 1] && entries[i] == rest[i - 1] by {}
    }
}


/// This worker can show a listing exactly when every entry it turns into a
/// file, that is every entry with a shown status all of whose predecessors
/// have one too, has a readable path.
pub proof fn lemma_paths_readable_exactly(listing: Listing, entries: Seq<StatusEntry>)
    ensures
        paths_readable(listing, entries) <==> forall|i: int|
            0 <= i < entries.len() && known_before(listing, entries, i) && status_of(
                listing,
                (#[trigger] entries[i]).bits,
            ) is Some ==> entries[i].path is Some,
    decreases entries.len(),
{
    if entries.len() == 0 {
    } else if status_of(listing, entries[0].bits) is None {
        assert forall|i: int|
            0 <= i < entries.len() && known_before(listing, entries, i) && status_of(
                listing,
                (#[trigger] entries[i]).bits,
            ) is Some implies entries[i].path is Some by {
            if i > 0 {
                assert(status_of(listing, entries[0].bits) is Some);
            }
        }
    } else {
        let rest = entries.drop_first();
        lemma_paths_readable_exactly(listing, rest);
        if paths_readable(listing, entries) {
            assert forall|i: int|
                0 <= i < entries.len() && known_before(listing, entries, i) && status_of(
                    listing,
                    (#[trigger] entries[i]).bits,
                ) is Some implies entries[i].path is Some by {
                if i > 0 {
                    assert(entries[i] == rest[i - 1]);
                    assert forall|j: int| 0 <= j < i - 1 implies status_of(listing, #[trigger] rest[j].bits) is Some by {
                        assert(rest[j] == entries[j + 1]);
                    }
                    assert(known_before(listing, rest, i - 1));
                }
            }
        } else {
            if entries[0].path is Some {
                assert(!paths_readable(listing, rest));
                let k = choose|k: int|
                    0 <= k < rest.len() && known_before(listing, rest, k) && status_of(
                        listing,
                        (#[trigger] rest[k]).bits,
                    ) is Some && !(rest[k].path is Some);
                assert(entries[k + 1] == rest[k]);
                assert forall|j: int| 0 <= j < k + 1 implies status_of(listing, #[trigger] entries[j].bits) is Some by {
                    if j > 0 {
                        assert(entries[j] == rest[j - 1]);
                    }
                }
                assert(known_before(listing, entries, k + 1));
            } else {
                assert(known_before(listing, entries, 0));
            }
        }
    }
}

} // verus!

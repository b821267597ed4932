//! What a process does that needs the daemon: it forks; one side becomes the daemon, if none is
//! running, and the other becomes the client.

use vstd::prelude::*;

use crate::error::Error;
use crate::machine::{acted, admits, asked, lemma_drop_last, lemma_take, reached, Machine};
use crate::ready::DaemonReadyToken;

verus! {

/// What the process is waiting for.
#[derive(Debug, Clone, Copy, PartialEq, Eq, Structural)]
pub enum LaunchPhase {
    /// The two connected streams are being created.
    Pairing,
    /// The parent's stream is being made nonblocking.
    Unblocking,
    /// The process is being forked.
    Forking,
    /// The child's stream is being made nonblocking.
    ChildUnblocking,
    /// The child is turning into a daemon.
    Daemonizing,
    /// The daemon runs.
    RunningDaemon,
    /// The parent is being told that a daemon is running already.
    Notifying,
    /// What this process had to decide is decided.
    Finished,
}

/// What is reported to the process.
#[derive(Debug, Clone, Copy, PartialEq, Eq, Structural)]
pub enum LaunchEvent {
    /// The action was performed.
    Done,
    /// The action failed.
    Failed,
    /// This is the child that came out of the fork.
    Child,
    /// This is the parent that forked.
    Parent,
}

/// What the process asks for.
pub enum LaunchAction {
    /// Create two connected streams, one for each side of the fork.
    CreatePair,
    /// Make the parent's stream nonblocking.
    UnblockParent,
    /// Fork.
    Fork,
    /// Keep the parent's stream only, and become the client.
    RunClient,
    /// Keep the child's stream only, and make it nonblocking.
    UnblockChild,
    /// Turn into a daemon, unless one is running.
    Daemonize,
    /// Run the daemon.
    RunDaemon,
    /// Send the token to the parent.
    Notify(DaemonReadyToken),
    /// Give up with this error.
    Fail(Error),
    /// End the process with this code.
    Exit(i32),
}

/// What the process remembers.
pub struct LaunchState {
    pub phase: LaunchPhase,
}

impl LaunchState {
    /// The state in which the process starts.
    pub open spec fn initial() -> LaunchState {
        LaunchState { phase: LaunchPhase::Pairing }
    }
}

impl Machine for LaunchState {
    type Event = LaunchEvent;

    type Action = LaunchAction;

    open spec fn awaits(self, event: LaunchEvent) -> bool {
        match self.phase {
            LaunchPhase::Forking => !(event is Done),
            LaunchPhase::Finished => false,
            _ => event is Done || event is Failed,
        }
    }

    open spec fn next(self, event: LaunchEvent) -> LaunchState {
        let phase = match (self.phase, event) {
            (LaunchPhase::Pairing, LaunchEvent::Done) => LaunchPhase::Unblocking,
            (LaunchPhase::Unblocking, LaunchEvent::Done) => LaunchPhase::Forking,
            (LaunchPhase::Forking, LaunchEvent::Child) => LaunchPhase::ChildUnblocking,
            (LaunchPhase::ChildUnblocking, LaunchEvent::Done) => LaunchPhase::Daemonizing,
            (LaunchPhase::Daemonizing, LaunchEvent::Done) => LaunchPhase::RunningDaemon,
            (LaunchPhase::Daemonizing, LaunchEvent::Failed) => LaunchPhase::Notifying,
            _ => LaunchPhase::Finished,
        };
        LaunchState { phase }
    }

    open spec fn act(self, event: LaunchEvent) -> LaunchAction {
        match self.next(event).phase {
            LaunchPhase::Pairing => LaunchAction::CreatePair,
            LaunchPhase::Unblocking => LaunchAction::UnblockParent,
            LaunchPhase::Forking => LaunchAction::Fork,
            LaunchPhase::ChildUnblocking => LaunchAction::UnblockChild,
            LaunchPhase::Daemonizing => LaunchAction::Daemonize,
            LaunchPhase::RunningDaemon => LaunchAction::RunDaemon,
            LaunchPhase::Notifying => LaunchAction::Notify(DaemonReadyToken::Running),
            LaunchPhase::Finished => match self.phase {
                LaunchPhase::Pairing | LaunchPhase::Unblocking => LaunchAction::Fail(
                    Error::FatalIO,
                ),
                LaunchPhase::Forking => if event is Parent {
                    LaunchAction::RunClient
                } else {
                    LaunchAction::Fail(Error::FatalFork)
                },
                _ => LaunchAction::Exit(0),
            },
        }
    }
}

/// A process on its way to a client and a daemon.
#[derive(Debug)]
pub struct Launch {
    phase: LaunchPhase,
}

impl View for Launch {
    type V = LaunchState;

    closed spec fn view(&self) -> LaunchState {
        LaunchState { phase: self.phase }
    }
}

impl Launch {
    /// A process that is about to start, and the first action that it asks for.
    pub fn start() -> (started: (Launch, LaunchAction))
        ensures
            started.0@ == LaunchState::initial(),
            started.1 == LaunchAction::CreatePair,
    {
        (Launch { phase: LaunchPhase::Pairing }, LaunchAction::CreatePair)
    }

    /// Reports an event; the action that it asks for next comes back.
    pub fn step(&mut self, event: LaunchEvent) -> (action: LaunchAction)
        requires
            old(self)@.awaits(event),
        ensures
            final(self)@ == old(self)@.next(event),
            action == old(self)@.act(event),
    {
        let phase: LaunchPhase = self.phase;
        self.phase = LaunchPhase::Finished;
        match (phase, event) {
            (LaunchPhase::Pairing, LaunchEvent::Done) => {
                self.phase = LaunchPhase::Unblocking;
                LaunchAction::UnblockParent
            },
            (LaunchPhase::Unblocking, LaunchEvent::Done) => {
                self.phase = LaunchPhase::Forking;
                LaunchAction::Fork
            },
            (LaunchPhase::Pairing, _) | (LaunchPhase::Unblocking, _) => LaunchAction::Fail(
                Error::FatalIO,
            ),
            (LaunchPhase::Forking, LaunchEvent::Child) => {
                self.phase = LaunchPhase::ChildUnblocking;
                LaunchAction::UnblockChild
            },
            (LaunchPhase::Forking, LaunchEvent::Parent) => LaunchAction::RunClient,
            (LaunchPhase::Forking, _) => LaunchAction::Fail(Error::FatalFork),
            (LaunchPhase::ChildUnblocking, LaunchEvent::Done) => {
                self.phase = LaunchPhase::Daemonizing;
                LaunchAction::Daemonize
            },
            (LaunchPhase::Daemonizing, LaunchEvent::Done) => {
                self.phase = LaunchPhase::RunningDaemon;
                LaunchAction::RunDaemon
            },
            (LaunchPhase::Daemonizing, LaunchEvent::Failed) => {
                self.phase = LaunchPhase::Notifying;
                LaunchAction::Notify(DaemonReadyToken::Running)
            },
            (_, _) => LaunchAction::Exit(0),
        }
    }
}

/// Whether this process is the child of the fork.
pub open spec fn is_child(events: Seq<LaunchEvent>) -> bool {
    exists|i: int| 0 <= i < events.len() && #[trigger] events[i] is Child
}

/// Whether the process is one that only the child of the fork can be in.
spec fn child_phase(phase: LaunchPhase) -> bool {
    phase is ChildUnblocking || phase is Daemonizing || phase is RunningDaemon
        || phase is Notifying
}

proof fn lemma_child(events: Seq<LaunchEvent>)
    requires
        admits(LaunchState::initial(), events),
    ensures
        ({
            let phase = reached(LaunchState::initial(), events).phase;
            &&& child_phase(phase) ==> is_child(events)
            &&& !(phase is Finished) && is_child(events) ==> child_phase(phase)
        }),
    decreases events.len(),
{
    if events.len() > 0 {
        let before = events.drop_last();
        lemma_drop_last(LaunchState::initial(), events);
        lemma_child(before);
        assert(events[events.len() - 1] == events.last());
        if is_child(before) {
            let i = choose|i: int| 0 <= i < before.len() && #[trigger] before[i] is Child;
            assert(events[i] is Child);
        }
        if is_child(events) {
            let i = choose|i: int| 0 <= i < events.len() && #[trigger] events[i] is Child;
            assert(i < before.len() ==> before[i] is Child);
        }
    }
}

/// The child of the fork never returns to the caller, neither as a client nor with an error: when
/// it is done, it exits with code 0.
pub proof fn child_never_returns(events: Seq<LaunchEvent>)
    requires
        admits(LaunchState::initial(), events),
        events.len() > 0,
        reached(LaunchState::initial(), events).phase is Finished,
    ensures
        is_child(events) <==> acted(LaunchState::initial(), events).last() == LaunchAction::Exit(0),
        !is_child(events) <==> (acted(LaunchState::initial(), events).last() is RunClient || acted(
            LaunchState::initial(),
            events,
        ).last() is Fail),
{
    let before = events.drop_last();
    lemma_drop_last(LaunchState::initial(), events);
    lemma_child(before);
    assert(events[events.len() - 1] == events.last());
    if is_child(before) {
        let i = choose|i: int| 0 <= i < before.len() && #[trigger] before[i] is Child;
        assert(events[i] is Child);
    }
    if is_child(events) {
        let i = choose|i: int| 0 <= i < events.len() && #[trigger] events[i] is Child;
        assert(i < before.len() ==> before[i] is Child);
    }
}

/// The daemon runs only in a process that has turned into one; where that fails, a daemon is taken
/// to be running, and the parent is told so.
pub proof fn daemon_runs_when_daemonized(events: Seq<LaunchEvent>, i: int)
    requires
        admits(LaunchState::initial(), events),
        0 < i < events.len(),
        acted(LaunchState::initial(), events)[i - 1] is Daemonize,
    ensures
        acted(LaunchState::initial(), events)[i] == if events[i] is Done {
            LaunchAction::RunDaemon
        } else {
            LaunchAction::Notify(DaemonReadyToken::Running)
        },
{
    lemma_take(LaunchState::initial(), events, i - 1);
    assert(reached(LaunchState::initial(), events.take(i)).awaits(events[i]));
}

/// The action that is being performed in each phase.
spec fn performing(phase: LaunchPhase, action: LaunchAction) -> bool {
    match phase {
        LaunchPhase::Pairing => action is CreatePair,
        LaunchPhase::Unblocking => action is UnblockParent,
        LaunchPhase::Forking => action is Fork,
        LaunchPhase::ChildUnblocking => action is UnblockChild,
        LaunchPhase::Daemonizing => action is Daemonize,
        LaunchPhase::RunningDaemon => action is RunDaemon,
        LaunchPhase::Notifying => action is Notify,
        LaunchPhase::Finished => action is RunClient || action is Fail || action is Exit,
    }
}

proof fn lemma_launch_phase(events: Seq<LaunchEvent>, i: int)
    requires
        admits(LaunchState::initial(), events),
        0 <= i <= events.len(),
    ensures
        performing(
            reached(LaunchState::initial(), events.take(i)).phase,
            asked(LaunchAction::CreatePair, LaunchState::initial(), events, i),
        ),
        i < events.len() ==> reached(LaunchState::initial(), events.take(i)).awaits(events[i]),
    decreases i,
{
    let start = LaunchState::initial();
    if i > 0 {
        lemma_launch_phase(events, i - 1);
        lemma_take(start, events, i - 1);
    }
    if i < events.len() {
        assert(reached(start, events.take(i)).awaits(events[i]));
    }
}

/// Before the fork, an action that succeeds leads to the next one, and one that fails to an error
/// for the caller: whatever cannot be read or written is an I/O error, and a fork that fails is a
/// fork error.
pub proof fn fork_follows_the_streams(events: Seq<LaunchEvent>, i: int)
    requires
        admits(LaunchState::initial(), events),
        0 <= i < events.len(),
    ensures
        ({
            let doing = asked(LaunchAction::CreatePair, LaunchState::initial(), events, i);
            let answer = acted(LaunchState::initial(), events)[i];
            &&& doing is CreatePair ==> answer == if events[i] is Done {
                LaunchAction::UnblockParent
            } else {
                LaunchAction::Fail(Error::FatalIO)
            }
            &&& doing is UnblockParent ==> answer == if events[i] is Done {
                LaunchAction::Fork
            } else {
                LaunchAction::Fail(Error::FatalIO)
            }
            &&& doing is Fork && events[i] is Failed ==> answer == LaunchAction::Fail(
                Error::FatalFork,
            )
        }),
{
    lemma_launch_phase(events, i);
}

/// The parent of the fork becomes the client. The child tries to turn into a daemon, and exits when
/// it cannot, or when what it does then has come to an end, be it in good order or not.
pub proof fn each_side_of_the_fork_does_its_part(events: Seq<LaunchEvent>, i: int)
    requires
        admits(LaunchState::initial(), events),
        0 <= i < events.len(),
    ensures
        ({
            let doing = asked(LaunchAction::CreatePair, LaunchState::initial(), events, i);
            let answer = acted(LaunchState::initial(), events)[i];
            &&& events[i] is Parent ==> answer is RunClient
            &&& events[i] is Child ==> answer is UnblockChild
            &&& doing is UnblockChild ==> answer == if events[i] is Done {
                LaunchAction::Daemonize
            } else {
                LaunchAction::Exit(0)
            }
            &&& doing is Daemonize ==> answer == if events[i] is Done {
                LaunchAction::RunDaemon
            } else {
                LaunchAction::Notify(DaemonReadyToken::Running)
            }
            &&& doing is RunDaemon || doing is Notify ==> answer == LaunchAction::Exit(0)
        }),
{
    lemma_launch_phase(events, i);
}

/// Whatever comes of the action that is being performed can be reported, and nothing else.
pub proof fn launch_takes_every_outcome(events: Seq<LaunchEvent>, event: LaunchEvent)
    requires
        admits(LaunchState::initial(), events),
    ensures
        reached(LaunchState::initial(), events).awaits(event) <==> match asked(
            LaunchAction::CreatePair,
            LaunchState::initial(),
            events,
            events.len() as int,
        ) {
            LaunchAction::Fork => event is Child || event is Parent || event is Failed,
            LaunchAction::RunClient | LaunchAction::Fail(_) | LaunchAction::Exit(_) => false,
            _ => event is Done || event is Failed,
        },
{
    lemma_launch_phase(events, events.len() as int);
    assert(events.take(events.len() as int) =~= events);
}

} // verus!

//! How the process monitor starts: it forks; one side becomes the daemon that measures, if none is
//! running, and the other becomes the client, which connects to the daemon.

use vstd::prelude::*;

use crate::connect::DAEMON_CONNECTION_RETRY_DELAY;
use crate::machine::{acted, admits, asked, count, lemma_drop_last, lemma_take, reached, Machine};
use crate::protocol::ReadyToken;
use crate::text::prefixed;
use crate::wire::word_bytes;

verus! {

/// What the process is waiting for.
#[derive(Debug, Clone, Copy, PartialEq, Eq, Structural)]
pub enum StartupPhase {
    /// The two connected streams are being created.
    Pairing,
    /// The process is being forked.
    Forking,
    /// The child is turning into a daemon.
    Daemonizing,
    /// The child is telling the parent that a daemon is running already.
    Telling,
    /// The daemon's stream is being made nonblocking.
    DaemonUnblocking,
    /// The daemon's stream is being taken over.
    DaemonAdopting,
    /// The daemon runs, and the parent is being told about it.
    Announcing,
    /// The daemon runs.
    RunningDaemon,
    /// The client's stream is being made nonblocking.
    ClientUnblocking,
    /// The client's stream is being taken over.
    ClientAdopting,
    /// The token is being read.
    Reading,
    /// The connection to the daemon is being made; the flag says whether to try once more.
    Connecting(bool),
    /// The delay before the second attempt is running.
    Sleeping,
    /// The second attempt to connect is being made.
    Reconnecting,
    /// The client runs.
    RunningClient,
    /// The process has come to its end.
    Finished,
}

/// What is reported to the process.
pub enum StartupEvent {
    /// The action was performed.
    Done,
    /// The action failed, for this reason.
    Failed(String),
    /// This is the child that came out of the fork.
    Child,
    /// This is the parent that forked.
    Parent,
    /// The token that was read.
    Token(ReadyToken),
    /// The daemon has ended, with this message.
    DaemonEnded(String),
}

/// What the process asks for.
pub enum StartupAction {
    /// Create two connected streams, one for each side of the fork.
    CreatePair,
    /// Fork.
    Fork,
    /// Keep the child's stream only, and turn into a daemon, unless one is running.
    Daemonize,
    /// Send these bytes to the parent.
    Tell(Vec<u8>),
    /// Make the daemon's stream nonblocking.
    UnblockDaemon,
    /// Take over the daemon's stream.
    AdoptDaemon,
    /// Start the daemon and the notifier, which sends the daemon's token to the parent; wait for
    /// the end of either.
    RunDaemon,
    /// Wait for the end of the daemon.
    AwaitDaemon,
    /// Keep the parent's stream only, and make it nonblocking.
    UnblockClient,
    /// Take over the client's stream.
    AdoptClient,
    /// Read the token from the client's stream.
    ReadToken,
    /// Connect to the daemon's socket.
    Connect,
    /// Wait for so many milliseconds.
    Sleep(u64),
    /// Run the client on the connection.
    RunClient,
    /// End the process: in good order, or in failure, with a message where there is one.
    Return(Result<(), Option<String>>),
}

/// What a [`StartupAction`] says.
pub enum StartupActionView {
    CreatePair,
    Fork,
    Daemonize,
    Tell(Seq<u8>),
    UnblockDaemon,
    AdoptDaemon,
    RunDaemon,
    AwaitDaemon,
    UnblockClient,
    AdoptClient,
    ReadToken,
    Connect,
    Sleep(u64),
    RunClient,
    Return(Result<(), Option<Seq<char>>>),
}

impl View for StartupAction {
    type V = StartupActionView;

    open spec fn view(&self) -> StartupActionView {
        match *self {
            StartupAction::CreatePair => StartupActionView::CreatePair,
            StartupAction::Fork => StartupActionView::Fork,
            StartupAction::Daemonize => StartupActionView::Daemonize,
            StartupAction::Tell(bytes) => StartupActionView::Tell(bytes@),
            StartupAction::UnblockDaemon => StartupActionView::UnblockDaemon,
            StartupAction::AdoptDaemon => StartupActionView::AdoptDaemon,
            StartupAction::RunDaemon => StartupActionView::RunDaemon,
            StartupAction::AwaitDaemon => StartupActionView::AwaitDaemon,
            StartupAction::UnblockClient => StartupActionView::UnblockClient,
            StartupAction::AdoptClient => StartupActionView::AdoptClient,
            StartupAction::ReadToken => StartupActionView::ReadToken,
            StartupAction::Connect => StartupActionView::Connect,
            StartupAction::Sleep(millis) => StartupActionView::Sleep(millis),
            StartupAction::RunClient => StartupActionView::RunClient,
            StartupAction::Return(Ok(())) => StartupActionView::Return(Ok(())),
            StartupAction::Return(Err(None)) => StartupActionView::Return(Err(None)),
            StartupAction::Return(Err(Some(message))) => StartupActionView::Return(
                Err(Some(message@)),
            ),
        }
    }
}

/// The message for an action that failed in `phase`; there is none where the fork failed.
pub open spec fn failure_of(phase: StartupPhase, cause: Seq<char>) -> Option<Seq<char>> {
    match phase {
        StartupPhase::Pairing => Some("could not create UnixStream pair: "@ + cause),
        StartupPhase::Forking => None,
        StartupPhase::Telling => Some("error writing to parent: "@ + cause),
        StartupPhase::DaemonUnblocking | StartupPhase::ClientUnblocking => Some(
            "could not set UnixStream nonblocking: "@ + cause,
        ),
        StartupPhase::DaemonAdopting | StartupPhase::ClientAdopting => Some(
            "error tokioing UnixStream to fork: "@ + cause,
        ),
        StartupPhase::Announcing => Some("error writing to fork parent: "@ + cause),
        StartupPhase::Reading => Some("error reading from fork parent: "@ + cause),
        StartupPhase::Connecting(_) => Some(
            "could not communicate with just spawned daemon: "@ + cause,
        ),
        StartupPhase::Reconnecting => Some(
            "could not communicate with daemon after retry: "@ + cause,
        ),
        _ => Some(cause),
    }
}

/// What the process remembers.
pub struct StartupState {
    pub phase: StartupPhase,
}

impl StartupState {
    /// The state in which the process starts.
    pub open spec fn initial() -> StartupState {
        StartupState { phase: StartupPhase::Pairing }
    }
}

impl Machine for StartupState {
    type Event = StartupEvent;

    type Action = StartupActionView;

    open spec fn awaits(self, event: StartupEvent) -> bool {
        match self.phase {
            StartupPhase::Forking => event is Child || event is Parent || event is Failed,
            StartupPhase::Announcing => event is Done || event is Failed || event is DaemonEnded,
            StartupPhase::RunningDaemon => event is DaemonEnded,
            StartupPhase::Reading => event is Token || event is Failed,
            StartupPhase::Sleeping => event is Done,
            StartupPhase::Finished => false,
            _ => event is Done || event is Failed,
        }
    }

    open spec fn next(self, event: StartupEvent) -> StartupState {
        let phase = match (self.phase, event) {
            (StartupPhase::Pairing, StartupEvent::Done) => StartupPhase::Forking,
            (StartupPhase::Forking, StartupEvent::Child) => StartupPhase::Daemonizing,
            (StartupPhase::Forking, StartupEvent::Parent) => StartupPhase::ClientUnblocking,
            (StartupPhase::Daemonizing, StartupEvent::Done) => StartupPhase::DaemonUnblocking,
            (StartupPhase::Daemonizing, StartupEvent::Failed(_)) => StartupPhase::Telling,
            (StartupPhase::DaemonUnblocking, StartupEvent::Done) => StartupPhase::DaemonAdopting,
            (StartupPhase::DaemonAdopting, StartupEvent::Done) => StartupPhase::Announcing,
            (StartupPhase::Announcing, StartupEvent::Done) => StartupPhase::RunningDaemon,
            (StartupPhase::ClientUnblocking, StartupEvent::Done) => StartupPhase::ClientAdopting,
            (StartupPhase::ClientAdopting, StartupEvent::Done) => StartupPhase::Reading,
            (StartupPhase::Reading, StartupEvent::Token(ReadyToken::DaemonForked)) =>
                StartupPhase::Connecting(false),
            (StartupPhase::Reading, StartupEvent::Token(ReadyToken::DaemonRunning)) =>
                StartupPhase::Connecting(true),
            (StartupPhase::Connecting(true), StartupEvent::Failed(_)) => StartupPhase::Sleeping,
            (StartupPhase::Connecting(_), StartupEvent::Done) => StartupPhase::RunningClient,
            (StartupPhase::Sleeping, _) => StartupPhase::Reconnecting,
            (StartupPhase::Reconnecting, StartupEvent::Done) => StartupPhase::RunningClient,
            _ => StartupPhase::Finished,
        };
        StartupState { phase }
    }

    open spec fn act(self, event: StartupEvent) -> StartupActionView {
        match self.next(event).phase {
            StartupPhase::Pairing => StartupActionView::CreatePair,
            StartupPhase::Forking => StartupActionView::Fork,
            StartupPhase::Daemonizing => StartupActionView::Daemonize,
            StartupPhase::Telling => StartupActionView::Tell(
                word_bytes(ReadyToken::DaemonRunning.word()),
            ),
            StartupPhase::DaemonUnblocking => StartupActionView::UnblockDaemon,
            StartupPhase::DaemonAdopting => StartupActionView::AdoptDaemon,
            StartupPhase::Announcing => StartupActionView::RunDaemon,
            StartupPhase::RunningDaemon => StartupActionView::AwaitDaemon,
            StartupPhase::ClientUnblocking => StartupActionView::UnblockClient,
            StartupPhase::ClientAdopting => StartupActionView::AdoptClient,
            StartupPhase::Reading => StartupActionView::ReadToken,
            StartupPhase::Connecting(_) | StartupPhase::Reconnecting => StartupActionView::Connect,
            StartupPhase::Sleeping => StartupActionView::Sleep(DAEMON_CONNECTION_RETRY_DELAY),
            StartupPhase::RunningClient => StartupActionView::RunClient,
            StartupPhase::Finished => match event {
                StartupEvent::Failed(cause) => StartupActionView::Return(
                    Err(failure_of(self.phase, cause@)),
                ),
                StartupEvent::DaemonEnded(message) => StartupActionView::Return(
                    Err(Some(message@)),
                ),
                StartupEvent::Token(_) => StartupActionView::Return(
                    Err(Some("daemon failed to start"@)),
                ),
                _ => StartupActionView::Return(Ok(())),
            },
        }
    }
}

/// The process monitor on its way to a client and a daemon.
#[derive(Debug)]
pub struct Startup {
    phase: StartupPhase,
}

impl View for Startup {
    type V = StartupState;

    closed spec fn view(&self) -> StartupState {
        StartupState { phase: self.phase }
    }
}

/// The message for an action that failed in `phase`; there is none where the fork failed.
fn failure(phase: StartupPhase, cause: String) -> (message: Option<String>)
    ensures
        match message {
            Some(text) => failure_of(phase, cause@) == Some(text@),
            None => failure_of(phase, cause@) is None,
        },
{
    let prefix: &str = match phase {
        StartupPhase::Pairing => "could not create UnixStream pair: ",
        StartupPhase::Forking => {
            return None;
        },
        StartupPhase::Telling => "error writing to parent: ",
        StartupPhase::DaemonUnblocking | StartupPhase::ClientUnblocking =>
            "could not set UnixStream nonblocking: ",
        StartupPhase::DaemonAdopting | StartupPhase::ClientAdopting =>
            "error tokioing UnixStream to fork: ",
        StartupPhase::Announcing => "error writing to fork parent: ",
        StartupPhase::Reading => "error reading from fork parent: ",
        StartupPhase::Connecting(_) => "could not communicate with just spawned daemon: ",
        StartupPhase::Reconnecting => "could not communicate with daemon after retry: ",
        _ => {
            return Some(cause);
        },
    };
    Some(prefixed(prefix, cause.as_str()))
}

impl Startup {
    /// A process that is about to start, and the first action that it asks for.
    pub fn start() -> (started: (Startup, StartupAction))
        ensures
            started.0@ == StartupState::initial(),
            started.1@ == StartupActionView::CreatePair,
    {
        (Startup { phase: StartupPhase::Pairing }, StartupAction::CreatePair)
    }

    /// Reports an event; the action that it asks for next comes back.
    pub fn step(&mut self, event: StartupEvent) -> (action: StartupAction)
        requires
            old(self)@.awaits(event),
        ensures
            final(self)@ == old(self)@.next(event),
            action@ == old(self)@.act(event),
    {
        let phase: StartupPhase = self.phase;
        self.phase = StartupPhase::Finished;
        match (phase, event) {
            (StartupPhase::Pairing, StartupEvent::Done) => {
                self.phase = StartupPhase::Forking;
                StartupAction::Fork
            },
            (StartupPhase::Forking, StartupEvent::Child) => {
                self.phase = StartupPhase::Daemonizing;
                StartupAction::Daemonize
            },
            (StartupPhase::Forking, StartupEvent::Parent) => {
                self.phase = StartupPhase::ClientUnblocking;
                StartupAction::UnblockClient
            },
            (StartupPhase::Daemonizing, StartupEvent::Done) => {
                self.phase = StartupPhase::DaemonUnblocking;
                StartupAction::UnblockDaemon
            },
            (StartupPhase::Daemonizing, StartupEvent::Failed(_)) => {
                self.phase = StartupPhase::Telling;
                StartupAction::Tell(ReadyToken::DaemonRunning.to_bytes())
            },
            (StartupPhase::DaemonUnblocking, StartupEvent::Done) => {
                self.phase = StartupPhase::DaemonAdopting;
                StartupAction::AdoptDaemon
            },
            (StartupPhase::DaemonAdopting, StartupEvent::Done) => {
                self.phase = StartupPhase::Announcing;
                StartupAction::RunDaemon
            },
            (StartupPhase::Announcing, StartupEvent::Done) => {
                self.phase = StartupPhase::RunningDaemon;
                StartupAction::AwaitDaemon
            },
            (StartupPhase::ClientUnblocking, StartupEvent::Done) => {
                self.phase = StartupPhase::ClientAdopting;
                StartupAction::AdoptClient
            },
            (StartupPhase::ClientAdopting, StartupEvent::Done) => {
                self.phase = StartupPhase::Reading;
                StartupAction::ReadToken
            },
            (StartupPhase::Reading, StartupEvent::Token(ReadyToken::DaemonForked)) => {
                self.phase = StartupPhase::Connecting(false);
                StartupAction::Connect
            },
            (StartupPhase::Reading, StartupEvent::Token(ReadyToken::DaemonRunning)) => {
                self.phase = StartupPhase::Connecting(true);
                StartupAction::Connect
            },
            (StartupPhase::Connecting(true), StartupEvent::Failed(_)) => {
                self.phase = StartupPhase::Sleeping;
                StartupAction::Sleep(DAEMON_CONNECTION_RETRY_DELAY)
            },
            (StartupPhase::Connecting(_), StartupEvent::Done) | (
                StartupPhase::Reconnecting,
                StartupEvent::Done,
            ) => {
                self.phase = StartupPhase::RunningClient;
                StartupAction::RunClient
            },
            (StartupPhase::Sleeping, _) => {
                self.phase = StartupPhase::Reconnecting;
                StartupAction::Connect
            },
            (_, StartupEvent::Failed(cause)) => StartupAction::Return(Err(failure(phase, cause))),
            (_, StartupEvent::DaemonEnded(message)) => StartupAction::Return(Err(Some(message))),
            (_, StartupEvent::Token(_)) => StartupAction::Return(
                Err(Some("daemon failed to start".to_owned())),
            ),
            (_, _) => StartupAction::Return(Ok(())),
        }
    }
}

/// Whether only the child of the fork gets there.
pub open spec fn daemon_side(phase: StartupPhase) -> bool {
    phase is Daemonizing || phase is Telling || phase is DaemonUnblocking || phase is DaemonAdopting
        || phase is Announcing || phase is RunningDaemon
}

/// Whether only the parent of the fork gets there.
pub open spec fn client_side(phase: StartupPhase) -> bool {
    phase is ClientUnblocking || phase is ClientAdopting || phase is Reading || phase is Connecting
        || phase is Sleeping || phase is Reconnecting || phase is RunningClient
}

/// Whether one of `events` says that this is the child.
pub open spec fn forked_child(events: Seq<StartupEvent>) -> bool {
    exists|i: int| 0 <= i < events.len() && #[trigger] events[i] is Child
}

/// Whether one of `events` says that this is the parent.
pub open spec fn forked_parent(events: Seq<StartupEvent>) -> bool {
    exists|i: int| 0 <= i < events.len() && #[trigger] events[i] is Parent
}

/// The child never becomes a client, and the parent never becomes a daemon.
pub proof fn each_side_keeps_its_part(events: Seq<StartupEvent>)
    requires
        admits(StartupState::initial(), events),
    ensures
        daemon_side(reached(StartupState::initial(), events).phase) ==> forked_child(events)
            && !forked_parent(events),
        client_side(reached(StartupState::initial(), events).phase) ==> forked_parent(events)
            && !forked_child(events),
        reached(StartupState::initial(), events).phase is Pairing || reached(
            StartupState::initial(),
            events,
        ).phase is Forking ==> !forked_child(events) && !forked_parent(events),
    decreases events.len(),
{
    if events.len() > 0 {
        let before = events.drop_last();
        lemma_drop_last(StartupState::initial(), events);
        each_side_keeps_its_part(before);
        assert(events[events.len() - 1] == events.last());
        if forked_child(before) {
            let i = choose|i: int| 0 <= i < before.len() && #[trigger] before[i] is Child;
            assert(events[i] is Child);
        }
        if forked_parent(before) {
            let i = choose|i: int| 0 <= i < before.len() && #[trigger] before[i] is Parent;
            assert(events[i] is Parent);
        }
        if forked_child(events) {
            let i = choose|i: int| 0 <= i < events.len() && #[trigger] events[i] is Child;
            assert(i < before.len() ==> before[i] is Child);
        }
        if forked_parent(events) {
            let i = choose|i: int| 0 <= i < events.len() && #[trigger] events[i] is Parent;
            assert(i < before.len() ==> before[i] is Parent);
        }
    }
}

/// The daemon never ends in good order: when it ends, the process has failed.
pub proof fn daemon_end_is_a_failure(events: Seq<StartupEvent>, i: int)
    requires
        admits(StartupState::initial(), events),
        0 <= i < events.len(),
        events[i] is DaemonEnded,
    ensures
        acted(StartupState::initial(), events)[i] == StartupActionView::Return(
            Err(Some(events[i]->DaemonEnded_0@)),
        ),
{
    assert(reached(StartupState::initial(), events.take(i)).awaits(events[i]));
}

/// Whether the token that was read says that the daemon was running already.
pub open spec fn found_running(events: Seq<StartupEvent>) -> bool {
    exists|i: int|
        0 <= i < events.len() && #[trigger] events[i] == StartupEvent::Token(
            ReadyToken::DaemonRunning,
        )
}

/// A second attempt to connect is made only to a daemon that was running already, and there is no
/// third.
pub proof fn connects_at_most_twice(events: Seq<StartupEvent>)
    requires
        admits(StartupState::initial(), events),
    ensures
        count(acted(StartupState::initial(), events), |a: StartupActionView| a is Connect)
            <= if found_running(events) {
            2nat
        } else {
            1nat
        },
{
    lemma_startup_connects(events);
}

proof fn lemma_startup_connects(events: Seq<StartupEvent>)
    requires
        admits(StartupState::initial(), events),
    ensures
        ({
            let phase = reached(StartupState::initial(), events).phase;
            let connects = count(
                acted(StartupState::initial(), events),
                |a: StartupActionView| a is Connect,
            );
            &&& phase is Connecting || phase is Sleeping ==> connects == 1
            &&& phase is Pairing || phase is Forking || daemon_side(phase)
                || phase is ClientUnblocking || phase is ClientAdopting || phase is Reading
                ==> connects == 0
            &&& phase == StartupPhase::Connecting(true) || phase is Sleeping
                || phase is Reconnecting ==> found_running(events)
            &&& connects <= 1 || (connects == 2 && found_running(events))
        }),
    decreases events.len(),
{
    if events.len() > 0 {
        let before = events.drop_last();
        lemma_drop_last(StartupState::initial(), events);
        lemma_startup_connects(before);
        assert(events[events.len() - 1] == events.last());
        if found_running(before) {
            let i = choose|i: int|
                0 <= i < before.len() && #[trigger] before[i] == StartupEvent::Token(
                    ReadyToken::DaemonRunning,
                );
            assert(events[i] == StartupEvent::Token(ReadyToken::DaemonRunning));
        }
    }
}

/// The action that is being performed in each phase.
spec fn performing(phase: StartupPhase, action: StartupActionView) -> bool {
    match phase {
        StartupPhase::Pairing => action is CreatePair,
        StartupPhase::Forking => action is Fork,
        StartupPhase::Daemonizing => action is Daemonize,
        StartupPhase::Telling => action is Tell,
        StartupPhase::DaemonUnblocking => action is UnblockDaemon,
        StartupPhase::DaemonAdopting => action is AdoptDaemon,
        StartupPhase::Announcing => action is RunDaemon,
        StartupPhase::RunningDaemon => action is AwaitDaemon,
        StartupPhase::ClientUnblocking => action is UnblockClient,
        StartupPhase::ClientAdopting => action is AdoptClient,
        StartupPhase::Reading => action is ReadToken,
        StartupPhase::Connecting(_) | StartupPhase::Reconnecting => action is Connect,
        StartupPhase::Sleeping => action is Sleep,
        StartupPhase::RunningClient => action is RunClient,
        StartupPhase::Finished => action is Return,
    }
}

proof fn lemma_startup_phase(events: Seq<StartupEvent>, i: int)
    requires
        admits(StartupState::initial(), events),
        0 <= i <= events.len(),
    ensures
        ({
            let phase = reached(StartupState::initial(), events.take(i)).phase;
            let connects = count(
                acted(StartupState::initial(), events).take(i),
                |a: StartupActionView| a is Connect,
            );
            let running = found_running(events.take(i));
            &&& performing(
                phase,
                asked(StartupActionView::CreatePair, StartupState::initial(), events, i),
            )
            &&& phase is Connecting || phase is Sleeping || phase is Reconnecting
                || phase is RunningClient || phase is Finished || !running
            &&& phase == StartupPhase::Connecting(false) ==> !running && connects == 1
            &&& phase == StartupPhase::Connecting(true) ==> running && connects == 1
            &&& phase is Sleeping ==> running && connects == 1
            &&& phase is Reconnecting ==> running && connects == 2
            &&& i < events.len() ==> reached(StartupState::initial(), events.take(i)).awaits(
                events[i],
            )
        }),
    decreases i,
{
    let start = StartupState::initial();
    lemma_take(start, events, i);
    lemma_startup_connects(events.take(i));
    if i > 0 {
        lemma_startup_phase(events, i - 1);
        lemma_take(start, events, i - 1);
        let before = events.take(i - 1);
        let now = events.take(i);
        assert(acted(start, events).take(i).drop_last() =~= acted(start, events).take(i - 1));
        assert(now[i - 1] == events[i - 1]);
        if found_running(now) {
            let k = choose|k: int|
                0 <= k < now.len() && #[trigger] now[k] == StartupEvent::Token(
                    ReadyToken::DaemonRunning,
                );
            assert(k < before.len() ==> before[k] == now[k]);
        }
        if found_running(before) {
            let k = choose|k: int|
                0 <= k < before.len() && #[trigger] before[k] == StartupEvent::Token(
                    ReadyToken::DaemonRunning,
                );
            assert(now[k] == before[k]);
        }
    }
    if i < events.len() {
        assert(reached(start, events.take(i)).awaits(events[i]));
    }
}

/// What succeeds leads on: the process forks; the child becomes the daemon, and the parent reads
/// the token, connects and runs the client.
pub proof fn startup_goes_step_by_step(events: Seq<StartupEvent>, i: int)
    requires
        admits(StartupState::initial(), events),
        0 <= i < events.len(),
    ensures
        ({
            let doing = asked(
                StartupActionView::CreatePair,
                StartupState::initial(),
                events,
                i,
            );
            let answer = acted(StartupState::initial(), events)[i];
            &&& events[i] is Child ==> answer is Daemonize
            &&& events[i] is Parent ==> answer is UnblockClient
            &&& events[i] is Done ==> match doing {
                StartupActionView::CreatePair => answer is Fork,
                StartupActionView::Daemonize => answer is UnblockDaemon,
                StartupActionView::UnblockDaemon => answer is AdoptDaemon,
                StartupActionView::AdoptDaemon => answer is RunDaemon,
                StartupActionView::RunDaemon => answer is AwaitDaemon,
                StartupActionView::UnblockClient => answer is AdoptClient,
                StartupActionView::AdoptClient => answer is ReadToken,
                StartupActionView::Connect => answer is RunClient,
                StartupActionView::Sleep(_) => answer is Connect,
                StartupActionView::Tell(_) | StartupActionView::RunClient => answer
                    == StartupActionView::Return(Ok(())),
                _ => false,
            }
            &&& events[i] matches StartupEvent::Token(token) ==> match token {
                ReadyToken::DaemonForked | ReadyToken::DaemonRunning => answer is Connect,
                ReadyToken::DaemonFailed => answer == StartupActionView::Return(
                    Err(Some("daemon failed to start"@)),
                ),
            }
            &&& events[i] matches StartupEvent::DaemonEnded(message) ==> answer
                == StartupActionView::Return(Err(Some(message@)))
        }),
{
    lemma_startup_phase(events, i);
}

/// Where turning into a daemon fails, the parent is told that one is running: what is sent is the
/// word of that token, most significant byte first.
pub proof fn running_daemon_is_told(events: Seq<StartupEvent>, i: int)
    requires
        admits(StartupState::initial(), events),
        0 <= i < events.len(),
        asked(StartupActionView::CreatePair, StartupState::initial(), events, i) is Daemonize,
        events[i] is Failed,
    ensures
        acted(StartupState::initial(), events)[i] matches StartupActionView::Tell(bytes)
            && bytes.len() == 4 && bytes[0] * 0x100_0000 + bytes[1] * 0x1_0000 + bytes[2] * 0x100
            + bytes[3] == 0x4ea1_ab1e,
{
    lemma_startup_phase(events, i);
}

/// A connection that cannot be made is tried for once more, after the delay, where the daemon was
/// running already and this was the first attempt; otherwise the client gives up and says which
/// daemon it could not reach.
pub proof fn unreachable_daemon_is_retried_or_reported(
    events: Seq<StartupEvent>,
    i: int,
    cause: String,
)
    requires
        admits(StartupState::initial(), events),
        0 <= i < events.len(),
        asked(StartupActionView::CreatePair, StartupState::initial(), events, i) is Connect,
        events[i] == StartupEvent::Failed(cause),
    ensures
        acted(StartupState::initial(), events)[i] == if !found_running(events.take(i)) {
            StartupActionView::Return(
                Err(Some("could not communicate with just spawned daemon: "@ + cause@)),
            )
        } else if count(
            acted(StartupState::initial(), events).take(i),
            |a: StartupActionView| a is Connect,
        ) == 1 {
            StartupActionView::Sleep(DAEMON_CONNECTION_RETRY_DELAY)
        } else {
            StartupActionView::Return(
                Err(Some("could not communicate with daemon after retry: "@ + cause@)),
            )
        },
{
    lemma_startup_phase(events, i);
}

/// Every other failure ends the process with a message that says what went wrong, and why; a fork
/// that fails ends it without one.
pub proof fn startup_failures_are_told(events: Seq<StartupEvent>, i: int, cause: String)
    requires
        admits(StartupState::initial(), events),
        0 <= i < events.len(),
        events[i] == StartupEvent::Failed(cause),
    ensures
        ({
            let answer = acted(StartupState::initial(), events)[i];
            match asked(StartupActionView::CreatePair, StartupState::initial(), events, i) {
                StartupActionView::CreatePair => answer == StartupActionView::Return(
                    Err(Some("could not create UnixStream pair: "@ + cause@)),
                ),
                StartupActionView::Fork => answer == StartupActionView::Return(Err(None)),
                StartupActionView::Tell(_) => answer == StartupActionView::Return(
                    Err(Some("error writing to parent: "@ + cause@)),
                ),
                StartupActionView::UnblockDaemon | StartupActionView::UnblockClient => answer
                    == StartupActionView::Return(
                    Err(Some("could not set UnixStream nonblocking: "@ + cause@)),
                ),
                StartupActionView::AdoptDaemon | StartupActionView::AdoptClient => answer
                    == StartupActionView::Return(
                    Err(Some("error tokioing UnixStream to fork: "@ + cause@)),
                ),
                StartupActionView::RunDaemon => answer == StartupActionView::Return(
                    Err(Some("error writing to fork parent: "@ + cause@)),
                ),
                StartupActionView::ReadToken => answer == StartupActionView::Return(
                    Err(Some("error reading from fork parent: "@ + cause@)),
                ),
                StartupActionView::RunClient => answer == StartupActionView::Return(
                    Err(Some(cause@)),
                ),
                _ => true,
            }
        }),
{
    lemma_startup_phase(events, i);
}

/// Whatever comes of the action that is being performed can be reported, and nothing else.
pub proof fn startup_takes_every_outcome(events: Seq<StartupEvent>, event: StartupEvent)
    requires
        admits(StartupState::initial(), events),
    ensures
        reached(StartupState::initial(), events).awaits(event) <==> match asked(
            StartupActionView::CreatePair,
            StartupState::initial(),
            events,
            events.len() as int,
        ) {
            StartupActionView::Fork => event is Child || event is Parent || event is Failed,
            StartupActionView::RunDaemon => event is Done || event is Failed
                || event is DaemonEnded,
            StartupActionView::AwaitDaemon => event is DaemonEnded,
            StartupActionView::ReadToken => event is Token || event is Failed,
            StartupActionView::Sleep(_) => event is Done,
            StartupActionView::Return(_) => false,
            _ => event is Done || event is Failed,
        },
{
    lemma_startup_phase(events, events.len() as int);
    assert(events.take(events.len() as int) =~= events);
}

/// What an action says is what it holds.
pub proof fn startup_actions_say_what_they_hold(bytes: Vec<u8>, millis: u64, message: String)
    ensures
        StartupAction::Tell(bytes)@ == StartupActionView::Tell(bytes@),
        StartupAction::Sleep(millis)@ == StartupActionView::Sleep(millis),
        StartupAction::Return(Err(Some(message)))@ == StartupActionView::Return(
            Err(Some(message@)),
        ),
        StartupAction::Return(Err(None))@ == StartupActionView::Return(Err(None)),
        StartupAction::Return(Ok(()))@ == StartupActionView::Return(Ok(())),
{
}

} // verus!

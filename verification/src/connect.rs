//! What the client process does before the client runs: it learns how the daemon fares and
//! connects to it.

use vstd::prelude::*;

use crate::error::Error;
use crate::machine::{acted, admits, asked, count, lemma_drop_last, lemma_take, reached, Machine};
use crate::ready::{token_of, token_roundtrip, DaemonReadyToken, ReadError, ReadyTokenView};

verus! {

/// How long a client waits, in milliseconds, before it tries once more to connect to a daemon that
/// was running but did not accept the connection.
pub const DAEMON_CONNECTION_RETRY_DELAY: u64 = 10;

/// What the client process is waiting for.
#[derive(Debug, Clone, Copy, PartialEq, Eq, Structural)]
pub enum ClientPhase {
    /// The stream to the forked child is being taken over.
    Adopting,
    /// The token is being read.
    Reading,
    /// The connection to the daemon is being made; the flag says whether to try once more.
    Connecting(bool),
    /// The delay before the second attempt is running.
    Sleeping,
    /// The second attempt to connect is being made.
    Reconnecting,
    /// The client runs, or it never will.
    Finished,
}

/// What is reported to the client process.
pub enum ClientEvent {
    /// The action was performed.
    Done,
    /// The action failed.
    Failed,
    /// The token that was read.
    Token(DaemonReadyToken),
    /// The connection could not be made.
    ConnectFailed(std::io::Error),
}

/// What the client process asks for.
pub enum ClientAction {
    /// Take over the stream to the forked child.
    AdoptParent,
    /// Read the token from that stream.
    ReadToken,
    /// Connect to the daemon's socket.
    Connect,
    /// Wait for so many milliseconds.
    Sleep(u64),
    /// Run the client on the connection.
    RunClient,
    /// Give up with this error.
    Fail(Error),
}

/// What the client process remembers.
pub struct ClientState {
    pub phase: ClientPhase,
}

impl ClientState {
    /// The state in which a client process starts.
    pub open spec fn initial() -> ClientState {
        ClientState { phase: ClientPhase::Adopting }
    }
}

impl Machine for ClientState {
    type Event = ClientEvent;

    type Action = ClientAction;

    open spec fn awaits(self, event: ClientEvent) -> bool {
        match self.phase {
            ClientPhase::Adopting => event is Done || event is Failed,
            ClientPhase::Reading => event is Token || event is Failed,
            ClientPhase::Connecting(_) | ClientPhase::Reconnecting => event is Done
                || event is ConnectFailed,
            ClientPhase::Sleeping => event is Done,
            ClientPhase::Finished => false,
        }
    }

    open spec fn next(self, event: ClientEvent) -> ClientState {
        let phase = match (self.phase, event) {
            (ClientPhase::Adopting, ClientEvent::Done) => ClientPhase::Reading,
            (ClientPhase::Reading, ClientEvent::Token(DaemonReadyToken::Forked)) =>
                ClientPhase::Connecting(false),
            (ClientPhase::Reading, ClientEvent::Token(DaemonReadyToken::Running)) =>
                ClientPhase::Connecting(true),
            (ClientPhase::Connecting(true), ClientEvent::ConnectFailed(_)) => ClientPhase::Sleeping,
            (ClientPhase::Sleeping, _) => ClientPhase::Reconnecting,
            _ => ClientPhase::Finished,
        };
        ClientState { phase }
    }

    open spec fn act(self, event: ClientEvent) -> ClientAction {
        match self.next(event).phase {
            ClientPhase::Adopting => ClientAction::AdoptParent,
            ClientPhase::Reading => ClientAction::ReadToken,
            ClientPhase::Connecting(_) | ClientPhase::Reconnecting => ClientAction::Connect,
            ClientPhase::Sleeping => ClientAction::Sleep(DAEMON_CONNECTION_RETRY_DELAY),
            ClientPhase::Finished => match event {
                ClientEvent::Done => ClientAction::RunClient,
                ClientEvent::Token(DaemonReadyToken::FailedState(reason)) => ClientAction::Fail(
                    Error::StateFailed(reason),
                ),
                ClientEvent::Token(_) => ClientAction::Fail(Error::DaemonFailed),
                ClientEvent::ConnectFailed(e) => ClientAction::Fail(Error::ConnectionError(e)),
                ClientEvent::Failed => ClientAction::Fail(Error::DaemonStatusUnknown),
            },
        }
    }
}

/// A client process on its way to the daemon.
#[derive(Debug)]
pub struct ClientStart {
    phase: ClientPhase,
}

impl View for ClientStart {
    type V = ClientState;

    closed spec fn view(&self) -> ClientState {
        ClientState { phase: self.phase }
    }
}

impl ClientStart {
    /// A client process that is about to start, and the first action that it asks for.
    pub fn start() -> (started: (ClientStart, ClientAction))
        ensures
            started.0@ == ClientState::initial(),
            started.1 == ClientAction::AdoptParent,
    {
        (ClientStart { phase: ClientPhase::Adopting }, ClientAction::AdoptParent)
    }

    /// Reports an event; the action that it asks for next comes back.
    pub fn step(&mut self, event: ClientEvent) -> (action: ClientAction)
        requires
            old(self)@.awaits(event),
        ensures
            final(self)@ == old(self)@.next(event),
            action == old(self)@.act(event),
    {
        let phase: ClientPhase = self.phase;
        self.phase = ClientPhase::Finished;
        match event {
            ClientEvent::Done => match phase {
                ClientPhase::Adopting => {
                    self.phase = ClientPhase::Reading;
                    ClientAction::ReadToken
                },
                ClientPhase::Sleeping => {
                    self.phase = ClientPhase::Reconnecting;
                    ClientAction::Connect
                },
                _ => ClientAction::RunClient,
            },
            ClientEvent::Failed => ClientAction::Fail(Error::DaemonStatusUnknown),
            ClientEvent::Token(DaemonReadyToken::Forked) => {
                self.phase = ClientPhase::Connecting(false);
                ClientAction::Connect
            },
            ClientEvent::Token(DaemonReadyToken::Running) => {
                self.phase = ClientPhase::Connecting(true);
                ClientAction::Connect
            },
            ClientEvent::Token(DaemonReadyToken::Failed) => ClientAction::Fail(Error::DaemonFailed),
            ClientEvent::Token(DaemonReadyToken::FailedState(reason)) => ClientAction::Fail(
                Error::StateFailed(reason),
            ),
            ClientEvent::ConnectFailed(e) => match phase {
                ClientPhase::Connecting(true) => {
                    self.phase = ClientPhase::Sleeping;
                    ClientAction::Sleep(DAEMON_CONNECTION_RETRY_DELAY)
                },
                _ => ClientAction::Fail(Error::ConnectionError(e)),
            },
        }
    }
}

/// Whether the token that was read says that the daemon was running already.
pub open spec fn was_running(events: Seq<ClientEvent>) -> bool {
    exists|i: int|
        0 <= i < events.len() && #[trigger] events[i] == ClientEvent::Token(
            DaemonReadyToken::Running,
        )
}

proof fn lemma_connections(events: Seq<ClientEvent>)
    requires
        admits(ClientState::initial(), events),
    ensures
        ({
            let phase = reached(ClientState::initial(), events).phase;
            let connects = count(
                acted(ClientState::initial(), events),
                |a: ClientAction| a is Connect,
            );
            &&& phase is Adopting || phase is Reading ==> connects == 0
            &&& phase is Connecting || phase is Sleeping ==> connects == 1
            &&& phase == ClientPhase::Connecting(true) || phase is Sleeping
                || phase is Reconnecting ==> was_running(events)
            &&& phase is Reconnecting ==> connects == 2
            &&& connects <= 1 || (connects == 2 && was_running(events))
        }),
    decreases events.len(),
{
    if events.len() > 0 {
        let before = events.drop_last();
        lemma_drop_last(ClientState::initial(), events);
        lemma_connections(before);
        assert(events[events.len() - 1] == events.last());
        if was_running(before) {
            let i = choose|i: int|
                0 <= i < before.len() && #[trigger] before[i] == ClientEvent::Token(
                    DaemonReadyToken::Running,
                );
            assert(events[i] == ClientEvent::Token(DaemonReadyToken::Running));
        }
    }
}

/// A client tries to connect once, or, if the daemon was running already, twice.
pub proof fn connects_once_or_twice(events: Seq<ClientEvent>)
    requires
        admits(ClientState::initial(), events),
    ensures
        count(acted(ClientState::initial(), events), |a: ClientAction| a is Connect)
            <= if was_running(events) {
            2nat
        } else {
            1nat
        },
{
    lemma_connections(events);
}

proof fn lemma_nothing_after_finish(events: Seq<ClientEvent>, i: int)
    requires
        admits(ClientState::initial(), events),
        0 <= i <= events.len(),
        reached(ClientState::initial(), events.take(i)).phase is Finished,
    ensures
        i == events.len(),
{
    if i < events.len() {
        assert(reached(ClientState::initial(), events.take(i)).awaits(events[i]));
    }
}

/// A daemon that failed to start is not connected to: the client process gives up at once, with
/// the reason where there is one.
pub proof fn failed_daemon_is_not_connected_to(events: Seq<ClientEvent>, i: int)
    requires
        admits(ClientState::initial(), events),
        0 <= i < events.len(),
        events[i] matches ClientEvent::Token(t) && (t is Failed || t is FailedState),
    ensures
        i == events.len() - 1,
        acted(ClientState::initial(), events)[i] == match events[i]->Token_0 {
            DaemonReadyToken::FailedState(reason) => ClientAction::Fail(Error::StateFailed(reason)),
            _ => ClientAction::Fail(Error::DaemonFailed),
        },
        forall|j: int|
            0 <= j < events.len() ==> !(#[trigger] acted(
                ClientState::initial(),
                events,
            )[j] is Connect),
{
    lemma_take(ClientState::initial(), events, i);
    assert(reached(ClientState::initial(), events.take(i)).awaits(events[i]));
    lemma_nothing_after_finish(events, i + 1);
    assert forall|j: int| 0 <= j < events.len() implies !(#[trigger] acted(
        ClientState::initial(),
        events,
    )[j] is Connect) by {
        if j < i {
            lemma_before_reading(events, i, j + 1);
            lemma_take(ClientState::initial(), events, j);
        }
    }
}

proof fn lemma_before_reading(events: Seq<ClientEvent>, i: int, j: int)
    requires
        admits(ClientState::initial(), events),
        0 <= j <= i < events.len(),
        reached(ClientState::initial(), events.take(i)).phase is Reading,
    ensures
        reached(ClientState::initial(), events.take(j)).phase is Adopting || reached(
            ClientState::initial(),
            events.take(j),
        ).phase is Reading,
    decreases i - j,
{
    if j < i {
        lemma_before_reading(events, i, j + 1);
        lemma_take(ClientState::initial(), events, j);
        assert(reached(ClientState::initial(), events.take(j)).awaits(events[j]));
    }
}

/// The client runs only on a connection that was made.
pub proof fn client_runs_on_a_connection(events: Seq<ClientEvent>, i: int)
    requires
        admits(ClientState::initial(), events),
        0 <= i < events.len(),
        acted(ClientState::initial(), events)[i] is RunClient,
    ensures
        i > 0,
        i == events.len() - 1,
        events[i] is Done,
        acted(ClientState::initial(), events)[i - 1] is Connect,
{
    lemma_take(ClientState::initial(), events, i);
    assert(reached(ClientState::initial(), events.take(i)).awaits(events[i]));
    lemma_nothing_after_finish(events, i + 1);
    if i > 0 {
        lemma_take(ClientState::initial(), events, i - 1);
        assert(reached(ClientState::initial(), events.take(i - 1)).awaits(events[i - 1]));
    }
}

/// The reason for which a daemon could not produce its state is the reason that the client gets:
/// whatever token it reads from what the daemon sent, it fails with that reason.
pub proof fn init_failure_reaches_the_client(reason: String, token: DaemonReadyToken)
    requires
        token_of(DaemonReadyToken::FailedState(reason)@.bytes()) == Ok::<ReadyTokenView, ReadError>(
            token@,
        ),
    ensures
        ({
            let reading = ClientState { phase: ClientPhase::Reading };
            &&& reading.act(ClientEvent::Token(token)) matches ClientAction::Fail(
                Error::StateFailed(told),
            )
            &&& told@ == reason@
        }),
{
    token_roundtrip(DaemonReadyToken::FailedState(reason)@);
}

/// The action that is being performed in each phase.
spec fn performing(phase: ClientPhase, action: ClientAction) -> bool {
    match phase {
        ClientPhase::Adopting => action is AdoptParent,
        ClientPhase::Reading => action is ReadToken,
        ClientPhase::Connecting(_) | ClientPhase::Reconnecting => action is Connect,
        ClientPhase::Sleeping => action is Sleep,
        ClientPhase::Finished => action is RunClient || action is Fail,
    }
}

proof fn lemma_client_phase(events: Seq<ClientEvent>, i: int)
    requires
        admits(ClientState::initial(), events),
        0 <= i <= events.len(),
    ensures
        ({
            let phase = reached(ClientState::initial(), events.take(i)).phase;
            let connects = count(
                acted(ClientState::initial(), events).take(i),
                |a: ClientAction| a is Connect,
            );
            let running = was_running(events.take(i));
            &&& performing(
                phase,
                asked(ClientAction::AdoptParent, ClientState::initial(), events, i),
            )
            &&& phase is Adopting || phase is Reading || phase == ClientPhase::Connecting(false)
                ==> !running
            &&& phase == ClientPhase::Connecting(true) ==> running && connects == 1
            &&& phase is Reconnecting ==> connects == 2
            &&& i < events.len() ==> reached(ClientState::initial(), events.take(i)).awaits(
                events[i],
            )
        }),
    decreases i,
{
    let start = ClientState::initial();
    lemma_take(start, events, i);
    lemma_connections(events.take(i));
    if i > 0 {
        lemma_client_phase(events, i - 1);
        lemma_take(start, events, i - 1);
        let before = events.take(i - 1);
        let now = events.take(i);
        if was_running(now) {
            let k = choose|k: int|
                0 <= k < now.len() && #[trigger] now[k] == ClientEvent::Token(
                    DaemonReadyToken::Running,
                );
            assert(k < before.len() ==> before[k] == now[k]);
        }
    }
    if i < events.len() {
        assert(reached(start, events.take(i)).awaits(events[i]));
    }
}

/// Once a connection is made, the client runs on it, whichever token was read and at whichever
/// attempt.
pub proof fn connected_client_runs(events: Seq<ClientEvent>, i: int)
    requires
        admits(ClientState::initial(), events),
        0 <= i < events.len(),
        asked(ClientAction::AdoptParent, ClientState::initial(), events, i) is Connect,
        events[i] is Done,
    ensures
        acted(ClientState::initial(), events)[i] is RunClient,
{
    lemma_client_phase(events, i);
}

/// A connection that cannot be made is tried for once more, after the delay, where the daemon was
/// running already and this was the first attempt; otherwise the client gives up with the error of
/// the attempt that failed.
pub proof fn failed_connection_is_retried_or_reported(
    events: Seq<ClientEvent>,
    i: int,
    error: std::io::Error,
)
    requires
        admits(ClientState::initial(), events),
        0 <= i < events.len(),
        asked(ClientAction::AdoptParent, ClientState::initial(), events, i) is Connect,
        events[i] == ClientEvent::ConnectFailed(error),
    ensures
        acted(ClientState::initial(), events)[i] == if was_running(events.take(i)) && count(
            acted(ClientState::initial(), events).take(i),
            |a: ClientAction| a is Connect,
        ) == 1 {
            ClientAction::Sleep(DAEMON_CONNECTION_RETRY_DELAY)
        } else {
            ClientAction::Fail(Error::ConnectionError(error))
        },
{
    lemma_client_phase(events, i);
}

/// When the delay is over, the client connects.
pub proof fn delay_is_followed_by_an_attempt(events: Seq<ClientEvent>, i: int)
    requires
        admits(ClientState::initial(), events),
        0 <= i < events.len(),
        asked(ClientAction::AdoptParent, ClientState::initial(), events, i) is Sleep,
    ensures
        acted(ClientState::initial(), events)[i] is Connect,
{
    lemma_client_phase(events, i);
}

/// The client reads the token as soon as it can, and what the token says decides what it does: it
/// connects to a daemon that runs, and gives up on one that does not. Without a token it gives up
/// too.
pub proof fn token_decides(events: Seq<ClientEvent>, i: int)
    requires
        admits(ClientState::initial(), events),
        0 <= i < events.len(),
    ensures
        asked(ClientAction::AdoptParent, ClientState::initial(), events, i) is AdoptParent
            && events[i] is Done ==> acted(ClientState::initial(), events)[i] is ReadToken,
        events[i] is Failed ==> acted(ClientState::initial(), events)[i] == ClientAction::Fail(
            Error::DaemonStatusUnknown,
        ),
        events[i] matches ClientEvent::Token(token) ==> match token {
            DaemonReadyToken::Forked | DaemonReadyToken::Running => acted(
                ClientState::initial(),
                events,
            )[i] is Connect,
            DaemonReadyToken::Failed => acted(ClientState::initial(), events)[i]
                == ClientAction::Fail(Error::DaemonFailed),
            DaemonReadyToken::FailedState(reason) => acted(ClientState::initial(), events)[i]
                == ClientAction::Fail(Error::StateFailed(reason)),
        },
{
    lemma_client_phase(events, i);
}

/// Whatever comes of the action that is being performed can be reported, and nothing else.
pub proof fn client_takes_every_outcome(events: Seq<ClientEvent>, event: ClientEvent)
    requires
        admits(ClientState::initial(), events),
    ensures
        reached(ClientState::initial(), events).awaits(event) <==> match asked(
            ClientAction::AdoptParent,
            ClientState::initial(),
            events,
            events.len() as int,
        ) {
            ClientAction::AdoptParent => event is Done || event is Failed,
            ClientAction::ReadToken => event is Token || event is Failed,
            ClientAction::Connect => event is Done || event is ConnectFailed,
            ClientAction::Sleep(_) => event is Done,
            ClientAction::RunClient | ClientAction::Fail(_) => false,
        },
{
    lemma_client_phase(events, events.len() as int);
    assert(events.take(events.len() as int) =~= events);
}

} // verus!

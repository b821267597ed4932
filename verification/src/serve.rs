//! What the daemon process does: it prepares its socket, produces the shared state, tells the
//! process that started it how that went, and then hands each client to a handler until it is told
//! to shut down.

use vstd::prelude::*;

use crate::machine::{acted, admits, asked, count, lemma_drop_last, lemma_take, reached, Machine};
use crate::ready::DaemonReadyToken;
use crate::wait_token::{Token, Waiter};

verus! {

/// A message from a daemon handler to the daemon's main loop.
#[derive(Debug, Clone, Copy, PartialEq, Eq, Structural)]
pub enum DaemonControlMessage {
    /// Request daemon shutdown.
    ///
    /// Start rejecting further connections and wait until all clients disconnect.
    Shutdown,
}

/// What the daemon is waiting for.
#[derive(Debug, Clone, Copy, PartialEq, Eq, Structural)]
pub enum DaemonPhase {
    /// The stream to the process that started the daemon is being taken over.
    Adopting,
    /// It is being looked up whether an old socket file exists.
    Probing,
    /// The old socket file is being removed.
    Removing,
    /// The socket is being created.
    Binding,
    /// The shared state is being produced.
    Initialising,
    /// The token is being handed to the notifier; then the daemon serves, or gives up.
    Announcing(bool),
    /// Clients are served.
    Serving,
    /// A handler is being started.
    Spawning,
    /// Shutdown was requested, and the socket is being closed.
    Closing,
    /// The socket is closed, and handlers are still running.
    Draining,
    /// The notifier is being waited for; the flag is the outcome to come.
    Joining(bool),
    /// The daemon has ended; the flag says whether it did so in good order.
    Finished(bool),
}

/// What is reported to the daemon.
pub enum DaemonEvent {
    /// The action was performed.
    Done,
    /// The action failed.
    Failed,
    /// Whether the socket file exists.
    Exists(bool),
    /// The shared state could not be produced, for this reason.
    InitFailed(String),
    /// A handler requested shutdown.
    Shutdown,
    /// No one is left who could request shutdown.
    ControlClosed,
    /// A client has connected.
    Accepted,
    /// A connection could not be accepted.
    AcceptFailed,
    /// A handler has ended and gives its token back.
    HandlerFinished(Token),
}

/// What the daemon asks for.
pub enum DaemonAction {
    /// Take over the stream to the process that started the daemon.
    AdoptParent,
    /// Look up whether the socket file exists.
    ProbeSocket,
    /// Remove the socket file.
    RemoveSocket,
    /// Create the socket.
    BindSocket,
    /// Produce the shared state.
    RunInit,
    /// Hand the token to the notifier, which sends it to the process that started the daemon.
    Announce(DaemonReadyToken),
    /// Wait for a control message (if `control` is set), a connection or the end of a handler. A
    /// control message goes first where several are there.
    Select {
        control: bool,
    },
    /// Start a handler for the client that has connected; it holds the token while it runs.
    SpawnHandler(Token),
    /// Close the socket, so that further connections are rejected, and the control channel, so that
    /// a further request for shutdown is dropped at once and keeps no handler waiting.
    CloseSocket,
    /// Wait for the end of a handler.
    AwaitHandler,
    /// Wait for the notifier.
    JoinNotifier,
    /// End the daemon; the flag says whether it ends in good order.
    Return(bool),
}

/// What the daemon remembers.
pub struct DaemonState {
    pub phase: DaemonPhase,
    /// Whether the control channel is open: whether someone could still request shutdown.
    pub control: bool,
    /// How many handlers are running.
    pub handlers: nat,
}

impl DaemonState {
    /// The state in which a daemon starts.
    pub open spec fn initial() -> DaemonState {
        DaemonState { phase: DaemonPhase::Adopting, control: true, handlers: 0 }
    }

    /// Whether the daemon takes no more clients.
    pub open spec fn closing(self) -> bool {
        self.phase is Closing || self.phase is Draining || self.phase is Joining
            || self.phase is Finished
    }
}

impl Machine for DaemonState {
    type Event = DaemonEvent;

    type Action = DaemonAction;

    open spec fn awaits(self, event: DaemonEvent) -> bool {
        match self.phase {
            DaemonPhase::Adopting | DaemonPhase::Removing | DaemonPhase::Binding => event is Done
                || event is Failed,
            DaemonPhase::Probing => event is Exists || event is Failed,
            DaemonPhase::Initialising => event is Done || event is InitFailed,
            DaemonPhase::Announcing(_) | DaemonPhase::Spawning | DaemonPhase::Closing
            | DaemonPhase::Joining(_) => event is Done,
            DaemonPhase::Serving => match event {
                DaemonEvent::Shutdown | DaemonEvent::ControlClosed => self.control,
                DaemonEvent::Accepted => self.handlers < u64::MAX,
                DaemonEvent::AcceptFailed => true,
                DaemonEvent::HandlerFinished(_) => self.handlers > 0,
                _ => false,
            },
            DaemonPhase::Draining => event is HandlerFinished && self.handlers > 0,
            DaemonPhase::Finished(_) => false,
        }
    }

    open spec fn next(self, event: DaemonEvent) -> DaemonState {
        let phase = match (self.phase, event) {
            (DaemonPhase::Adopting, DaemonEvent::Done) => DaemonPhase::Probing,
            (DaemonPhase::Adopting, _) => DaemonPhase::Finished(false),
            (DaemonPhase::Probing, DaemonEvent::Exists(true)) => DaemonPhase::Removing,
            (DaemonPhase::Probing, DaemonEvent::Exists(false)) => DaemonPhase::Binding,
            (DaemonPhase::Removing, DaemonEvent::Done) => DaemonPhase::Binding,
            (DaemonPhase::Binding, DaemonEvent::Done) => DaemonPhase::Initialising,
            (DaemonPhase::Probing | DaemonPhase::Removing | DaemonPhase::Binding, _) =>
                DaemonPhase::Announcing(false),
            (DaemonPhase::Initialising, DaemonEvent::Done) => DaemonPhase::Announcing(true),
            (DaemonPhase::Initialising, _) => DaemonPhase::Announcing(false),
            (DaemonPhase::Announcing(serve), _) => if serve {
                DaemonPhase::Serving
            } else {
                DaemonPhase::Joining(false)
            },
            (DaemonPhase::Serving, DaemonEvent::Accepted) => DaemonPhase::Spawning,
            (DaemonPhase::Serving, DaemonEvent::Shutdown) => DaemonPhase::Closing,
            (DaemonPhase::Serving, _) => DaemonPhase::Serving,
            (DaemonPhase::Spawning, _) => DaemonPhase::Serving,
            (DaemonPhase::Closing, _) => if self.handlers == 0 {
                DaemonPhase::Joining(true)
            } else {
                DaemonPhase::Draining
            },
            (DaemonPhase::Draining, _) => if self.handlers == 1 {
                DaemonPhase::Joining(true)
            } else {
                DaemonPhase::Draining
            },
            (DaemonPhase::Joining(good), _) => DaemonPhase::Finished(good),
            (DaemonPhase::Finished(good), _) => DaemonPhase::Finished(good),
        };
        DaemonState {
            phase,
            control: self.control && !(event is ControlClosed) && !(event is Shutdown),
            handlers: match event {
                DaemonEvent::Accepted => self.handlers + 1,
                DaemonEvent::HandlerFinished(_) => (self.handlers - 1) as nat,
                _ => self.handlers,
            },
        }
    }

    open spec fn act(self, event: DaemonEvent) -> DaemonAction {
        let next = self.next(event);
        match next.phase {
            DaemonPhase::Adopting => DaemonAction::AdoptParent,
            DaemonPhase::Probing => DaemonAction::ProbeSocket,
            DaemonPhase::Removing => DaemonAction::RemoveSocket,
            DaemonPhase::Binding => DaemonAction::BindSocket,
            DaemonPhase::Initialising => DaemonAction::RunInit,
            DaemonPhase::Announcing(true) => DaemonAction::Announce(DaemonReadyToken::Forked),
            DaemonPhase::Announcing(false) => match event {
                DaemonEvent::InitFailed(reason) => DaemonAction::Announce(
                    DaemonReadyToken::FailedState(reason),
                ),
                _ => DaemonAction::Announce(DaemonReadyToken::Failed),
            },
            DaemonPhase::Serving => DaemonAction::Select { control: next.control },
            DaemonPhase::Spawning => DaemonAction::SpawnHandler(Token::alike()),
            DaemonPhase::Closing => DaemonAction::CloseSocket,
            DaemonPhase::Draining => DaemonAction::AwaitHandler,
            DaemonPhase::Joining(_) => DaemonAction::JoinNotifier,
            DaemonPhase::Finished(good) => DaemonAction::Return(good),
        }
    }
}

/// A running daemon.
#[derive(Debug)]
pub struct Daemon {
    phase: DaemonPhase,
    control: bool,
    waiter: Waiter,
}

impl View for Daemon {
    type V = DaemonState;

    closed spec fn view(&self) -> DaemonState {
        DaemonState {
            phase: self.phase,
            control: self.control,
            handlers: self.waiter.outstanding(),
        }
    }
}

impl DaemonEvent {
    /// The event that what comes out of the control channel stands for: a message, or the end of
    /// the channel.
    pub fn from_control(message: Option<DaemonControlMessage>) -> (event: DaemonEvent)
        ensures
            event == match message {
                Some(DaemonControlMessage::Shutdown) => DaemonEvent::Shutdown,
                None => DaemonEvent::ControlClosed,
            },
    {
        match message {
            Some(DaemonControlMessage::Shutdown) => DaemonEvent::Shutdown,
            None => DaemonEvent::ControlClosed,
        }
    }
}

impl Daemon {
    /// A daemon that is about to start, and the first action that it asks for.
    pub fn start() -> (started: (Daemon, DaemonAction))
        ensures
            started.0@ == DaemonState::initial(),
            started.1 == DaemonAction::AdoptParent,
    {
        (
            Daemon { phase: DaemonPhase::Adopting, control: true, waiter: Waiter::new() },
            DaemonAction::AdoptParent,
        )
    }

    /// Reports an event; the action that it asks for next comes back.
    pub fn step(&mut self, event: DaemonEvent) -> (action: DaemonAction)
        requires
            old(self)@.awaits(event),
        ensures
            final(self)@ == old(self)@.next(event),
            action == old(self)@.act(event),
    {
        match (self.phase, event) {
            (DaemonPhase::Adopting, DaemonEvent::Done) => {
                self.phase = DaemonPhase::Probing;
                DaemonAction::ProbeSocket
            },
            (DaemonPhase::Adopting, _) => {
                self.phase = DaemonPhase::Finished(false);
                DaemonAction::Return(false)
            },
            (DaemonPhase::Probing, DaemonEvent::Exists(exists)) => {
                if exists {
                    self.phase = DaemonPhase::Removing;
                    DaemonAction::RemoveSocket
                } else {
                    self.phase = DaemonPhase::Binding;
                    DaemonAction::BindSocket
                }
            },
            (DaemonPhase::Removing, DaemonEvent::Done) => {
                self.phase = DaemonPhase::Binding;
                DaemonAction::BindSocket
            },
            (DaemonPhase::Binding, DaemonEvent::Done) => {
                self.phase = DaemonPhase::Initialising;
                DaemonAction::RunInit
            },
            (DaemonPhase::Initialising, DaemonEvent::Done) => {
                self.phase = DaemonPhase::Announcing(true);
                DaemonAction::Announce(DaemonReadyToken::Forked)
            },
            (DaemonPhase::Initialising, DaemonEvent::InitFailed(reason)) => {
                self.phase = DaemonPhase::Announcing(false);
                DaemonAction::Announce(DaemonReadyToken::FailedState(reason))
            },
            (DaemonPhase::Announcing(serve), _) => {
                if serve {
                    self.phase = DaemonPhase::Serving;
                    DaemonAction::Select { control: self.control }
                } else {
                    self.phase = DaemonPhase::Joining(false);
                    DaemonAction::JoinNotifier
                }
            },
            (DaemonPhase::Serving, DaemonEvent::Shutdown) => {
                self.phase = DaemonPhase::Closing;
                self.control = false;
                DaemonAction::CloseSocket
            },
            (DaemonPhase::Serving, DaemonEvent::ControlClosed) => {
                self.control = false;
                DaemonAction::Select { control: false }
            },
            (DaemonPhase::Serving, DaemonEvent::Accepted) => {
                self.phase = DaemonPhase::Spawning;
                DaemonAction::SpawnHandler(self.waiter.token())
            },
            (DaemonPhase::Serving, DaemonEvent::HandlerFinished(token)) => {
                self.waiter.release(token);
                DaemonAction::Select { control: self.control }
            },
            (DaemonPhase::Serving, _) => DaemonAction::Select { control: self.control },
            (DaemonPhase::Spawning, _) => {
                self.phase = DaemonPhase::Serving;
                DaemonAction::Select { control: self.control }
            },
            (DaemonPhase::Closing, _) => self.drain(),
            (DaemonPhase::Draining, DaemonEvent::HandlerFinished(token)) => {
                self.waiter.release(token);
                self.drain()
            },
            (DaemonPhase::Joining(good), _) => {
                self.phase = DaemonPhase::Finished(good);
                DaemonAction::Return(good)
            },
            (_, _) => {
                self.phase = DaemonPhase::Announcing(false);
                DaemonAction::Announce(DaemonReadyToken::Failed)
            },
        }
    }

    /// Waits for the handlers that are still running, if any.
    fn drain(&mut self) -> (action: DaemonAction)
        ensures
            final(self)@.control == old(self)@.control,
            final(self)@.handlers == old(self)@.handlers,
            old(self)@.handlers == 0 ==> final(self)@.phase == DaemonPhase::Joining(true) && action
                == DaemonAction::JoinNotifier,
            old(self)@.handlers > 0 ==> final(self)@.phase == DaemonPhase::Draining && action
                == DaemonAction::AwaitHandler,
    {
        if self.waiter.wait() {
            self.phase = DaemonPhase::Joining(true);
            DaemonAction::JoinNotifier
        } else {
            self.phase = DaemonPhase::Draining;
            DaemonAction::AwaitHandler
        }
    }
}

/// What holds of the daemon at every moment.
spec fn daemon_invariant(s: DaemonState) -> bool {
    match s.phase {
        DaemonPhase::Serving | DaemonPhase::Closing => true,
        DaemonPhase::Spawning => s.handlers > 0,
        DaemonPhase::Draining => s.handlers > 0,
        _ => s.handlers == 0,
    }
}

proof fn lemma_daemon_invariant(events: Seq<DaemonEvent>)
    requires
        admits(DaemonState::initial(), events),
    ensures
        daemon_invariant(reached(DaemonState::initial(), events)),
    decreases events.len(),
{
    if events.len() > 0 {
        lemma_drop_last(DaemonState::initial(), events);
        lemma_daemon_invariant(events.drop_last());
    }
}

/// Every handler that was started is either running or has ended.
pub proof fn handlers_accounted_for(events: Seq<DaemonEvent>)
    requires
        admits(DaemonState::initial(), events),
    ensures
        count(acted(DaemonState::initial(), events), |a: DaemonAction| a is SpawnHandler) == reached(
            DaemonState::initial(),
            events,
        ).handlers + count(events, |e: DaemonEvent| e is HandlerFinished),
    decreases events.len(),
{
    if events.len() > 0 {
        lemma_drop_last(DaemonState::initial(), events);
        handlers_accounted_for(events.drop_last());
    }
}

proof fn lemma_stays_closing(events: Seq<DaemonEvent>, i: int, j: int)
    requires
        admits(DaemonState::initial(), events),
        0 <= i <= j <= events.len(),
        reached(DaemonState::initial(), events.take(i)).closing(),
    ensures
        reached(DaemonState::initial(), events.take(j)).closing(),
    decreases j - i,
{
    if i < j {
        lemma_stays_closing(events, i, j - 1);
        lemma_take(DaemonState::initial(), events, j - 1);
    }
}

/// Once shutdown was requested, no client gets a handler any more.
pub proof fn no_handler_after_shutdown(events: Seq<DaemonEvent>, i: int, j: int)
    requires
        admits(DaemonState::initial(), events),
        0 <= i <= j < events.len(),
        events[i] is Shutdown,
    ensures
        !(acted(DaemonState::initial(), events)[j] is SpawnHandler),
{
    lemma_take(DaemonState::initial(), events, i);
    lemma_take(DaemonState::initial(), events, j);
    assert(reached(DaemonState::initial(), events.take(i)).awaits(events[i]));
    if i < j {
        lemma_stays_closing(events, i + 1, j);
    }
}

/// Every client that connects while the daemon serves gets a handler of its own.
pub proof fn each_client_gets_a_handler(events: Seq<DaemonEvent>, i: int)
    requires
        admits(DaemonState::initial(), events),
        0 <= i < events.len(),
    ensures
        events[i] is Accepted <==> acted(DaemonState::initial(), events)[i] is SpawnHandler,
{
    assert(reached(DaemonState::initial(), events.take(i)).awaits(events[i]));
}

/// Whether something went wrong before the daemon could serve.
pub open spec fn start_failed(events: Seq<DaemonEvent>) -> bool {
    exists|i: int|
        0 <= i < events.len() && (#[trigger] events[i] is Failed || events[i] is InitFailed)
}

/// Whether shutdown was requested.
pub open spec fn shutdown_requested(events: Seq<DaemonEvent>) -> bool {
    exists|i: int| 0 <= i < events.len() && #[trigger] events[i] is Shutdown
}

proof fn lemma_outcome(events: Seq<DaemonEvent>)
    requires
        admits(DaemonState::initial(), events),
    ensures
        ({
            let phase = reached(DaemonState::initial(), events).phase;
            &&& start_failed(events) <==> (phase == DaemonPhase::Announcing(false) || phase
                == DaemonPhase::Joining(false) || phase == DaemonPhase::Finished(false))
            &&& shutdown_requested(events) <==> (phase is Closing || phase is Draining || phase
                == DaemonPhase::Joining(true) || phase == DaemonPhase::Finished(true))
        }),
    decreases events.len(),
{
    if events.len() > 0 {
        let before = events.drop_last();
        lemma_drop_last(DaemonState::initial(), events);
        lemma_outcome(before);
        assert(events[events.len() - 1] == events.last());
        assert forall|i: int| 0 <= i < before.len() implies #[trigger] before[i] == events[i] by {}
        if start_failed(before) {
            let i = choose|i: int|
                0 <= i < before.len() && (#[trigger] before[i] is Failed || before[i] is InitFailed);
            assert(events[i] is Failed || events[i] is InitFailed);
        }
        if start_failed(events) {
            let i = choose|i: int|
                0 <= i < events.len() && (#[trigger] events[i] is Failed || events[i] is InitFailed);
            assert(i < before.len() ==> before[i] is Failed || before[i] is InitFailed);
        }
        if shutdown_requested(before) {
            let i = choose|i: int| 0 <= i < before.len() && #[trigger] before[i] is Shutdown;
            assert(events[i] is Shutdown);
        }
        if shutdown_requested(events) {
            let i = choose|i: int| 0 <= i < events.len() && #[trigger] events[i] is Shutdown;
            assert(i < before.len() ==> before[i] is Shutdown);
        }
    }
}

/// The daemon ends only when it could not start, or when shutdown was requested and every handler
/// has ended; it says which of the two it was.
pub proof fn daemon_ends_in_good_order(events: Seq<DaemonEvent>, good: bool)
    requires
        admits(DaemonState::initial(), events),
        events.len() > 0,
        acted(DaemonState::initial(), events).last() == DaemonAction::Return(good),
    ensures
        good <==> shutdown_requested(events),
        !good <==> start_failed(events),
        count(acted(DaemonState::initial(), events), |a: DaemonAction| a is SpawnHandler) == count(
            events,
            |e: DaemonEvent| e is HandlerFinished,
        ),
{
    lemma_drop_last(DaemonState::initial(), events);
    lemma_outcome(events);
    lemma_daemon_invariant(events);
    handlers_accounted_for(events);
}

/// How many events are left until a daemon ends that takes no more clients: the end of the socket,
/// that of each handler that is running, and that of the notifier.
pub open spec fn left_to_do(s: DaemonState) -> nat {
    match s.phase {
        DaemonPhase::Closing => s.handlers + 2,
        DaemonPhase::Draining => s.handlers + 1,
        DaemonPhase::Joining(_) => 1,
        _ => 0,
    }
}

proof fn lemma_closing(events: Seq<DaemonEvent>, i: int, j: int)
    requires
        admits(DaemonState::initial(), events),
        0 <= i < j <= events.len(),
        events[i] is Shutdown,
    ensures
        ({
            let asked = reached(DaemonState::initial(), events.take(i));
            let now = reached(DaemonState::initial(), events.take(j));
            &&& now.phase is Closing || now.phase is Draining || now.phase == DaemonPhase::Joining(
                true,
            ) || now.phase == DaemonPhase::Finished(true)
            &&& now.phase is Closing ==> now.handlers == asked.handlers
            &&& !now.control
            &&& j - i - 1 + left_to_do(now) == asked.handlers + 2
        }),
    decreases j - i,
{
    lemma_take(DaemonState::initial(), events, j - 1);
    let before = reached(DaemonState::initial(), events.take(j - 1));
    assert(before.awaits(events[j - 1]));
    if i < j - 1 {
        lemma_closing(events, i, j - 1);
    }
}

/// A request for shutdown leads to the end: from then on, the daemon lives until the socket is
/// closed, every handler that was running has ended and the notifier is done, and not a moment
/// longer.
pub proof fn shutdown_ends_the_daemon(events: Seq<DaemonEvent>, i: int)
    requires
        admits(DaemonState::initial(), events),
        0 <= i < events.len(),
        events[i] is Shutdown,
    ensures
        ({
            let running = reached(DaemonState::initial(), events.take(i)).handlers;
            let further = events.len() - (i + 1);
            &&& further <= running + 2
            &&& reached(DaemonState::initial(), events).phase is Finished <==> further == running
                + 2
            &&& further == running + 2 ==> acted(DaemonState::initial(), events).last()
                == DaemonAction::Return(true)
        }),
{
    lemma_closing(events, i, events.len() as int);
    assert(events.take(events.len() as int) =~= events);
    lemma_drop_last(DaemonState::initial(), events);
}

/// A request for shutdown is answered by closing the socket and the control channel, and from then
/// on neither a connection nor a control message is waited for: further ones are rejected.
pub proof fn connections_are_rejected_after_shutdown(events: Seq<DaemonEvent>, i: int, j: int)
    requires
        admits(DaemonState::initial(), events),
        0 <= i < j < events.len(),
        events[i] is Shutdown,
    ensures
        acted(DaemonState::initial(), events)[i] is CloseSocket,
        !(acted(DaemonState::initial(), events)[j] is CloseSocket),
        !(acted(DaemonState::initial(), events)[j] is Select),
        !(events[j] is Accepted),
        !(events[j] is Shutdown) && !(events[j] is ControlClosed),
{
    assert(reached(DaemonState::initial(), events.take(i)).awaits(events[i]));
    assert(reached(DaemonState::initial(), events.take(j)).awaits(events[j]));
    lemma_closing(events, i, j);
}

/// Of several requests for shutdown, the daemon takes one. The control channel is closed from then
/// on, so the others keep no handler waiting, and what is left until the end are the handlers that
/// run, whether or not they request shutdown too.
pub proof fn one_request_for_shutdown_is_taken(events: Seq<DaemonEvent>)
    requires
        admits(DaemonState::initial(), events),
    ensures
        count(events, |e: DaemonEvent| e is Shutdown) == if shutdown_requested(events) {
            1nat
        } else {
            0nat
        },
        shutdown_requested(events) ==> !reached(DaemonState::initial(), events).control,
    decreases events.len(),
{
    if events.len() > 0 {
        let before = events.drop_last();
        lemma_drop_last(DaemonState::initial(), events);
        lemma_outcome(before);
        lemma_outcome(events);
        one_request_for_shutdown_is_taken(before);
    }
}

/// The daemon waits for its handlers only after it has closed the socket.
pub proof fn socket_is_closed_before_the_wait(events: Seq<DaemonEvent>, j: int)
    requires
        admits(DaemonState::initial(), events),
        0 <= j < events.len(),
        acted(DaemonState::initial(), events)[j] is AwaitHandler || acted(
            DaemonState::initial(),
            events,
        )[j] == DaemonAction::Return(true),
    ensures
        exists|i: int|
            0 <= i < j && events[i] is Shutdown && #[trigger] acted(
                DaemonState::initial(),
                events,
            )[i] is CloseSocket,
{
    let start = DaemonState::initial();
    let before = events.take(j);
    lemma_take(start, events, j);
    assert(reached(start, before).awaits(events[j]));
    lemma_outcome(before);
    assert(shutdown_requested(before));
    let i = choose|i: int| 0 <= i < before.len() && #[trigger] before[i] is Shutdown;
    assert(events[i] is Shutdown);
    assert(reached(start, events.take(i)).awaits(events[i]));
    assert(acted(start, events)[i] is CloseSocket);
}

/// Whether the daemon has not announced itself yet.
spec fn unannounced(phase: DaemonPhase) -> bool {
    phase is Adopting || phase is Probing || phase is Removing || phase is Binding
        || phase is Initialising
}

proof fn lemma_announcements(events: Seq<DaemonEvent>)
    requires
        admits(DaemonState::initial(), events),
    ensures
        ({
            let phase = reached(DaemonState::initial(), events).phase;
            let announced = count(
                acted(DaemonState::initial(), events),
                |a: DaemonAction| a is Announce,
            );
            &&& unannounced(phase) ==> announced == 0
            &&& announced <= 1
            &&& announced == 1 || unannounced(phase) || phase == DaemonPhase::Finished(false)
        }),
    decreases events.len(),
{
    if events.len() > 0 {
        lemma_drop_last(DaemonState::initial(), events);
        lemma_announcements(events.drop_last());
    }
}

/// The process that started the daemon is told about it at most once.
pub proof fn announced_at_most_once(events: Seq<DaemonEvent>)
    requires
        admits(DaemonState::initial(), events),
    ensures
        count(acted(DaemonState::initial(), events), |a: DaemonAction| a is Announce) <= 1,
{
    lemma_announcements(events);
}

/// A daemon that took over the stream to the process that started it and ends has told it how it
/// fared.
pub proof fn announced_before_the_end(events: Seq<DaemonEvent>, good: bool)
    requires
        admits(DaemonState::initial(), events),
        events.len() > 1,
        acted(DaemonState::initial(), events).last() == DaemonAction::Return(good),
    ensures
        count(acted(DaemonState::initial(), events), |a: DaemonAction| a is Announce) == 1,
{
    let before = events.drop_last();
    lemma_drop_last(DaemonState::initial(), events);
    lemma_announcements(before);
    lemma_drop_last(DaemonState::initial(), before);
}

/// What is announced is what happened: the state was produced, or could not be produced for the
/// reason that is passed on, or the socket could not be prepared.
pub proof fn announcement_is_true(events: Seq<DaemonEvent>, i: int, reason: String)
    requires
        admits(DaemonState::initial(), events),
        0 <= i < events.len(),
    ensures
        ({
            let phase = reached(DaemonState::initial(), events.take(i)).phase;
            let action = acted(DaemonState::initial(), events)[i];
            &&& action == DaemonAction::Announce(DaemonReadyToken::Forked) <==> phase
                == DaemonPhase::Initialising && events[i] is Done
            &&& action == DaemonAction::Announce(DaemonReadyToken::FailedState(reason)) <==> events[i]
                == DaemonEvent::InitFailed(reason)
            &&& action == DaemonAction::Announce(DaemonReadyToken::Failed) <==> events[i] is Failed
                && phase != DaemonPhase::Adopting
            &&& action != DaemonAction::Announce(DaemonReadyToken::Running)
        }),
{
    assert(reached(DaemonState::initial(), events.take(i)).awaits(events[i]));
}

/// No handler runs before the daemon has announced that it accepts connections.
pub proof fn handlers_start_after_announcement(events: Seq<DaemonEvent>, j: int)
    requires
        admits(DaemonState::initial(), events),
        0 <= j < events.len(),
        acted(DaemonState::initial(), events)[j] is SpawnHandler,
    ensures
        exists|i: int|
            0 <= i < j && #[trigger] acted(DaemonState::initial(), events)[i]
                == DaemonAction::Announce(DaemonReadyToken::Forked),
{
    assert(reached(DaemonState::initial(), events.take(j)).awaits(events[j]));
    lemma_served_after_announcement(events, j);
}

proof fn lemma_served_after_announcement(events: Seq<DaemonEvent>, j: int)
    requires
        admits(DaemonState::initial(), events),
        0 <= j <= events.len(),
        ({
            let phase = reached(DaemonState::initial(), events.take(j)).phase;
            phase == DaemonPhase::Announcing(true) || phase is Serving || phase is Spawning
        }),
    ensures
        exists|i: int|
            0 <= i < j && #[trigger] acted(DaemonState::initial(), events)[i]
                == DaemonAction::Announce(DaemonReadyToken::Forked),
    decreases j,
{
    if j > 0 {
        lemma_take(DaemonState::initial(), events, j - 1);
        let before = reached(DaemonState::initial(), events.take(j - 1));
        assert(before.awaits(events[j - 1]));
        if before.phase is Initialising {
            assert(acted(DaemonState::initial(), events)[j - 1] == DaemonAction::Announce(
                DaemonReadyToken::Forked,
            ));
        } else {
            lemma_served_after_announcement(events, j - 1);
        }
    }
}

/// The action that is being performed in each phase.
spec fn performing(phase: DaemonPhase, action: DaemonAction) -> bool {
    match phase {
        DaemonPhase::Adopting => action is AdoptParent,
        DaemonPhase::Probing => action is ProbeSocket,
        DaemonPhase::Removing => action is RemoveSocket,
        DaemonPhase::Binding => action is BindSocket,
        DaemonPhase::Initialising => action is RunInit,
        DaemonPhase::Announcing(serve) => action matches DaemonAction::Announce(token) && serve
            == (token is Forked),
        DaemonPhase::Serving => action is Select,
        DaemonPhase::Spawning => action is SpawnHandler,
        DaemonPhase::Closing => action is CloseSocket,
        DaemonPhase::Draining => action is AwaitHandler,
        DaemonPhase::Joining(_) => action is JoinNotifier,
        DaemonPhase::Finished(_) => action is Return,
    }
}

/// Whether someone can still request shutdown after `events`: whether no one has, and the control
/// channel is not known to be closed.
pub open spec fn control_open(events: Seq<DaemonEvent>) -> bool {
    forall|i: int|
        0 <= i < events.len() ==> !(#[trigger] events[i] is Shutdown)
            && !(events[i] is ControlClosed)
}

/// How many of the clients that were accepted still have a running handler after `events`.
pub open spec fn running(events: Seq<DaemonEvent>) -> int {
    count(events, |e: DaemonEvent| e is Accepted) - count(
        events,
        |e: DaemonEvent| e is HandlerFinished,
    )
}

proof fn lemma_daemon_phase(events: Seq<DaemonEvent>, i: int)
    requires
        admits(DaemonState::initial(), events),
        0 <= i <= events.len(),
    ensures
        ({
            let now = reached(DaemonState::initial(), events.take(i));
            let doing = asked(DaemonAction::AdoptParent, DaemonState::initial(), events, i);
            &&& performing(now.phase, doing)
            &&& now.control == control_open(events.take(i))
            &&& now.handlers == running(events.take(i))
            &&& doing matches DaemonAction::Select { control } ==> control == control_open(
                events.take(i),
            )
            &&& unannounced(now.phase) || now.phase is Announcing ==> now.control && now.handlers
                == 0
            &&& now.phase matches DaemonPhase::Joining(good) ==> good == shutdown_requested(
                events.take(i),
            )
            &&& i < events.len() ==> now.awaits(events[i])
        }),
    decreases i,
{
    let start = DaemonState::initial();
    let now = events.take(i);
    lemma_take(start, events, i);
    if i > 0 {
        let before = events.take(i - 1);
        lemma_daemon_phase(events, i - 1);
        lemma_take(start, events, i - 1);
        lemma_outcome(now);
        assert(now.drop_last() =~= before);
        assert(now[i - 1] == events[i - 1]);
        assert forall|k: int| 0 <= k < before.len() implies #[trigger] now[k] == before[k] by {}
        if control_open(now) {
            assert forall|k: int| 0 <= k < before.len() implies !(#[trigger] before[k] is Shutdown)
                && !(before[k] is ControlClosed) by {
                assert(now[k] == before[k]);
            }
        } else if control_open(before) {
            let k = choose|k: int|
                0 <= k < now.len() && (#[trigger] now[k] is Shutdown || now[k] is ControlClosed);
            assert(k < before.len() ==> before[k] == now[k]);
        }
    }
    if i < events.len() {
        assert(reached(start, events.take(i)).awaits(events[i]));
    }
}

/// While no one has requested shutdown and someone still could, the daemon waits for a control
/// message whenever it waits for a connection, however many handlers are running.
pub proof fn control_is_always_listened_to(events: Seq<DaemonEvent>, i: int, control: bool)
    requires
        admits(DaemonState::initial(), events),
        0 <= i < events.len(),
        acted(DaemonState::initial(), events)[i] == (DaemonAction::Select { control }),
    ensures
        control <==> control_open(events.take(i + 1)),
{
    lemma_daemon_phase(events, i + 1);
}

/// The daemon takes over the stream, replaces an old socket file where there is one, creates the
/// socket, produces the state and announces itself, in this order; what fails on the way is
/// announced, but where there is no stream to announce it on.
pub proof fn daemon_starts_step_by_step(events: Seq<DaemonEvent>, i: int)
    requires
        admits(DaemonState::initial(), events),
        0 <= i < events.len(),
    ensures
        ({
            let doing = asked(DaemonAction::AdoptParent, DaemonState::initial(), events, i);
            let answer = acted(DaemonState::initial(), events)[i];
            &&& doing is AdoptParent ==> answer == if events[i] is Done {
                DaemonAction::ProbeSocket
            } else {
                DaemonAction::Return(false)
            }
            &&& events[i] matches DaemonEvent::Exists(exists) ==> answer == if exists {
                DaemonAction::RemoveSocket
            } else {
                DaemonAction::BindSocket
            }
            &&& doing is RemoveSocket && events[i] is Done ==> answer is BindSocket
            &&& doing is BindSocket && events[i] is Done ==> answer is RunInit
            &&& doing is RunInit && events[i] is Done ==> answer == DaemonAction::Announce(
                DaemonReadyToken::Forked,
            )
            &&& events[i] matches DaemonEvent::InitFailed(reason) ==> answer
                == DaemonAction::Announce(DaemonReadyToken::FailedState(reason))
            &&& events[i] is Failed && !(doing is AdoptParent) ==> answer == DaemonAction::Announce(
                DaemonReadyToken::Failed,
            )
        }),
{
    lemma_daemon_phase(events, i);
}

/// A daemon that has announced itself as ready serves; one that has announced anything else waits
/// for the notifier and ends.
pub proof fn announced_daemon_serves(events: Seq<DaemonEvent>, i: int, token: DaemonReadyToken)
    requires
        admits(DaemonState::initial(), events),
        0 <= i < events.len(),
        asked(DaemonAction::AdoptParent, DaemonState::initial(), events, i)
            == DaemonAction::Announce(token),
    ensures
        acted(DaemonState::initial(), events)[i] == if token is Forked {
            DaemonAction::Select { control: true }
        } else {
            DaemonAction::JoinNotifier
        },
{
    lemma_daemon_phase(events, i);
    lemma_daemon_phase(events, i + 1);
    lemma_take(DaemonState::initial(), events, i);
}

/// The daemon goes on serving whatever happens, until shutdown is requested: each client gets a
/// handler, and neither a connection that fails, nor the end of a handler, nor that of the control
/// channel keeps it from waiting for the next client.
pub proof fn daemon_serves_on(events: Seq<DaemonEvent>, i: int)
    requires
        admits(DaemonState::initial(), events),
        0 <= i < events.len(),
        ({
            let doing = asked(DaemonAction::AdoptParent, DaemonState::initial(), events, i);
            doing is Select || doing is SpawnHandler
        }),
    ensures
        ({
            let answer = acted(DaemonState::initial(), events)[i];
            &&& events[i] is Accepted ==> answer is SpawnHandler
            &&& events[i] is Shutdown ==> answer is CloseSocket
            &&& !(events[i] is Accepted) && !(events[i] is Shutdown) ==> answer is Select
        }),
{
    lemma_daemon_phase(events, i);
}

/// After the socket is closed, the daemon waits for one handler after the other as long as any is
/// running, and then for the notifier.
pub proof fn daemon_waits_for_running_handlers(events: Seq<DaemonEvent>, i: int)
    requires
        admits(DaemonState::initial(), events),
        0 <= i < events.len(),
        ({
            let doing = asked(DaemonAction::AdoptParent, DaemonState::initial(), events, i);
            doing is CloseSocket || doing is AwaitHandler
        }),
    ensures
        acted(DaemonState::initial(), events)[i] == if running(events.take(i + 1)) > 0 {
            DaemonAction::AwaitHandler
        } else {
            DaemonAction::JoinNotifier
        },
{
    lemma_daemon_phase(events, i);
    lemma_daemon_phase(events, i + 1);
    lemma_take(DaemonState::initial(), events, i);
}

/// When the notifier is done, the daemon ends, and it does so in good order where shutdown was
/// requested.
pub proof fn daemon_ends_after_the_notifier(events: Seq<DaemonEvent>, i: int)
    requires
        admits(DaemonState::initial(), events),
        0 <= i < events.len(),
        asked(DaemonAction::AdoptParent, DaemonState::initial(), events, i) is JoinNotifier,
    ensures
        acted(DaemonState::initial(), events)[i] == DaemonAction::Return(
            shutdown_requested(events.take(i)),
        ),
        i == events.len() - 1,
{
    lemma_daemon_phase(events, i);
    lemma_take(DaemonState::initial(), events, i);
    if i + 1 < events.len() {
        lemma_daemon_phase(events, i + 1);
    }
}

/// Whatever comes of the action that is being performed can be reported, and nothing else: while
/// the daemon serves, this is a connection, the end of a handler that is running, and, as long as
/// the control channel is open, what comes out of it.
pub proof fn daemon_takes_every_outcome(events: Seq<DaemonEvent>, event: DaemonEvent)
    requires
        admits(DaemonState::initial(), events),
    ensures
        reached(DaemonState::initial(), events).awaits(event) <==> match asked(
            DaemonAction::AdoptParent,
            DaemonState::initial(),
            events,
            events.len() as int,
        ) {
            DaemonAction::AdoptParent | DaemonAction::RemoveSocket | DaemonAction::BindSocket =>
                event is Done || event is Failed,
            DaemonAction::ProbeSocket => event is Exists || event is Failed,
            DaemonAction::RunInit => event is Done || event is InitFailed,
            DaemonAction::Select { .. } => match event {
                DaemonEvent::Shutdown | DaemonEvent::ControlClosed => control_open(events),
                DaemonEvent::Accepted => running(events) < u64::MAX,
                DaemonEvent::AcceptFailed => true,
                DaemonEvent::HandlerFinished(_) => running(events) > 0,
                _ => false,
            },
            DaemonAction::AwaitHandler => event is HandlerFinished,
            DaemonAction::Return(_) => false,
            _ => event is Done,
        },
{
    lemma_daemon_phase(events, events.len() as int);
    lemma_daemon_invariant(events);
    assert(events.take(events.len() as int) =~= events);
}

} // verus!

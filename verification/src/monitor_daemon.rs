//! How the process monitor's daemon takes its socket, and how it serves its clients.

use vstd::prelude::*;

use crate::machine::{acted, admits, asked, lemma_drop_last, lemma_take, reached, Machine};
use crate::text::prefixed;

verus! {

/// What the daemon is waiting for.
#[derive(Debug, Clone, Copy, PartialEq, Eq, Structural)]
pub enum MonitorDaemonPhase {
    /// The daemon finds out whether there is an old socket file.
    Probing,
    /// The old socket file is being removed.
    Removing,
    /// The socket is being created.
    Binding,
    /// The measuring is being started.
    Starting,
    /// A client is being waited for.
    Accepting,
    /// A handler is being started.
    Spawning,
    /// The daemon has come to its end.
    Finished,
}

/// What is reported to the daemon.
pub enum MonitorDaemonEvent {
    /// The action was performed.
    Done,
    /// The action failed, for this reason.
    Failed(String),
    /// Whether there is an old socket file.
    Probed(bool),
}

/// What the daemon asks for.
#[derive(Debug)]
pub enum MonitorDaemonAction {
    /// Find out whether there is an old socket file.
    Probe,
    /// Remove the old socket file.
    Remove,
    /// Create the socket.
    Bind,
    /// Report that clients can connect, and start to measure.
    Start,
    /// Accept a client.
    Accept,
    /// Start a handler for the client that was accepted.
    Spawn,
    /// End, with this message.
    Return(String),
}

/// What a [`MonitorDaemonAction`] says.
pub enum MonitorDaemonActionView {
    Probe,
    Remove,
    Bind,
    Start,
    Accept,
    Spawn,
    Return(Seq<char>),
}

impl View for MonitorDaemonAction {
    type V = MonitorDaemonActionView;

    open spec fn view(&self) -> MonitorDaemonActionView {
        match *self {
            MonitorDaemonAction::Probe => MonitorDaemonActionView::Probe,
            MonitorDaemonAction::Remove => MonitorDaemonActionView::Remove,
            MonitorDaemonAction::Bind => MonitorDaemonActionView::Bind,
            MonitorDaemonAction::Start => MonitorDaemonActionView::Start,
            MonitorDaemonAction::Accept => MonitorDaemonActionView::Accept,
            MonitorDaemonAction::Spawn => MonitorDaemonActionView::Spawn,
            MonitorDaemonAction::Return(message) => MonitorDaemonActionView::Return(message@),
        }
    }
}

/// What the daemon remembers: what it is waiting for, and the name of its socket file.
pub struct MonitorDaemonState {
    pub phase: MonitorDaemonPhase,
    pub socket: Seq<char>,
}

impl MonitorDaemonState {
    /// The state in which the daemon starts.
    pub open spec fn initial(socket: Seq<char>) -> MonitorDaemonState {
        MonitorDaemonState { phase: MonitorDaemonPhase::Probing, socket }
    }

    /// Whether clients can connect.
    pub open spec fn serves(self) -> bool {
        self.phase is Starting || self.phase is Accepting || self.phase is Spawning
    }
}

impl Machine for MonitorDaemonState {
    type Event = MonitorDaemonEvent;

    type Action = MonitorDaemonActionView;

    open spec fn awaits(self, event: MonitorDaemonEvent) -> bool {
        match self.phase {
            MonitorDaemonPhase::Probing => event is Probed || event is Failed,
            MonitorDaemonPhase::Removing | MonitorDaemonPhase::Binding
            | MonitorDaemonPhase::Accepting => event is Done || event is Failed,
            MonitorDaemonPhase::Starting | MonitorDaemonPhase::Spawning => event is Done,
            MonitorDaemonPhase::Finished => false,
        }
    }

    open spec fn next(self, event: MonitorDaemonEvent) -> MonitorDaemonState {
        let phase = match (self.phase, event) {
            (MonitorDaemonPhase::Probing, MonitorDaemonEvent::Probed(true)) =>
                MonitorDaemonPhase::Removing,
            (MonitorDaemonPhase::Probing, MonitorDaemonEvent::Probed(false)) =>
                MonitorDaemonPhase::Binding,
            (MonitorDaemonPhase::Removing, MonitorDaemonEvent::Done) => MonitorDaemonPhase::Binding,
            (MonitorDaemonPhase::Binding, MonitorDaemonEvent::Done) => MonitorDaemonPhase::Starting,
            (MonitorDaemonPhase::Accepting, MonitorDaemonEvent::Done) =>
                MonitorDaemonPhase::Spawning,
            (MonitorDaemonPhase::Accepting, MonitorDaemonEvent::Failed(_)) =>
                MonitorDaemonPhase::Accepting,
            (MonitorDaemonPhase::Starting, _) | (MonitorDaemonPhase::Spawning, _) =>
                MonitorDaemonPhase::Accepting,
            _ => MonitorDaemonPhase::Finished,
        };
        MonitorDaemonState { phase, ..self }
    }

    open spec fn act(self, event: MonitorDaemonEvent) -> MonitorDaemonActionView {
        match self.next(event).phase {
            MonitorDaemonPhase::Probing => MonitorDaemonActionView::Probe,
            MonitorDaemonPhase::Removing => MonitorDaemonActionView::Remove,
            MonitorDaemonPhase::Binding => MonitorDaemonActionView::Bind,
            MonitorDaemonPhase::Starting => MonitorDaemonActionView::Start,
            MonitorDaemonPhase::Accepting => MonitorDaemonActionView::Accept,
            MonitorDaemonPhase::Spawning => MonitorDaemonActionView::Spawn,
            MonitorDaemonPhase::Finished => MonitorDaemonActionView::Return(
                socket_failure_of(self.phase, self.socket, event->Failed_0@),
            ),
        }
    }
}

/// The message for an action on the socket file that failed in `phase`.
pub open spec fn socket_failure_of(
    phase: MonitorDaemonPhase,
    socket: Seq<char>,
    cause: Seq<char>,
) -> Seq<char> {
    match phase {
        MonitorDaemonPhase::Probing => "could not use file "@ + socket + " as socket: "@ + cause,
        MonitorDaemonPhase::Removing => "could not remove old socket file: "@ + cause,
        MonitorDaemonPhase::Binding => "error creating socket: "@ + cause,
        _ => cause,
    }
}

/// The process monitor's daemon.
#[derive(Debug)]
pub struct MonitorDaemon {
    phase: MonitorDaemonPhase,
    socket: String,
}

impl View for MonitorDaemon {
    type V = MonitorDaemonState;

    closed spec fn view(&self) -> MonitorDaemonState {
        MonitorDaemonState { phase: self.phase, socket: self.socket@ }
    }
}

/// The message for an action on the socket file that failed in `phase`.
fn socket_failure(phase: MonitorDaemonPhase, socket: &str, cause: String) -> (message: String)
    ensures
        message@ == socket_failure_of(phase, socket@, cause@),
{
    match phase {
        MonitorDaemonPhase::Probing => {
            let mut message: String = prefixed("could not use file ", socket);
            message.append(" as socket: ");
            message.append(cause.as_str());
            message
        },
        MonitorDaemonPhase::Removing => prefixed(
            "could not remove old socket file: ",
            cause.as_str(),
        ),
        MonitorDaemonPhase::Binding => prefixed("error creating socket: ", cause.as_str()),
        _ => cause,
    }
}

impl MonitorDaemon {
    /// A daemon that is to listen at the file named `socket`, and the first action that it asks
    /// for.
    pub fn start(socket: &str) -> (started: (MonitorDaemon, MonitorDaemonAction))
        ensures
            started.0@ == MonitorDaemonState::initial(socket@),
            started.1@ == MonitorDaemonActionView::Probe,
    {
        (
            MonitorDaemon { phase: MonitorDaemonPhase::Probing, socket: socket.to_owned() },
            MonitorDaemonAction::Probe,
        )
    }

    /// Reports an event; the action that it asks for next comes back.
    pub fn step(&mut self, event: MonitorDaemonEvent) -> (action: MonitorDaemonAction)
        requires
            old(self)@.awaits(event),
        ensures
            final(self)@ == old(self)@.next(event),
            action@ == old(self)@.act(event),
    {
        let phase: MonitorDaemonPhase = self.phase;
        match (phase, event) {
            (MonitorDaemonPhase::Probing, MonitorDaemonEvent::Probed(true)) => {
                self.phase = MonitorDaemonPhase::Removing;
                MonitorDaemonAction::Remove
            },
            (MonitorDaemonPhase::Accepting, MonitorDaemonEvent::Done) => {
                self.phase = MonitorDaemonPhase::Spawning;
                MonitorDaemonAction::Spawn
            },
            (MonitorDaemonPhase::Accepting, _) | (MonitorDaemonPhase::Starting, _) | (
                MonitorDaemonPhase::Spawning,
                _,
            ) => {
                self.phase = MonitorDaemonPhase::Accepting;
                MonitorDaemonAction::Accept
            },
            (_, MonitorDaemonEvent::Failed(cause)) => {
                self.phase = MonitorDaemonPhase::Finished;
                MonitorDaemonAction::Return(socket_failure(phase, self.socket.as_str(), cause))
            },
            (MonitorDaemonPhase::Binding, _) => {
                self.phase = MonitorDaemonPhase::Starting;
                MonitorDaemonAction::Start
            },
            (_, _) => {
                self.phase = MonitorDaemonPhase::Binding;
                MonitorDaemonAction::Bind
            },
        }
    }
}

/// Once clients can connect, the daemon runs on for ever, whatever happens.
pub proof fn serves_for_ever(socket: Seq<char>, events: Seq<MonitorDaemonEvent>, i: int)
    requires
        admits(MonitorDaemonState::initial(socket), events),
        0 <= i <= events.len(),
        reached(MonitorDaemonState::initial(socket), events.take(i)).serves(),
    ensures
        reached(MonitorDaemonState::initial(socket), events).serves(),
        forall|j: int|
            i <= j < events.len() ==> !(#[trigger] acted(
                MonitorDaemonState::initial(socket),
                events,
            )[j] is Return),
    decreases events.len(),
{
    let start = MonitorDaemonState::initial(socket);
    if i == events.len() {
        assert(events.take(i) =~= events);
    } else {
        let before = events.drop_last();
        lemma_drop_last(start, events);
        assert(before.take(i) =~= events.take(i));
        serves_for_ever(socket, before, i);
    }
}

/// A handler is started for a client that was accepted and for no other, and the daemon goes on to
/// the next client whether or not accepting one succeeds.
pub proof fn each_accepted_client_gets_a_handler(
    socket: Seq<char>,
    events: Seq<MonitorDaemonEvent>,
    i: int,
)
    requires
        admits(MonitorDaemonState::initial(socket), events),
        0 < i < events.len(),
        acted(MonitorDaemonState::initial(socket), events)[i - 1] is Accept,
    ensures
        acted(MonitorDaemonState::initial(socket), events)[i] is Spawn <==> events[i] is Done,
        acted(MonitorDaemonState::initial(socket), events)[i] is Accept <==> events[i] is Failed,
{
    lemma_take(MonitorDaemonState::initial(socket), events, i - 1);
    assert(reached(MonitorDaemonState::initial(socket), events.take(i)).awaits(events[i]));
}

/// The action that is being performed in each phase.
spec fn performing(phase: MonitorDaemonPhase, action: MonitorDaemonActionView) -> bool {
    match phase {
        MonitorDaemonPhase::Probing => action is Probe,
        MonitorDaemonPhase::Removing => action is Remove,
        MonitorDaemonPhase::Binding => action is Bind,
        MonitorDaemonPhase::Starting => action is Start,
        MonitorDaemonPhase::Accepting => action is Accept,
        MonitorDaemonPhase::Spawning => action is Spawn,
        MonitorDaemonPhase::Finished => action is Return,
    }
}

proof fn lemma_monitor_daemon_phase(socket: Seq<char>, events: Seq<MonitorDaemonEvent>, i: int)
    requires
        admits(MonitorDaemonState::initial(socket), events),
        0 <= i <= events.len(),
    ensures
        performing(
            reached(MonitorDaemonState::initial(socket), events.take(i)).phase,
            asked(
                MonitorDaemonActionView::Probe,
                MonitorDaemonState::initial(socket),
                events,
                i,
            ),
        ),
        reached(MonitorDaemonState::initial(socket), events.take(i)).socket == socket,
        i < events.len() ==> reached(MonitorDaemonState::initial(socket), events.take(i)).awaits(
            events[i],
        ),
    decreases i,
{
    let start = MonitorDaemonState::initial(socket);
    if i > 0 {
        lemma_monitor_daemon_phase(socket, events, i - 1);
        lemma_take(start, events, i - 1);
    }
    if i < events.len() {
        assert(reached(start, events.take(i)).awaits(events[i]));
    }
}

/// An old socket file is removed where there is one and only there, the socket is created then,
/// and what succeeds leads on to serving clients.
pub proof fn socket_is_prepared_and_served(
    socket: Seq<char>,
    events: Seq<MonitorDaemonEvent>,
    i: int,
)
    requires
        admits(MonitorDaemonState::initial(socket), events),
        0 <= i < events.len(),
    ensures
        ({
            let doing = asked(
                MonitorDaemonActionView::Probe,
                MonitorDaemonState::initial(socket),
                events,
                i,
            );
            let answer = acted(MonitorDaemonState::initial(socket), events)[i];
            &&& events[i] matches MonitorDaemonEvent::Probed(exists) ==> answer == if exists {
                MonitorDaemonActionView::Remove
            } else {
                MonitorDaemonActionView::Bind
            }
            &&& doing is Remove && events[i] is Done ==> answer is Bind
            &&& doing is Bind && events[i] is Done ==> answer is Start
            &&& doing is Start || doing is Spawn ==> answer is Accept
            &&& doing is Accept ==> answer == if events[i] is Done {
                MonitorDaemonActionView::Spawn
            } else {
                MonitorDaemonActionView::Accept
            }
        }),
{
    lemma_monitor_daemon_phase(socket, events, i);
}

/// A daemon that cannot have its socket ends with a message that says what went wrong, and why.
pub proof fn socket_failures_are_told(
    socket: Seq<char>,
    events: Seq<MonitorDaemonEvent>,
    i: int,
    cause: String,
)
    requires
        admits(MonitorDaemonState::initial(socket), events),
        0 <= i < events.len(),
        events[i] == MonitorDaemonEvent::Failed(cause),
    ensures
        ({
            let doing = asked(
                MonitorDaemonActionView::Probe,
                MonitorDaemonState::initial(socket),
                events,
                i,
            );
            let answer = acted(MonitorDaemonState::initial(socket), events)[i];
            &&& doing is Probe ==> answer == MonitorDaemonActionView::Return(
                "could not use file "@ + socket + " as socket: "@ + cause@,
            )
            &&& doing is Remove ==> answer == MonitorDaemonActionView::Return(
                "could not remove old socket file: "@ + cause@,
            )
            &&& doing is Bind ==> answer == MonitorDaemonActionView::Return(
                "error creating socket: "@ + cause@,
            )
            &&& doing is Probe || doing is Remove || doing is Bind || doing is Accept
        }),
{
    lemma_monitor_daemon_phase(socket, events, i);
}

/// Whatever comes of the action that is being performed can be reported, and nothing else.
pub proof fn monitor_daemon_takes_every_outcome(
    socket: Seq<char>,
    events: Seq<MonitorDaemonEvent>,
    event: MonitorDaemonEvent,
)
    requires
        admits(MonitorDaemonState::initial(socket), events),
    ensures
        reached(MonitorDaemonState::initial(socket), events).awaits(event) <==> match asked(
            MonitorDaemonActionView::Probe,
            MonitorDaemonState::initial(socket),
            events,
            events.len() as int,
        ) {
            MonitorDaemonActionView::Probe => event is Probed || event is Failed,
            MonitorDaemonActionView::Start | MonitorDaemonActionView::Spawn => event is Done,
            MonitorDaemonActionView::Return(_) => false,
            _ => event is Done || event is Failed,
        },
{
    lemma_monitor_daemon_phase(socket, events, events.len() as int);
    assert(events.take(events.len() as int) =~= events);
}

/// What an action says is what it holds.
pub proof fn monitor_daemon_actions_say_what_they_hold(message: String)
    ensures
        MonitorDaemonAction::Return(message)@ == MonitorDaemonActionView::Return(message@),
{
}

} // verus!

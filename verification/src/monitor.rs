//! The client of the process monitor: it asks for the loads of some processes and prints them as
//! they come.

use vstd::prelude::*;

use crate::config::Config;
use crate::machine::{acted, admits, asked, lemma_drop_last, lemma_take, reached, Machine};
use crate::text::prefixed;
use crate::wire::{encode_pids, pids_to_words, words_to_bytes};

verus! {

/// What the client is waiting for.
#[derive(Debug, Clone, Copy, PartialEq, Eq, Structural)]
pub enum MonitorPhase {
    /// The process ids are being sent.
    Sending,
    /// What was sent is being flushed.
    Flushing,
    /// The client's side of the stream is being closed.
    Closing,
    /// The clock for the timeout is being started.
    Timing,
    /// A word is being read.
    Reading,
    /// A line is being printed.
    Printing,
    /// The clock is being read.
    Checking,
    /// The client has ended.
    Finished,
}

/// What is reported to the client.
pub enum MonitorEvent {
    /// The action was performed.
    Done,
    /// The action failed, for this reason.
    Failed(String),
    /// The word that was read.
    Word(u32),
    /// There is nothing more to read.
    End,
    /// Whether the timeout has passed.
    Expired(bool),
}

/// What the client asks for.
pub enum MonitorAction {
    /// Send these bytes.
    Send(Vec<u8>),
    /// Flush what was sent.
    Flush,
    /// Close the client's side of the stream.
    Close,
    /// Start the clock for the timeout.
    StartClock,
    /// Read the next word. Where there is a timeout, wait no longer than until it has passed.
    ReadWord,
    /// Print a line about these loads.
    Print(Vec<u32>),
    /// Find out whether the timeout has passed.
    CheckClock,
    /// End the client, with a message if something went wrong.
    Return(Result<(), String>),
}

/// What a [`MonitorAction`] says.
pub enum MonitorActionView {
    Send(Seq<u8>),
    Flush,
    Close,
    StartClock,
    ReadWord,
    Print(Seq<u32>),
    CheckClock,
    Return(Result<(), Seq<char>>),
}

impl View for MonitorAction {
    type V = MonitorActionView;

    open spec fn view(&self) -> MonitorActionView {
        match *self {
            MonitorAction::Send(bytes) => MonitorActionView::Send(bytes@),
            MonitorAction::Flush => MonitorActionView::Flush,
            MonitorAction::Close => MonitorActionView::Close,
            MonitorAction::StartClock => MonitorActionView::StartClock,
            MonitorAction::ReadWord => MonitorActionView::ReadWord,
            MonitorAction::Print(words) => MonitorActionView::Print(words@),
            MonitorAction::CheckClock => MonitorActionView::CheckClock,
            MonitorAction::Return(Ok(())) => MonitorActionView::Return(Ok(())),
            MonitorAction::Return(Err(message)) => MonitorActionView::Return(Err(message@)),
        }
    }
}

/// What the client remembers.
pub struct MonitorState {
    pub phase: MonitorPhase,
    /// How many loads make a line.
    pub width: nat,
    /// Whether there is a timeout.
    pub timed: bool,
    /// The words that have been read and not printed.
    pub pending: Seq<u32>,
    /// Whether there is nothing more to read.
    pub ended: bool,
}

impl MonitorState {
    /// The state in which a client starts that asks for `width` processes.
    pub open spec fn initial(width: nat, timed: bool) -> MonitorState {
        MonitorState {
            phase: MonitorPhase::Sending,
            width,
            timed,
            pending: Seq::empty(),
            ended: false,
        }
    }

    /// The message for an action that failed in this state.
    pub open spec fn failure(self, cause: Seq<char>) -> Seq<char> {
        match self.phase {
            MonitorPhase::Sending => "error writing to server: "@ + cause,
            MonitorPhase::Flushing => "error flushing stream: "@ + cause,
            _ => "error shutting down stream: "@ + cause,
        }
    }

    /// The words that are there when `event` has come.
    pub open spec fn gathered(self, event: MonitorEvent) -> Seq<u32> {
        match event {
            MonitorEvent::Word(word) => self.pending.push(word),
            _ => self.pending,
        }
    }
}

impl Machine for MonitorState {
    type Event = MonitorEvent;

    type Action = MonitorActionView;

    open spec fn awaits(self, event: MonitorEvent) -> bool {
        match self.phase {
            MonitorPhase::Sending | MonitorPhase::Flushing | MonitorPhase::Closing => event is Done
                || event is Failed,
            MonitorPhase::Timing | MonitorPhase::Printing => event is Done,
            MonitorPhase::Reading => event is Word || event is End || (self.timed
                && event is Expired),
            MonitorPhase::Checking => event is Expired,
            MonitorPhase::Finished => false,
        }
    }

    open spec fn next(self, event: MonitorEvent) -> MonitorState {
        let go_on = if self.ended {
            MonitorPhase::Finished
        } else {
            MonitorPhase::Reading
        };
        let gathered = self.gathered(event);
        match (self.phase, event) {
            (MonitorPhase::Sending, MonitorEvent::Done) => MonitorState {
                phase: MonitorPhase::Flushing,
                ..self
            },
            (MonitorPhase::Flushing, MonitorEvent::Done) => MonitorState {
                phase: MonitorPhase::Closing,
                ..self
            },
            (MonitorPhase::Closing, MonitorEvent::Done) => MonitorState {
                phase: if self.timed {
                    MonitorPhase::Timing
                } else {
                    MonitorPhase::Reading
                },
                ..self
            },
            (MonitorPhase::Timing, _) => MonitorState { phase: MonitorPhase::Reading, ..self },
            (MonitorPhase::Reading, MonitorEvent::Word(_)) => if gathered.len() < self.width {
                MonitorState { pending: gathered, ..self }
            } else {
                MonitorState { phase: MonitorPhase::Printing, pending: Seq::empty(), ..self }
            },
            (MonitorPhase::Reading, MonitorEvent::Expired(expired)) => MonitorState {
                phase: if expired {
                    MonitorPhase::Finished
                } else {
                    MonitorPhase::Reading
                },
                ..self
            },
            (MonitorPhase::Reading, _) => MonitorState {
                phase: if gathered.len() == 0 {
                    MonitorPhase::Finished
                } else {
                    MonitorPhase::Printing
                },
                pending: Seq::empty(),
                ended: true,
                ..self
            },
            (MonitorPhase::Printing, _) => MonitorState {
                phase: if self.timed {
                    MonitorPhase::Checking
                } else {
                    go_on
                },
                ..self
            },
            (MonitorPhase::Checking, MonitorEvent::Expired(false)) => MonitorState {
                phase: go_on,
                ..self
            },
            _ => MonitorState { phase: MonitorPhase::Finished, ..self },
        }
    }

    open spec fn act(self, event: MonitorEvent) -> MonitorActionView {
        match self.next(event).phase {
            MonitorPhase::Sending => MonitorActionView::Send(Seq::empty()),
            MonitorPhase::Flushing => MonitorActionView::Flush,
            MonitorPhase::Closing => MonitorActionView::Close,
            MonitorPhase::Timing => MonitorActionView::StartClock,
            MonitorPhase::Reading => MonitorActionView::ReadWord,
            MonitorPhase::Printing => MonitorActionView::Print(self.gathered(event)),
            MonitorPhase::Checking => MonitorActionView::CheckClock,
            MonitorPhase::Finished => match event {
                MonitorEvent::Failed(cause) => MonitorActionView::Return(Err(self.failure(cause@))),
                _ => MonitorActionView::Return(Ok(())),
            },
        }
    }
}

/// A client of the process monitor.
#[derive(Debug)]
pub struct MonitorClient {
    phase: MonitorPhase,
    width: usize,
    timed: bool,
    pending: Vec<u32>,
    ended: bool,
}

impl View for MonitorClient {
    type V = MonitorState;

    closed spec fn view(&self) -> MonitorState {
        MonitorState {
            phase: self.phase,
            width: self.width as nat,
            timed: self.timed,
            pending: self.pending@,
            ended: self.ended,
        }
    }
}

impl MonitorClient {
    /// A client that is about to ask for what `config` says, and the first action that it asks
    /// for.
    pub fn start<V>(config: &Config<V>) -> (started: (MonitorClient, MonitorAction))
        requires
            config.valid(),
        ensures
            started.0@ == MonitorState::initial(config.pids@.len(), config.timeout is Some),
            started.1@ == MonitorActionView::Send(words_to_bytes(pids_to_words(config.pids@))),
    {
        let client = MonitorClient {
            phase: MonitorPhase::Sending,
            width: config.pids.len(),
            timed: config.timeout.is_some(),
            pending: Vec::new(),
            ended: false,
        };
        (client, MonitorAction::Send(encode_pids(config.pids.as_slice())))
    }

    /// Reports an event; the action that it asks for next comes back.
    pub fn step(&mut self, event: MonitorEvent) -> (action: MonitorAction)
        requires
            old(self)@.awaits(event),
        ensures
            final(self)@ == old(self)@.next(event),
            action@ == old(self)@.act(event),
    {
        match (self.phase, event) {
            (MonitorPhase::Sending, MonitorEvent::Done) => {
                self.phase = MonitorPhase::Flushing;
                MonitorAction::Flush
            },
            (MonitorPhase::Sending, MonitorEvent::Failed(cause)) => self.fail(
                "error writing to server: ",
                cause,
            ),
            (MonitorPhase::Flushing, MonitorEvent::Done) => {
                self.phase = MonitorPhase::Closing;
                MonitorAction::Close
            },
            (MonitorPhase::Flushing, MonitorEvent::Failed(cause)) => self.fail(
                "error flushing stream: ",
                cause,
            ),
            (MonitorPhase::Closing, MonitorEvent::Done) => {
                if self.timed {
                    self.phase = MonitorPhase::Timing;
                    MonitorAction::StartClock
                } else {
                    self.phase = MonitorPhase::Reading;
                    MonitorAction::ReadWord
                }
            },
            (MonitorPhase::Closing, MonitorEvent::Failed(cause)) => self.fail(
                "error shutting down stream: ",
                cause,
            ),
            (MonitorPhase::Timing, _) => {
                self.phase = MonitorPhase::Reading;
                MonitorAction::ReadWord
            },
            (MonitorPhase::Reading, MonitorEvent::Word(word)) => {
                self.pending.push(word);
                if self.pending.len() < self.width {
                    MonitorAction::ReadWord
                } else {
                    self.print()
                }
            },
            (MonitorPhase::Reading, MonitorEvent::Expired(false)) => MonitorAction::ReadWord,
            (MonitorPhase::Reading, MonitorEvent::Expired(true)) => {
                self.phase = MonitorPhase::Finished;
                MonitorAction::Return(Ok(()))
            },
            (MonitorPhase::Reading, _) => {
                self.ended = true;
                if self.pending.len() == 0 {
                    assert(self.pending@ =~= Seq::<u32>::empty());
                    self.phase = MonitorPhase::Finished;
                    MonitorAction::Return(Ok(()))
                } else {
                    self.print()
                }
            },
            (MonitorPhase::Printing, _) => {
                if self.timed {
                    self.phase = MonitorPhase::Checking;
                    MonitorAction::CheckClock
                } else {
                    self.go_on()
                }
            },
            (MonitorPhase::Checking, MonitorEvent::Expired(false)) => self.go_on(),
            (_, _) => {
                self.phase = MonitorPhase::Finished;
                MonitorAction::Return(Ok(()))
            },
        }
    }

    fn fail(&mut self, prefix: &str, cause: String) -> (action: MonitorAction)
        ensures
            final(self)@ == (MonitorState { phase: MonitorPhase::Finished, ..old(self)@ }),
            action@ == MonitorActionView::Return(Err(prefix@ + cause@)),
    {
        self.phase = MonitorPhase::Finished;
        MonitorAction::Return(Err(prefixed(prefix, cause.as_str())))
    }

    fn print(&mut self) -> (action: MonitorAction)
        ensures
            final(self)@ == (MonitorState {
                phase: MonitorPhase::Printing,
                pending: Seq::empty(),
                ..old(self)@
            }),
            action@ == MonitorActionView::Print(old(self)@.pending),
    {
        self.phase = MonitorPhase::Printing;
        let mut words: Vec<u32> = Vec::new();
        words.append(&mut self.pending);
        assert(words@ =~= old(self)@.pending);
        MonitorAction::Print(words)
    }

    fn go_on(&mut self) -> (action: MonitorAction)
        ensures
            final(self)@ == (MonitorState {
                phase: if old(self)@.ended {
                    MonitorPhase::Finished
                } else {
                    MonitorPhase::Reading
                },
                ..old(self)@
            }),
            action@ == if old(self)@.ended {
                MonitorActionView::Return(Ok(()))
            } else {
                MonitorActionView::ReadWord
            },
    {
        if self.ended {
            self.phase = MonitorPhase::Finished;
            MonitorAction::Return(Ok(()))
        } else {
            self.phase = MonitorPhase::Reading;
            MonitorAction::ReadWord
        }
    }
}

/// The words that have been read.
pub open spec fn words_read(events: Seq<MonitorEvent>) -> Seq<u32>
    decreases events.len(),
{
    if events.len() == 0 {
        Seq::empty()
    } else {
        match events.last() {
            MonitorEvent::Word(word) => words_read(events.drop_last()).push(word),
            _ => words_read(events.drop_last()),
        }
    }
}

/// The loads of which lines have been printed, line by line.
pub open spec fn lines_printed(actions: Seq<MonitorActionView>) -> Seq<Seq<u32>>
    decreases actions.len(),
{
    if actions.len() == 0 {
        Seq::empty()
    } else {
        match actions.last() {
            MonitorActionView::Print(words) => lines_printed(actions.drop_last()).push(words),
            _ => lines_printed(actions.drop_last()),
        }
    }
}

/// Whether each of `lines` has `width` loads, but for the last one, which may have fewer, though
/// at least one.
pub open spec fn lines_of_width(lines: Seq<Seq<u32>>, width: nat) -> bool {
    forall|i: int|
        0 <= i < lines.len() ==> {
            &&& 0 < #[trigger] lines[i].len() <= width
            &&& i < lines.len() - 1 ==> lines[i].len() == width
        }
}

proof fn lemma_lines(width: nat, timed: bool, events: Seq<MonitorEvent>)
    requires
        width > 0,
        admits(MonitorState::initial(width, timed), events),
    ensures
        ({
            let start = MonitorState::initial(width, timed);
            let state = reached(start, events);
            let lines = lines_printed(acted(start, events));
            &&& state.width == width
            &&& state.timed == timed
            &&& state.pending.len() < width
            &&& lines.flatten() + state.pending == words_read(events)
            &&& lines_of_width(lines, width)
            &&& state.ended ==> state.phase is Printing || state.phase is Checking
                || state.phase is Finished
            &&& state.ended ==> state.pending.len() == 0
            &&& !state.ended ==> forall|i: int|
                0 <= i < lines.len() ==> #[trigger] lines[i].len() == width
        }),
    decreases events.len(),
{
    let start = MonitorState::initial(width, timed);
    if events.len() == 0 {
        let lines = lines_printed(acted(start, events));
        assert(lines =~= Seq::<Seq<u32>>::empty());
        assert(lines.flatten() =~= Seq::<u32>::empty());
        assert(lines.flatten() + start.pending =~= words_read(events));
    } else {
        let before = events.drop_last();
        let event = events.last();
        lemma_drop_last(start, events);
        lemma_lines(width, timed, before);
        let state = reached(start, before);
        let lines = lines_printed(acted(start, before));
        let gathered = state.gathered(event);
        if state.phase is Reading && event is Word {
            assert(lines.flatten() + gathered =~= (lines.flatten() + state.pending).push(
                event->Word_0,
            ));
        }
        if state.act(event) is Print {
            let after = lines_printed(acted(start, events));
            assert(after == lines.push(gathered));
            lines.lemma_flatten_push(gathered);
            assert(after.flatten() + Seq::<u32>::empty() =~= lines.flatten() + gathered);
            assert forall|i: int| 0 <= i < after.len() implies {
                &&& 0 < #[trigger] after[i].len() <= width
                &&& i < after.len() - 1 ==> after[i].len() == width
                &&& !reached(start, events).ended ==> after[i].len() == width
            } by {
                if i < lines.len() {
                    assert(after[i] == lines[i]);
                }
            }
        } else {
            assert(lines_printed(acted(start, events)) == lines);
            if state.phase is Reading && event is End {
                assert(state.pending =~= Seq::<u32>::empty());
            }
        }
    }
}

/// Nothing that was read is lost, repeated or reordered: the lines that were printed, followed by
/// what is still pending, are the words that were read.
pub proof fn lines_hold_what_was_read(width: nat, timed: bool, events: Seq<MonitorEvent>)
    requires
        width > 0,
        admits(MonitorState::initial(width, timed), events),
    ensures
        lines_printed(acted(MonitorState::initial(width, timed), events)).flatten() + reached(
            MonitorState::initial(width, timed),
            events,
        ).pending == words_read(events),
{
    lemma_lines(width, timed, events);
}

/// Every line is about all processes that were asked for, but for the last one, where the stream
/// may have ended early.
pub proof fn lines_are_complete(width: nat, timed: bool, events: Seq<MonitorEvent>)
    requires
        width > 0,
        admits(MonitorState::initial(width, timed), events),
    ensures
        lines_of_width(
            lines_printed(acted(MonitorState::initial(width, timed), events)),
            width,
        ),
{
    lemma_lines(width, timed, events);
}

proof fn lemma_same_blocks(
    lines: Seq<Seq<u32>>,
    pending: Seq<u32>,
    answers: Seq<Seq<u32>>,
    width: nat,
)
    requires
        width > 0,
        lines_of_width(lines, width),
        pending.len() < width,
        pending.len() > 0 ==> forall|i: int|
            0 <= i < lines.len() ==> #[trigger] lines[i].len() == width,
        forall|i: int| 0 <= i < answers.len() ==> #[trigger] answers[i].len() == width,
        lines.flatten() + pending == answers.flatten(),
    ensures
        lines == answers,
        pending.len() == 0,
    decreases lines.len(),
{
    if lines.len() == 0 {
        assert(lines.flatten() =~= Seq::<u32>::empty());
        if answers.len() > 0 {
            assert(answers.flatten() == answers.first() + answers.drop_first().flatten());
            assert(answers.first() == answers[0]);
            assert(false);
        }
        assert(answers.flatten() =~= Seq::<u32>::empty());
        assert(lines =~= answers);
    } else {
        let all = answers.flatten();
        assert(lines.flatten() == lines.first() + lines.drop_first().flatten());
        assert(lines.first() == lines[0]);
        if answers.len() == 0 {
            assert(all =~= Seq::<u32>::empty());
            assert(false);
        }
        assert(all == answers.first() + answers.drop_first().flatten());
        assert(answers.first() == answers[0]);
        let rest = lines.drop_first();
        if lines.len() == 1 {
            assert(rest.flatten() =~= Seq::<u32>::empty());
        }
        assert(lines[0].len() == width);
        assert(lines[0] =~= all.take(width as int));
        assert(answers[0] =~= all.take(width as int));
        assert(rest.flatten() + pending =~= all.skip(width as int));
        assert(answers.drop_first().flatten() =~= all.skip(width as int));
        assert forall|i: int| 0 <= i < rest.len() implies {
            &&& 0 < #[trigger] rest[i].len() <= width
            &&& i < rest.len() - 1 ==> rest[i].len() == width
            &&& pending.len() > 0 ==> rest[i].len() == width
        } by {
            assert(rest[i] == lines[i + 1]);
        }
        assert forall|i: int| 0 <= i < answers.drop_first().len() implies #[trigger] answers.drop_first()[i].len()
            == width by {
            assert(answers.drop_first()[i] == answers[i + 1]);
        }
        lemma_same_blocks(rest, pending, answers.drop_first(), width);
        assert(lines =~= seq![lines[0]] + rest);
        assert(answers =~= seq![answers[0]] + answers.drop_first());
    }
}

/// The client prints one line for each answer of the daemon: where what it has read are `answers`,
/// each about all processes that were asked for, it has printed these.
pub proof fn each_answer_is_a_line(
    width: nat,
    timed: bool,
    events: Seq<MonitorEvent>,
    answers: Seq<Seq<u32>>,
)
    requires
        width > 0,
        admits(MonitorState::initial(width, timed), events),
        forall|i: int| 0 <= i < answers.len() ==> #[trigger] answers[i].len() == width,
        words_read(events) == answers.flatten(),
    ensures
        lines_printed(acted(MonitorState::initial(width, timed), events)) == answers,
{
    let start = MonitorState::initial(width, timed);
    lemma_lines(width, timed, events);
    lemma_same_blocks(
        lines_printed(acted(start, events)),
        reached(start, events).pending,
        answers,
        width,
    );
}

/// Once everything was sent, the client ends without an error, and only when there is nothing more
/// to read or when the timeout has passed.
pub proof fn client_ends_when_done(width: nat, timed: bool, events: Seq<MonitorEvent>)
    requires
        width > 0,
        admits(MonitorState::initial(width, timed), events),
        events.len() > 0,
        acted(MonitorState::initial(width, timed), events).last() == MonitorActionView::Return(
            Ok(()),
        ),
    ensures
        reached(MonitorState::initial(width, timed), events).ended || (timed && events.last()
            == MonitorEvent::Expired(true)),
{
    lemma_drop_last(MonitorState::initial(width, timed), events);
    lemma_lines(width, timed, events.drop_last());
    lemma_checking_is_timed(width, timed, events.drop_last());
}

/// A client that is told that the timeout has passed ends without an error and asks for nothing
/// more.
pub proof fn expired_client_asks_for_nothing(
    width: nat,
    timed: bool,
    events: Seq<MonitorEvent>,
    i: int,
)
    requires
        admits(MonitorState::initial(width, timed), events),
        0 <= i < events.len(),
        events[i] == MonitorEvent::Expired(true),
    ensures
        i == events.len() - 1,
        acted(MonitorState::initial(width, timed), events)[i] == MonitorActionView::Return(Ok(())),
        reached(MonitorState::initial(width, timed), events).phase is Finished,
{
    let start = MonitorState::initial(width, timed);
    lemma_take(start, events, i);
    assert(reached(start, events.take(i)).awaits(events[i]));
    if i + 1 < events.len() {
        assert(reached(start, events.take(i + 1)).awaits(events[i + 1]));
    }
    assert(events.take(i + 1) =~= events);
}

/// While a client with a timeout waits for the daemon, it can be told that the timeout has passed,
/// and then it ends: a daemon that falls silent does not keep it.
pub proof fn silence_does_not_outlast_the_timeout(width: nat, events: Seq<MonitorEvent>)
    requires
        admits(MonitorState::initial(width, true), events),
        ({
            let phase = reached(MonitorState::initial(width, true), events).phase;
            phase is Reading || phase is Checking
        }),
    ensures
        admits(MonitorState::initial(width, true), events.push(MonitorEvent::Expired(true))),
        acted(
            MonitorState::initial(width, true),
            events.push(MonitorEvent::Expired(true)),
        ).last() == MonitorActionView::Return(Ok(())),
{
    let start = MonitorState::initial(width, true);
    let longer = events.push(MonitorEvent::Expired(true));
    lemma_checking_is_timed(width, true, events);
    assert(longer.take(events.len() as int) =~= events);
    assert forall|i: int| 0 <= i < longer.len() implies (#[trigger] reached(
        start,
        longer.take(i),
    )).awaits(longer[i]) by {
        if i < events.len() {
            assert(longer.take(i) =~= events.take(i));
            assert(reached(start, events.take(i)).awaits(events[i]));
        }
    }
}

proof fn lemma_checking_is_timed(width: nat, timed: bool, events: Seq<MonitorEvent>)
    requires
        admits(MonitorState::initial(width, timed), events),
    ensures
        reached(MonitorState::initial(width, timed), events).timed == timed,
        reached(MonitorState::initial(width, timed), events).phase is Checking ==> timed,
    decreases events.len(),
{
    if events.len() > 0 {
        lemma_drop_last(MonitorState::initial(width, timed), events);
        lemma_checking_is_timed(width, timed, events.drop_last());
    }
}

/// The action that is being performed in each phase.
spec fn performing(phase: MonitorPhase, action: MonitorActionView) -> bool {
    match phase {
        MonitorPhase::Sending => action is Send,
        MonitorPhase::Flushing => action is Flush,
        MonitorPhase::Closing => action is Close,
        MonitorPhase::Timing => action is StartClock,
        MonitorPhase::Reading => action is ReadWord,
        MonitorPhase::Printing => action is Print,
        MonitorPhase::Checking => action is CheckClock,
        MonitorPhase::Finished => action is Return,
    }
}

/// The words that have been read and are not in any line that was printed.
pub open spec fn unprinted(events: Seq<MonitorEvent>, actions: Seq<MonitorActionView>) -> Seq<u32> {
    words_read(events).skip(lines_printed(actions).flatten().len() as int)
}

/// Whether it was reported that there is nothing more to read.
pub open spec fn stream_ended(events: Seq<MonitorEvent>) -> bool {
    exists|i: int| 0 <= i < events.len() && #[trigger] events[i] is End
}

proof fn lemma_monitor_phase(
    first: Seq<u8>,
    width: nat,
    timed: bool,
    events: Seq<MonitorEvent>,
    i: int,
)
    requires
        width > 0,
        admits(MonitorState::initial(width, timed), events),
        0 <= i <= events.len(),
    ensures
        ({
            let start = MonitorState::initial(width, timed);
            let now = reached(start, events.take(i));
            &&& performing(now.phase, asked(MonitorActionView::Send(first), start, events, i))
            &&& now.width == width
            &&& now.timed == timed
            &&& now.ended == stream_ended(events.take(i))
            &&& now.pending == unprinted(events.take(i), acted(start, events).take(i))
            &&& now.phase is Timing || now.phase is Checking ==> timed
            &&& i < events.len() ==> now.awaits(events[i])
        }),
    decreases i,
{
    let start = MonitorState::initial(width, timed);
    let now = events.take(i);
    lemma_take(start, events, i);
    lemma_lines(width, timed, now);
    let lines = lines_printed(acted(start, events).take(i));
    assert(words_read(now).skip(lines.flatten().len() as int) =~= reached(start, now).pending);
    if i > 0 {
        let before = events.take(i - 1);
        lemma_monitor_phase(first, width, timed, events, i - 1);
        lemma_take(start, events, i - 1);
        assert(now[i - 1] == events[i - 1]);
        if stream_ended(before) {
            let k = choose|k: int| 0 <= k < before.len() && #[trigger] before[k] is End;
            assert(now[k] == before[k]);
        }
        if stream_ended(now) {
            let k = choose|k: int| 0 <= k < now.len() && #[trigger] now[k] is End;
            assert(k < before.len() ==> before[k] == now[k]);
        }
    }
    if i < events.len() {
        assert(reached(start, events.take(i)).awaits(events[i]));
    }
}

/// The request, whose bytes are `first`, is sent, flushed and closed, in this order; then the clock
/// is started, where there is a timeout, and reading begins. What fails on the way ends the client,
/// with a message that says what went wrong, and why.
pub proof fn request_goes_before_reading(
    first: Seq<u8>,
    width: nat,
    timed: bool,
    events: Seq<MonitorEvent>,
    i: int,
)
    requires
        width > 0,
        admits(MonitorState::initial(width, timed), events),
        0 <= i < events.len(),
    ensures
        ({
            let start = MonitorState::initial(width, timed);
            let answer = acted(start, events)[i];
            match (asked(MonitorActionView::Send(first), start, events, i), events[i]) {
                (MonitorActionView::Send(_), MonitorEvent::Done) => answer is Flush,
                (MonitorActionView::Flush, MonitorEvent::Done) => answer is Close,
                (MonitorActionView::Close, MonitorEvent::Done) => answer == if timed {
                    MonitorActionView::StartClock
                } else {
                    MonitorActionView::ReadWord
                },
                (MonitorActionView::StartClock, _) => answer is ReadWord,
                (MonitorActionView::Send(_), MonitorEvent::Failed(cause)) => answer
                    == MonitorActionView::Return(Err("error writing to server: "@ + cause@)),
                (MonitorActionView::Flush, MonitorEvent::Failed(cause)) => answer
                    == MonitorActionView::Return(Err("error flushing stream: "@ + cause@)),
                (MonitorActionView::Close, MonitorEvent::Failed(cause)) => answer
                    == MonitorActionView::Return(Err("error shutting down stream: "@ + cause@)),
                _ => true,
            }
        }),
{
    lemma_monitor_phase(first, width, timed, events, i);
}

/// A line is printed as soon as there are words for a whole one, or when the stream ends and some
/// are left, and it holds all words that are there. As long as there are too few, and the timeout
/// has not passed, the client reads on; when the stream ends and none is left, it ends.
pub proof fn lines_are_printed_in_time(
    first: Seq<u8>,
    width: nat,
    timed: bool,
    events: Seq<MonitorEvent>,
    i: int,
)
    requires
        width > 0,
        admits(MonitorState::initial(width, timed), events),
        0 <= i < events.len(),
        asked(
            MonitorActionView::Send(first),
            MonitorState::initial(width, timed),
            events,
            i,
        ) is ReadWord,
    ensures
        ({
            let start = MonitorState::initial(width, timed);
            let answer = acted(start, events)[i];
            let there = unprinted(events.take(i + 1), acted(start, events).take(i));
            match events[i] {
                MonitorEvent::Word(_) => answer == if there.len() >= width {
                    MonitorActionView::Print(there)
                } else {
                    MonitorActionView::ReadWord
                },
                MonitorEvent::End => answer == if there.len() > 0 {
                    MonitorActionView::Print(there)
                } else {
                    MonitorActionView::Return(Ok(()))
                },
                MonitorEvent::Expired(expired) => answer == if expired {
                    MonitorActionView::Return(Ok(()))
                } else {
                    MonitorActionView::ReadWord
                },
                _ => false,
            }
        }),
{
    let start = MonitorState::initial(width, timed);
    lemma_monitor_phase(first, width, timed, events, i);
    lemma_take(start, events, i);
    lemma_lines(width, timed, events.take(i));
    let now = events.take(i);
    let after = events.take(i + 1);
    assert(after.drop_last() =~= now);
    let printed = lines_printed(acted(start, events).take(i)).flatten();
    assert(printed + reached(start, now).pending == words_read(now));
    let there = unprinted(after, acted(start, events).take(i));
    assert(there =~= reached(start, now).gathered(events[i]));
}

/// After a line, the client looks at the clock, where there is a timeout, and then reads on, unless
/// the timeout has passed or the stream has ended: then it ends.
pub proof fn client_goes_on_after_a_line(
    first: Seq<u8>,
    width: nat,
    timed: bool,
    events: Seq<MonitorEvent>,
    i: int,
)
    requires
        width > 0,
        admits(MonitorState::initial(width, timed), events),
        0 <= i < events.len(),
    ensures
        ({
            let start = MonitorState::initial(width, timed);
            let doing = asked(MonitorActionView::Send(first), start, events, i);
            let answer = acted(start, events)[i];
            let go_on = if stream_ended(events.take(i)) {
                MonitorActionView::Return(Ok(()))
            } else {
                MonitorActionView::ReadWord
            };
            &&& doing is Print ==> answer == if timed {
                MonitorActionView::CheckClock
            } else {
                go_on
            }
            &&& doing is CheckClock ==> answer == if events[i] == MonitorEvent::Expired(true) {
                MonitorActionView::Return(Ok(()))
            } else {
                go_on
            }
        }),
{
    lemma_monitor_phase(first, width, timed, events, i);
}

/// Whatever comes of the action that is being performed can be reported, and nothing else.
pub proof fn monitor_takes_every_outcome(
    first: Seq<u8>,
    width: nat,
    timed: bool,
    events: Seq<MonitorEvent>,
    event: MonitorEvent,
)
    requires
        width > 0,
        admits(MonitorState::initial(width, timed), events),
    ensures
        reached(MonitorState::initial(width, timed), events).awaits(event) <==> match asked(
            MonitorActionView::Send(first),
            MonitorState::initial(width, timed),
            events,
            events.len() as int,
        ) {
            MonitorActionView::Send(_) | MonitorActionView::Flush | MonitorActionView::Close =>
                event is Done || event is Failed,
            MonitorActionView::StartClock | MonitorActionView::Print(_) => event is Done,
            MonitorActionView::ReadWord => event is Word || event is End || (timed
                && event is Expired),
            MonitorActionView::CheckClock => event is Expired,
            MonitorActionView::Return(_) => false,
        },
{
    lemma_monitor_phase(first, width, timed, events, events.len() as int);
    assert(events.take(events.len() as int) =~= events);
}

/// What an action says is what it holds.
pub proof fn monitor_actions_say_what_they_hold(bytes: Vec<u8>, words: Vec<u32>, message: String)
    ensures
        MonitorAction::Send(bytes)@ == MonitorActionView::Send(bytes@),
        MonitorAction::Print(words)@ == MonitorActionView::Print(words@),
        MonitorAction::Return(Err(message))@ == MonitorActionView::Return(Err(message@)),
        MonitorAction::Return(Ok(()))@ == MonitorActionView::Return(Ok(())),
{
}

} // verus!

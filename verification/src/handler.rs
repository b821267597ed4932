//! The daemon's side of the process monitor: a handler learns which processes its client asks for,
//! and answers with their loads each time they have been measured.

use std::collections::HashMap;

use vstd::prelude::*;

use crate::machine::{acted, admits, asked, lemma_take, reached, Machine};
use crate::wire::{
    bytes_to_words, decode_pids, encode_words, pids_roundtrip, pids_to_words, words_roundtrip,
    words_to_bytes, words_to_pids,
};

verus! {

/// What a client that asked for `pids` is told when `loads` were measured; `missing` stands for a
/// process that there is no load of.
pub open spec fn answer_of<V>(pids: Seq<i32>, loads: Map<i32, V>, missing: V) -> Seq<V> {
    pids.map_values(
        |pid: i32|
            if loads.contains_key(pid) {
                loads[pid]
            } else {
                missing
            },
    )
}

/// What the handler is waiting for.
#[derive(Debug, Clone, Copy, PartialEq, Eq, Structural)]
pub enum HandlerPhase {
    /// The request is being read.
    Asking,
    /// New loads are being waited for.
    Receiving,
    /// An answer is being sent.
    Sending,
    /// The answer is being flushed.
    Flushing,
    /// The stream is being closed.
    Closing,
    /// The handler has ended.
    Finished,
}

/// What is reported to the handler.
pub enum HandlerEvent {
    /// All that the client has sent.
    Request(Vec<u8>),
    /// The answer to new loads.
    Answer(Vec<u32>),
    /// New loads were missed.
    Missed,
    /// The action was performed.
    Done,
    /// The action failed.
    Failed,
}

/// What the handler asks for.
pub enum HandlerAction {
    /// Read all that the client sends.
    ReadRequest,
    /// Wait for new loads, and find the answer to them.
    Receive,
    /// Send these bytes.
    Send(Vec<u8>),
    /// Flush what was sent.
    Flush,
    /// Close the stream.
    Close,
    /// End the handler.
    End,
}

/// What a [`HandlerAction`] says.
pub enum HandlerActionView {
    ReadRequest,
    Receive,
    Send(Seq<u8>),
    Flush,
    Close,
    End,
}

impl View for HandlerAction {
    type V = HandlerActionView;

    open spec fn view(&self) -> HandlerActionView {
        match *self {
            HandlerAction::ReadRequest => HandlerActionView::ReadRequest,
            HandlerAction::Receive => HandlerActionView::Receive,
            HandlerAction::Send(bytes) => HandlerActionView::Send(bytes@),
            HandlerAction::Flush => HandlerActionView::Flush,
            HandlerAction::Close => HandlerActionView::Close,
            HandlerAction::End => HandlerActionView::End,
        }
    }
}

/// What the handler remembers.
pub struct HandlerState {
    pub phase: HandlerPhase,
    /// The processes that the client asks for.
    pub pids: Seq<i32>,
}

impl HandlerState {
    /// The state in which a handler starts.
    pub open spec fn initial() -> HandlerState {
        HandlerState { phase: HandlerPhase::Asking, pids: Seq::empty() }
    }
}

impl Machine for HandlerState {
    type Event = HandlerEvent;

    type Action = HandlerActionView;

    open spec fn awaits(self, event: HandlerEvent) -> bool {
        match self.phase {
            HandlerPhase::Asking => event is Request,
            HandlerPhase::Receiving => event is Answer || event is Missed,
            HandlerPhase::Sending | HandlerPhase::Flushing | HandlerPhase::Closing => event is Done
                || event is Failed,
            HandlerPhase::Finished => false,
        }
    }

    open spec fn next(self, event: HandlerEvent) -> HandlerState {
        let phase = match (self.phase, event) {
            (HandlerPhase::Asking, _) => HandlerPhase::Receiving,
            (HandlerPhase::Receiving, HandlerEvent::Answer(_)) => HandlerPhase::Sending,
            (HandlerPhase::Receiving, _) => HandlerPhase::Receiving,
            (HandlerPhase::Sending, HandlerEvent::Done) => HandlerPhase::Flushing,
            (HandlerPhase::Flushing, HandlerEvent::Done) => HandlerPhase::Receiving,
            (HandlerPhase::Sending | HandlerPhase::Flushing, _) => HandlerPhase::Closing,
            _ => HandlerPhase::Finished,
        };
        HandlerState {
            phase,
            pids: match event {
                HandlerEvent::Request(bytes) => words_to_pids(bytes_to_words(bytes@)),
                _ => self.pids,
            },
        }
    }

    open spec fn act(self, event: HandlerEvent) -> HandlerActionView {
        match self.next(event).phase {
            HandlerPhase::Asking => HandlerActionView::ReadRequest,
            HandlerPhase::Receiving => HandlerActionView::Receive,
            HandlerPhase::Sending => match event {
                HandlerEvent::Answer(words) => HandlerActionView::Send(words_to_bytes(words@)),
                _ => HandlerActionView::Send(Seq::empty()),
            },
            HandlerPhase::Flushing => HandlerActionView::Flush,
            HandlerPhase::Closing => HandlerActionView::Close,
            HandlerPhase::Finished => HandlerActionView::End,
        }
    }
}

/// A handler of one client.
#[derive(Debug)]
pub struct Handler {
    phase: HandlerPhase,
    pids: Vec<i32>,
}

impl View for Handler {
    type V = HandlerState;

    closed spec fn view(&self) -> HandlerState {
        HandlerState { phase: self.phase, pids: self.pids@ }
    }
}

impl Handler {
    /// A handler that is about to start, and the first action that it asks for.
    pub fn start() -> (started: (Handler, HandlerAction))
        ensures
            started.0@ == HandlerState::initial(),
            started.1@ == HandlerActionView::ReadRequest,
    {
        let pids: Vec<i32> = Vec::new();
        assert(pids@ =~= Seq::<i32>::empty());
        (Handler { phase: HandlerPhase::Asking, pids }, HandlerAction::ReadRequest)
    }

    /// What to tell the client when `loads` were measured.
    pub fn answer<V: Copy>(&self, loads: &HashMap<i32, V>, missing: V) -> (answer: Vec<V>)
        ensures
            answer@ == answer_of(self@.pids, loads@, missing),
    {
        let mut answer: Vec<V> = Vec::new();
        let mut i: usize = 0;
        while i < self.pids.len()
            invariant
                i <= self.pids@.len(),
                answer@ == answer_of(self.pids@.take(i as int), loads@, missing),
            decreases self.pids@.len() - i,
        {
            let load: V = match loads.get(&self.pids[i]) {
                Some(load) => *load,
                None => missing,
            };
            answer.push(load);
            i = i + 1;
            assert(answer@ =~= answer_of(self.pids@.take(i as int), loads@, missing));
        }
        assert(self.pids@.take(i as int) =~= self.pids@);
        answer
    }

    /// The words of what to tell the client when `loads` were measured; `to_word` gives the word by
    /// which a load is sent.
    pub fn answer_words<V: Copy, F: Fn(V) -> u32>(
        &self,
        loads: &HashMap<i32, V>,
        missing: V,
        to_word: F,
    ) -> (words: Vec<u32>)
        requires
            forall|load: V| #[trigger] call_requires(to_word, (load,)),
        ensures
            words@.len() == self@.pids.len(),
            forall|i: int|
                0 <= i < words@.len() ==> call_ensures(
                    to_word,
                    (answer_of(self@.pids, loads@, missing)[i],),
                    #[trigger] words@[i],
                ),
    {
        let answer: Vec<V> = self.answer(loads, missing);
        let mut words: Vec<u32> = Vec::new();
        let mut i: usize = 0;
        while i < answer.len()
            invariant
                forall|load: V| #[trigger] call_requires(to_word, (load,)),
                i <= answer@.len(),
                words@.len() == i,
                forall|j: int|
                    0 <= j < i ==> call_ensures(to_word, (answer@[j],), #[trigger] words@[j]),
            decreases answer@.len() - i,
        {
            words.push(to_word(answer[i]));
            i = i + 1;
        }
        words
    }

    /// Reports an event; the action that it asks for next comes back.
    pub fn step(&mut self, event: HandlerEvent) -> (action: HandlerAction)
        requires
            old(self)@.awaits(event),
        ensures
            final(self)@ == old(self)@.next(event),
            action@ == old(self)@.act(event),
    {
        match (self.phase, event) {
            (HandlerPhase::Asking, HandlerEvent::Request(bytes)) => {
                self.pids = decode_pids(bytes.as_slice());
                self.phase = HandlerPhase::Receiving;
                HandlerAction::Receive
            },
            (HandlerPhase::Receiving, HandlerEvent::Answer(words)) => {
                self.phase = HandlerPhase::Sending;
                HandlerAction::Send(encode_words(words.as_slice()))
            },
            (HandlerPhase::Receiving, _) => HandlerAction::Receive,
            (HandlerPhase::Sending, HandlerEvent::Done) => {
                self.phase = HandlerPhase::Flushing;
                HandlerAction::Flush
            },
            (HandlerPhase::Flushing, HandlerEvent::Done) => {
                self.phase = HandlerPhase::Receiving;
                HandlerAction::Receive
            },
            (HandlerPhase::Sending, _) | (HandlerPhase::Flushing, _) => {
                self.phase = HandlerPhase::Closing;
                HandlerAction::Close
            },
            (_, _) => {
                self.phase = HandlerPhase::Finished;
                HandlerAction::End
            },
        }
    }
}

/// Whatever has happened, what is sent next is the answer that was found last, and it is sent
/// once.
pub proof fn each_answer_is_sent(events: Seq<HandlerEvent>, i: int, bytes: Seq<u8>)
    requires
        admits(HandlerState::initial(), events),
        0 <= i < events.len(),
    ensures
        acted(HandlerState::initial(), events)[i] == HandlerActionView::Send(bytes) <==> (events[i]
            matches HandlerEvent::Answer(words) && words_to_bytes(words@) == bytes),
{
    assert(reached(HandlerState::initial(), events.take(i)).awaits(events[i]));
}

/// A handler goes on answering until an answer cannot be sent.
pub proof fn served_until_sending_fails(events: Seq<HandlerEvent>, i: int)
    requires
        admits(HandlerState::initial(), events),
        0 <= i < events.len(),
        acted(HandlerState::initial(), events)[i] is Close,
    ensures
        events[i] is Failed,
        reached(HandlerState::initial(), events.take(i)).phase is Sending || reached(
            HandlerState::initial(),
            events.take(i),
        ).phase is Flushing,
{
    assert(reached(HandlerState::initial(), events.take(i)).awaits(events[i]));
}

/// What a client prints is what was measured of the processes that it asked for: the handler
/// understands the request, and the client reads of its answer one load for each process, in the
/// order in which it asked.
pub proof fn asked_processes_are_answered(pids: Seq<i32>, loads: Map<i32, u32>, missing: u32)
    ensures
        ({
            let request = words_to_bytes(pids_to_words(pids));
            let understood = words_to_pids(bytes_to_words(request));
            let answer = bytes_to_words(words_to_bytes(answer_of(understood, loads, missing)));
            &&& answer.len() == pids.len()
            &&& forall|i: int|
                0 <= i < pids.len() ==> #[trigger] answer[i] == if loads.contains_key(pids[i]) {
                    loads[pids[i]]
                } else {
                    missing
                }
        }),
{
    let request = words_to_bytes(pids_to_words(pids));
    pids_roundtrip(pids, Seq::empty());
    assert(request + Seq::<u8>::empty() =~= request);
    let answer = answer_of(pids, loads, missing);
    words_roundtrip(answer, Seq::empty());
    assert(words_to_bytes(answer) + Seq::<u8>::empty() =~= words_to_bytes(answer));
}

/// The action that is being performed in each phase.
spec fn performing(phase: HandlerPhase, action: HandlerActionView) -> bool {
    match phase {
        HandlerPhase::Asking => action is ReadRequest,
        HandlerPhase::Receiving => action is Receive,
        HandlerPhase::Sending => action is Send,
        HandlerPhase::Flushing => action is Flush,
        HandlerPhase::Closing => action is Close,
        HandlerPhase::Finished => action is End,
    }
}

proof fn lemma_handler_phase(events: Seq<HandlerEvent>, i: int)
    requires
        admits(HandlerState::initial(), events),
        0 <= i <= events.len(),
    ensures
        performing(
            reached(HandlerState::initial(), events.take(i)).phase,
            asked(HandlerActionView::ReadRequest, HandlerState::initial(), events, i),
        ),
        i > 0 <==> !(reached(HandlerState::initial(), events.take(i)).phase is Asking),
        i > 0 ==> events[0] is Request && reached(HandlerState::initial(), events.take(i)).pids
            == words_to_pids(bytes_to_words(events[0]->Request_0@)),
        i < events.len() ==> reached(HandlerState::initial(), events.take(i)).awaits(events[i]),
    decreases i,
{
    let start = HandlerState::initial();
    if i > 0 {
        lemma_handler_phase(events, i - 1);
        lemma_take(start, events, i - 1);
    }
    if i < events.len() {
        assert(reached(start, events.take(i)).awaits(events[i]));
    }
}

/// The request comes first and only once, and however long the handler runs, the processes that it
/// answers for are those that the request names.
pub proof fn request_is_remembered(events: Seq<HandlerEvent>)
    requires
        admits(HandlerState::initial(), events),
        events.len() > 0,
    ensures
        events[0] is Request,
        forall|i: int| 0 < i < events.len() ==> !(#[trigger] events[i] is Request),
        reached(HandlerState::initial(), events).pids == words_to_pids(
            bytes_to_words(events[0]->Request_0@),
        ),
{
    lemma_handler_phase(events, events.len() as int);
    assert(events.take(events.len() as int) =~= events);
    assert forall|i: int| 0 < i < events.len() implies !(#[trigger] events[i] is Request) by {
        lemma_handler_phase(events, i);
    }
}

/// A client that has asked for `pids` is answered for these, in this order, at every update: for
/// each with its load, or with `missing` where it was not measured.
pub proof fn every_update_is_answered<V>(
    pids: Seq<i32>,
    events: Seq<HandlerEvent>,
    loads: Map<i32, V>,
    missing: V,
    k: int,
)
    requires
        admits(HandlerState::initial(), events),
        events.len() > 0,
        events[0]->Request_0@ == words_to_bytes(pids_to_words(pids)),
        0 <= k < pids.len(),
    ensures
        ({
            let answer = answer_of(reached(HandlerState::initial(), events).pids, loads, missing);
            &&& answer.len() == pids.len()
            &&& loads.contains_key(pids[k]) ==> answer[k] == loads[pids[k]]
            &&& !loads.contains_key(pids[k]) ==> answer[k] == missing
        }),
{
    request_is_remembered(events);
    pids_roundtrip(pids, Seq::empty());
    assert(words_to_bytes(pids_to_words(pids)) + Seq::<u8>::empty() =~= words_to_bytes(
        pids_to_words(pids),
    ));
}

/// Every answer is sent and flushed before the next loads are waited for; loads that were missed
/// are passed over. Where sending or flushing fails, the stream is closed, and then the handler
/// ends.
pub proof fn updates_are_served_in_turn(events: Seq<HandlerEvent>, i: int)
    requires
        admits(HandlerState::initial(), events),
        0 <= i < events.len(),
    ensures
        ({
            let doing = asked(HandlerActionView::ReadRequest, HandlerState::initial(), events, i);
            let answer = acted(HandlerState::initial(), events)[i];
            &&& doing is ReadRequest ==> answer is Receive
            &&& doing is Receive && events[i] is Missed ==> answer is Receive
            &&& events[i] matches HandlerEvent::Answer(words) ==> answer == HandlerActionView::Send(
                words_to_bytes(words@),
            )
            &&& doing is Send ==> answer == if events[i] is Done {
                HandlerActionView::Flush
            } else {
                HandlerActionView::Close
            }
            &&& doing is Flush ==> answer == if events[i] is Done {
                HandlerActionView::Receive
            } else {
                HandlerActionView::Close
            }
            &&& doing is Close ==> answer is End
        }),
{
    lemma_handler_phase(events, i);
}

/// Whatever comes of the action that is being performed can be reported, and nothing else.
pub proof fn handler_takes_every_outcome(events: Seq<HandlerEvent>, event: HandlerEvent)
    requires
        admits(HandlerState::initial(), events),
    ensures
        reached(HandlerState::initial(), events).awaits(event) <==> match asked(
            HandlerActionView::ReadRequest,
            HandlerState::initial(),
            events,
            events.len() as int,
        ) {
            HandlerActionView::ReadRequest => event is Request,
            HandlerActionView::Receive => event is Answer || event is Missed,
            HandlerActionView::End => false,
            _ => event is Done || event is Failed,
        },
{
    lemma_handler_phase(events, events.len() as int);
    assert(events.take(events.len() as int) =~= events);
}

/// What an action says is what it holds.
pub proof fn handler_actions_say_what_they_hold(bytes: Vec<u8>)
    ensures
        HandlerAction::Send(bytes)@ == HandlerActionView::Send(bytes@),
{
}

} // verus!

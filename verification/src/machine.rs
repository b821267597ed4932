//! State machines that decide what a process does next: each event that is reported to one yields
//! its next state and the action to perform. What performs the actions reports the next event.

use vstd::prelude::*;

verus! {

/// A state of a machine.
pub trait Machine: Sized {
    /// What is reported to the machine.
    type Event;

    /// What the machine asks for.
    type Action;

    /// Whether `event` can be reported in this state.
    spec fn awaits(self, event: Self::Event) -> bool;

    /// The state after `event`.
    spec fn next(self, event: Self::Event) -> Self;

    /// The action that answers `event`.
    spec fn act(self, event: Self::Event) -> Self::Action;
}

/// The state after all of `events`.
pub open spec fn reached<M: Machine>(start: M, events: Seq<M::Event>) -> M
    decreases events.len(),
{
    if events.len() == 0 {
        start
    } else {
        reached(start, events.drop_last()).next(events.last())
    }
}

/// The actions that answer `events`, one for each.
pub open spec fn acted<M: Machine>(start: M, events: Seq<M::Event>) -> Seq<M::Action> {
    Seq::new(events.len(), |i: int| reached(start, events.take(i)).act(events[i]))
}

/// The action that is being performed when the event at `i` is reported: the answer to the event
/// before it, or `first`, the one that the machine asks for when it is started.
pub open spec fn asked<M: Machine>(
    first: M::Action,
    start: M,
    events: Seq<M::Event>,
    i: int,
) -> M::Action {
    if i == 0 {
        first
    } else {
        acted(start, events)[i - 1]
    }
}

/// Whether each of `events` can be reported when it comes.
pub open spec fn admits<M: Machine>(start: M, events: Seq<M::Event>) -> bool {
    forall|i: int|
        0 <= i < events.len() ==> (#[trigger] reached(start, events.take(i))).awaits(events[i])
}

/// How many of `items` are such as `which` says.
pub open spec fn count<A>(items: Seq<A>, which: spec_fn(A) -> bool) -> nat
    decreases items.len(),
{
    if items.len() == 0 {
        0
    } else {
        count(items.drop_last(), which) + if which(items.last()) {
            1nat
        } else {
            0nat
        }
    }
}

/// What holds of a machine's events without the last one.
pub proof fn lemma_drop_last<M: Machine>(start: M, events: Seq<M::Event>)
    requires
        admits(start, events),
        events.len() > 0,
    ensures
        admits(start, events.drop_last()),
        reached(start, events.drop_last()).awaits(events.last()),
        acted(start, events) == acted(start, events.drop_last()).push(
            reached(start, events.drop_last()).act(events.last()),
        ),
        acted(start, events).drop_last() == acted(start, events.drop_last()),
{
    let before = events.drop_last();
    assert(events.take(events.len() - 1) =~= before);
    assert forall|i: int| 0 <= i < before.len() implies #[trigger] before.take(i) == events.take(
        i,
    ) by {
        assert(before.take(i) =~= events.take(i));
    }
    assert(acted(start, events) =~= acted(start, before).push(
        reached(start, before).act(events.last()),
    ));
    assert(acted(start, events).drop_last() =~= acted(start, before));
}

/// What holds of the first `n` of a machine's events.
pub proof fn lemma_take<M: Machine>(start: M, events: Seq<M::Event>, n: int)
    requires
        admits(start, events),
        0 <= n <= events.len(),
    ensures
        admits(start, events.take(n)),
        acted(start, events.take(n)) == acted(start, events).take(n),
        n < events.len() ==> {
            &&& events.take(n + 1).drop_last() == events.take(n)
            &&& events.take(n + 1).last() == events[n]
            &&& reached(start, events.take(n + 1)) == reached(start, events.take(n)).next(events[n])
        },
{
    assert forall|i: int| 0 <= i < n implies #[trigger] events.take(n).take(i) == events.take(
        i,
    ) by {
        assert(events.take(n).take(i) =~= events.take(i));
    }
    assert(acted(start, events.take(n)) =~= acted(start, events).take(n));
    if n < events.len() {
        assert(events.take(n + 1).drop_last() =~= events.take(n));
    }
}

} // verus!

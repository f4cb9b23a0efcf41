//! Events one after the other.
use crate::database::event::Event;
use vstd::prelude::*;

verus! {

/// Where `events` lead from `state`, one after the other; `next` is where a single one does.
pub open spec fn run<S>(next: spec_fn(S, Event) -> S, state: S, events: Seq<Event>) -> S
    decreases events.len(),
{
    if events.len() == 0 {
        state
    } else {
        next(run(next, state, events.drop_last()), events.last())
    }
}

/// What follows on some events leads on from where these led.
pub proof fn run_concat<S>(
    next: spec_fn(S, Event) -> S,
    state: S,
    a: Seq<Event>,
    b: Seq<Event>,
)
    ensures
        run(next, state, a + b) == run(next, run(next, state, a), b),
    decreases b.len(),
{
    if b.len() == 0 {
        assert(a + b =~= a);
    } else {
        assert((a + b).drop_last() =~= a + b.drop_last());
        run_concat(next, state, a, b.drop_last());
    }
}

/// One event.
pub proof fn run_one<S>(next: spec_fn(S, Event) -> S, state: S, a: Event)
    ensures
        run(next, state, seq![a]) == next(state, a),
{
    assert(seq![a].drop_last() =~= Seq::empty());
    assert(run(next, state, seq![a].drop_last()) == state);
}

/// Two events.
pub proof fn run_pair<S>(next: spec_fn(S, Event) -> S, state: S, a: Event, b: Event)
    ensures
        run(next, state, seq![a, b]) == next(next(state, a), b),
{
    run_one(next, state, a);
    assert(seq![a, b].drop_last() =~= seq![a]);
}

/// A state that no event changes stays.
pub proof fn run_stays<S>(next: spec_fn(S, Event) -> S, state: S, events: Seq<Event>)
    requires
        forall|e: Event| #[trigger] next(state, e) == state,
    ensures
        run(next, state, events) == state,
    decreases events.len(),
{
    if events.len() > 0 {
        run_stays(next, state, events.drop_last());
    }
}

} // verus!

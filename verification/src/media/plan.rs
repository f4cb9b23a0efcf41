//! Calls to the system that are made in order, up to the first that fails.
use vstd::prelude::*;

verus! {

/// Making `call` in `before` leads to `after` and gives `r`.
pub open spec fn makes<S, K, P: Fn(S, &K) -> (S, Result<(), String>)>(
    perform: P,
    before: S,
    call: K,
    after: S,
    r: Result<(), String>,
) -> bool {
    call_ensures(perform, (before, &call), (after, r))
}

/// The first calls succeed one after the other, and lead through `states`.
pub open spec fn calls_lead<S, K, P: Fn(S, &K) -> (S, Result<(), String>)>(
    perform: P,
    calls: Seq<K>,
    states: Seq<S>,
) -> bool {
    &&& 0 < states.len() <= calls.len() + 1
    &&& forall|i: int|
        0 <= i < states.len() - 1 ==> makes(
            perform,
            states[i],
            #[trigger] calls[i],
            states[i + 1],
            Ok(()),
        )
}

/// Making `calls` in order from `before` leads through `states` to `after` and `r`: each call
/// once, all of them where all succeed, otherwise none after the first that fails.
pub open spec fn performed_through<S, K, P: Fn(S, &K) -> (S, Result<(), String>)>(
    perform: P,
    calls: Seq<K>,
    before: S,
    states: Seq<S>,
    after: S,
    r: Result<(), String>,
) -> bool {
    &&& calls_lead(perform, calls, states)
    &&& states[0] == before
    &&& match r {
        Ok(_) => states.len() == calls.len() + 1 && states.last() == after,
        Err(message) => states.len() <= calls.len() && makes(
            perform,
            states.last(),
            calls[states.len() - 1],
            after,
            Err(message),
        ),
    }
}

/// Making `calls` in order from `before` leads to `after` and `r`.
pub open spec fn performed<S, K, P: Fn(S, &K) -> (S, Result<(), String>)>(
    perform: P,
    calls: Seq<K>,
    before: S,
    after: S,
    r: Result<(), String>,
) -> bool {
    exists|states: Seq<S>| #[trigger]
        performed_through(perform, calls, before, states, after, r)
}

/// Makes `calls` in order, each once, up to the first that fails. What the calls change is
/// handed from each to the next.
pub fn perform_all<S, K, P: Fn(S, &K) -> (S, Result<(), String>)>(
    calls: &Vec<K>,
    start: S,
    perform: &P,
) -> (r: (S, Result<(), String>))
    requires
        forall|s: S, call: &K| call_requires(perform, (s, call)),
    ensures
        performed(*perform, calls@, start, r.0, r.1),
{
    let ghost mut states: Seq<S> = seq![start];
    let mut state: S = start;
    let mut i: usize = 0;
    while i < calls.len()
        invariant
            forall|s: S, call: &K| call_requires(perform, (s, call)),
            i <= calls@.len(),
            states.len() == i + 1,
            states[0] == start,
            states.last() == state,
            calls_lead(*perform, calls@, states),
        decreases calls@.len() - i,
    {
        let ghost before = state;
        let (next, result) = perform(state, &calls[i]);
        assert(makes(*perform, before, calls@[i as int], next, result));
        match result {
            Ok(done) => {
                assert(done == ());
                proof {
                    let further = states.push(next);
                    assert forall|k: int| 0 <= k < further.len() - 1 implies makes(
                        *perform,
                        further[k],
                        #[trigger] calls@[k],
                        further[k + 1],
                        Ok(()),
                    ) by {
                        if k < i {
                            assert(makes(*perform, states[k], calls@[k], states[k + 1], Ok(())));
                        }
                    }
                    states = further;
                }
                state = next;
            },
            Err(message) => {
                assert(performed_through(
                    *perform,
                    calls@,
                    start,
                    states,
                    next,
                    Err(message),
                ));
                return (next, Err(message));
            },
        }
        i += 1;
    }
    assert(performed_through(*perform, calls@, start, states, state, Ok(())));
    (state, Ok(()))
}

/// Calls that all succeed are all made, each once and in order: what keeps a record of the calls
/// made has the record of exactly these at the end.
pub proof fn all_calls_are_made<K, P: Fn(Seq<K>, &K) -> (Seq<K>, Result<(), String>)>(
    perform: P,
    calls: Seq<K>,
    before: Seq<K>,
    after: Seq<K>,
    r: Result<(), String>,
)
    requires
        performed(perform, calls, before, after, r),
        forall|record: Seq<K>, call: K, later: Seq<K>, x: Result<(), String>| #[trigger]
            makes(perform, record, call, later, x) ==> later == record.push(call) && x is Ok,
    ensures
        r is Ok,
        after == before + calls,
{
    let states = choose|states: Seq<Seq<K>>| #[trigger]
        performed_through(perform, calls, before, states, after, r);
    grows_by_one(perform, calls, before, states, states.len() - 1);
    assert(calls.take(calls.len() as int) =~= calls);
}

/// The first call that fails ends the plan with its message, and none after it is made: what keeps
/// a record has that of the calls up to the one that failed, which is the last.
pub proof fn first_failure_ends_the_plan<K, P: Fn(Seq<K>, &K) -> (Seq<K>, Result<(), String>)>(
    perform: P,
    calls: Seq<K>,
    before: Seq<K>,
    after: Seq<K>,
    message: String,
    fails: int,
)
    requires
        0 <= fails < calls.len(),
        forall|record: Seq<K>, call: K, later: Seq<K>, x: Result<(), String>| #[trigger]
            makes(perform, record, call, later, x) ==> later == record.push(call) && x == (
            if record.len() == before.len() + fails {
                Err::<(), String>(message)
            } else {
                Ok::<(), String>(())
            }),
        performed(perform, calls, before, after, Err(message)) || performed(
            perform,
            calls,
            before,
            after,
            Ok(()),
        ),
    ensures
        performed(perform, calls, before, after, Err(message)),
        !performed(perform, calls, before, after, Ok(())),
        after == before + calls.take(fails + 1),
{
    if performed(perform, calls, before, after, Ok(())) {
        let states = choose|states: Seq<Seq<K>>| #[trigger]
            performed_through(perform, calls, before, states, after, Ok(()));
        grows_by_one(perform, calls, before, states, fails);
        assert(makes(perform, states[fails], calls[fails], states[fails + 1], Ok(())));
    } else {
        let states = choose|states: Seq<Seq<K>>| #[trigger]
            performed_through(perform, calls, before, states, after, Err(message));
        let n = states.len() - 1;
        grows_by_one(perform, calls, before, states, n);
        assert(makes(perform, states[n], calls[n], after, Err(message)));
        assert(n == fails);
        assert((before + calls.take(n)).push(calls[n]) =~= before + calls.take(n + 1));
    }
}

proof fn grows_by_one<K, P: Fn(Seq<K>, &K) -> (Seq<K>, Result<(), String>)>(
    perform: P,
    calls: Seq<K>,
    before: Seq<K>,
    states: Seq<Seq<K>>,
    n: int,
)
    requires
        calls_lead(perform, calls, states),
        states[0] == before,
        0 <= n < states.len(),
        forall|record: Seq<K>, call: K, later: Seq<K>, x: Result<(), String>| #[trigger]
            makes(perform, record, call, later, x) ==> later == record.push(call),
    ensures
        states[n] == before + calls.take(n),
        states[n].len() == before.len() + n,
    decreases n,
{
    if n > 0 {
        grows_by_one(perform, calls, before, states, n - 1);
        assert(makes(perform, states[n - 1], calls[n - 1], states[(n - 1) + 1], Ok(())));
        assert((before + calls.take(n - 1)).push(calls[n - 1]) =~= before + calls.take(n));
    } else {
        assert(before + calls.take(0) =~= before);
    }
}

} // verus!

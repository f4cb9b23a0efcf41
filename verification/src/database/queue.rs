//! Requests that wait for one another.
use crate::database::connection::Database;
use crate::database::event::Event;
use crate::database::statement;
use crate::database::statement::StatementState;
use vstd::prelude::*;

verus! {

/// What the workers of a database told its requests, in order: which request, by its place in
/// the order of the calls, and what it was told.
pub type Log = Seq<(nat, Event)>;

/// What request `i` was told.
pub open spec fn told(log: Log, i: nat) -> Seq<Event>
    decreases log.len(),
{
    if log.len() == 0 {
        Seq::empty()
    } else if log.last().0 == i {
        told(log.drop_last(), i).push(log.last().1)
    } else {
        told(log.drop_last(), i)
    }
}

/// Whether a request has replied, by its place and what it was told.
pub type Replied = spec_fn(nat, Seq<Event>) -> bool;

/// Request `i` was told something before `n`.
pub open spec fn begun(log: Log, n: int, i: nat) -> bool {
    exists|k: int| 0 <= k < n && (#[trigger] log[k]).0 == i
}

/// The requests that hold a worker when the entry at `n` is told: the one that it is told to,
/// and those that have begun and not replied.
pub open spec fn holds_worker(log: Log, replied: Replied, n: int, i: nat) -> bool {
    i == log[n].0 || (begun(log, n, i) && !replied(i, told(log.take(n), i)))
}

/// A pool of `workers` that takes requests in the order of the calls: each request holds a worker
/// from its first event to its reply, no more than `workers` do at a time, a request begins only
/// after those called before it, and one that has replied is told nothing more.
pub open spec fn pool_serves(log: Log, replied: Replied, workers: nat) -> bool {
    forall|n: int| #![trigger log[n]]
        0 <= n < log.len() ==> {
            &&& forall|held: Set<nat>|
                held.finite() && (forall|i: nat| #[trigger]
                    held.contains(i) ==> holds_worker(log, replied, n, i)) ==> #[trigger] held.len()
                    <= workers
            &&& forall|i: nat| i < log[n].0 ==> #[trigger] begun(log, n, i)
            &&& !replied(log[n].0, told(log.take(n), log[n].0))
        }
}

/// Requests run one after the other in the order of the calls: when a request is told something,
/// every request called before it has replied, and is told nothing from then on. Its lock, the
/// first thing that it asks for, therefore comes after their replies.
pub proof fn requests_take_turns(
    database: Database,
    log: Log,
    replied: Replied,
    n: int,
    i: nat,
)
    requires
        database.concurrency() == 1,
        pool_serves(log, replied, database.concurrency()),
        0 <= n < log.len(),
        i < log[n].0,
    ensures
        replied(i, told(log.take(n), i)),
        forall|k: int| n <= k < log.len() ==> (#[trigger] log[k]).0 != i,
{
    let j = log[n].0;
    assert(begun(log, n, i));
    if !replied(i, told(log.take(n), i)) {
        let held = set![i, j];
        assert(forall|x: nat| #[trigger] held.contains(x) ==> holds_worker(log, replied, n, x));
        assert(held.len() == 2);
    }
    assert forall|k: int| n <= k < log.len() implies (#[trigger] log[k]).0 != i by {
        if log[k].0 == i {
            told_nothing_more(database, log, replied, n, i, k);
        }
    }
}

/// A request that has replied, and was told nothing since, is told nothing at `k` either.
proof fn told_nothing_more(
    database: Database,
    log: Log,
    replied: Replied,
    n: int,
    i: nat,
    k: int,
)
    requires
        database.concurrency() == 1,
        pool_serves(log, replied, database.concurrency()),
        0 <= n <= k < log.len(),
        replied(i, told(log.take(n), i)),
    ensures
        log[k].0 != i,
        told(log.take(k), i) == told(log.take(n), i),
    decreases k - n,
{
    if k > n {
        told_nothing_more(database, log, replied, n, i, k - 1);
        assert(log.take(k).drop_last() =~= log.take(k - 1));
        assert(log.take(k).last() == log[k - 1]);
    }
    assert(!replied(log[k].0, told(log.take(k), log[k].0)));
}

/// Statements, by their texts: one has replied when its run is done.
pub open spec fn statements_replied(sqls: Seq<Seq<char>>) -> Replied {
    |i: nat, events: Seq<Event>|
        statement::run(sqls[i as int], StatementState::Lock, events) is Done
}

/// The number of rows changed on a connection never falls.
pub open spec fn counts_never_fall(log: Log) -> bool {
    forall|k: int, n: int|
        0 <= k <= n < log.len() ==> (((#[trigger] log[k]).1, (#[trigger] log[n]).1) matches (
            Event::Changes(a),
            Event::Changes(b),
        ) ==> a <= b)
}

/// Two statements called one after the other on one database: whatever number of changed rows
/// the second is told is at least what the first was told, so that no change of the second is
/// among those that the first replies.
pub proof fn statements_count_their_own_changes(
    database: Database,
    sqls: Seq<Seq<char>>,
    log: Log,
    k: int,
    n: int,
    first: u64,
    second: u64,
)
    requires
        database.concurrency() == 1,
        pool_serves(log, statements_replied(sqls), database.concurrency()),
        counts_never_fall(log),
        0 <= k < log.len(),
        0 <= n < log.len(),
        log[k].0 < log[n].0,
        log[k].1 == Event::Changes(first),
        log[n].1 == Event::Changes(second),
    ensures
        k < n,
        first <= second,
        statement::run(
            sqls[log[k].0 as int],
            StatementState::Lock,
            told(log.take(n), log[k].0),
        ) is Done,
{
    requests_take_turns(database, log, statements_replied(sqls), n, log[k].0);
    if k >= n {
        assert(log[k].0 != log[k].0);
    }
}

} // verus!

//! What a request that is one transaction does to the contents of the database.
use crate::database::batch::BatchOutcome;
use crate::database::batch::Summary;
use crate::database::event::Action;
use crate::database::event::Event;
use crate::database::request;
use crate::database::request::RequestState;
use vstd::prelude::*;

verus! {

/// What is stored, and what an open transaction has made of it.
pub struct Contents<C> {
    pub stored: C,
    pub open: Option<C>,
}

/// What a transactional connection makes of its contents when it answers `action` with `event`.
/// What happens inside a transaction is stored by its commit alone; a transaction that does not
/// commit is dropped. Statements leave a transaction open, which leaves out those that begin or
/// end one themselves.
pub open spec fn serves<C>(
    before: Contents<C>,
    action: Action,
    event: Event,
    after: Contents<C>,
) -> bool {
    match action {
        Action::Begin => match event {
            Event::Begun => before.open is None && after == (Contents {
                stored: before.stored,
                open: Some(before.stored),
            }),
            Event::Failed(_) => after == before,
            _ => false,
        },
        Action::Commit => match event {
            Event::Committed => before.open is Some && after == (Contents {
                stored: before.open->0,
                open: None,
            }),
            Event::Failed(_) => after == (Contents { stored: before.stored, open: None }),
            _ => false,
        },
        Action::Rollback => {
            &&& event is RolledBack || event is Failed
            &&& after == (Contents { stored: before.stored, open: None })
        },
        Action::Lock => after == before,
        Action::Reply => after == before,
        _ => before.open is Some ==> after.stored == before.stored && after.open is Some,
    }
}

/// The contents after each event of a transaction.
pub open spec fn served<C>(sql: Seq<char>, events: Seq<Event>, contents: Seq<Contents<C>>) -> bool {
    &&& contents.len() == events.len() + 1
    &&& forall|i: int|
        0 <= i < events.len() ==> serves(
            contents[i],
            request::wanted(request::run(true, sql, RequestState::Lock, events.take(i))),
            #[trigger] events[i],
            contents[i + 1],
        )
}

/// What the contents are where a transaction on `start` is at `state`.
spec fn fits<C>(start: C, state: RequestState, contents: Contents<C>) -> bool {
    match state {
        RequestState::Lock => contents == (Contents { stored: start, open: None }),
        RequestState::Begin => contents == (Contents { stored: start, open: None }),
        RequestState::Batch(b) => !(b is Done) && contents.stored == start && contents.open is Some,
        RequestState::Commit(_) => contents.stored == start && contents.open is Some,
        RequestState::Rollback(_) => contents.stored == start && contents.open is Some,
        RequestState::Done(BatchOutcome::Resolved(_)) => contents.open is None,
        RequestState::Done(BatchOutcome::Rejected(_)) => contents == (Contents {
            stored: start,
            open: None,
        }),
    }
}

proof fn contents_fit<C>(
    sql: Seq<char>,
    events: Seq<Event>,
    contents: Seq<Contents<C>>,
    n: int,
)
    requires
        served(sql, events, contents),
        contents[0].open is None,
        0 <= n <= events.len(),
    ensures
        fits(
            contents[0].stored,
            request::run(true, sql, RequestState::Lock, events.take(n)),
            contents[n],
        ),
    decreases n,
{
    if n > 0 {
        contents_fit(sql, events, contents, n - 1);
        assert(events.take(n).drop_last() =~= events.take(n - 1));
        assert(serves(
            contents[n - 1],
            request::wanted(request::run(true, sql, RequestState::Lock, events.take(n - 1))),
            events[n - 1],
            contents[n],
        ));
    }
}

/// A reply leaves the contents as they are.
proof fn contents_stay<C>(
    sql: Seq<char>,
    events: Seq<Event>,
    contents: Seq<Contents<C>>,
    done: int,
    n: int,
)
    requires
        served(sql, events, contents),
        0 <= done <= n <= events.len(),
        request::run(true, sql, RequestState::Lock, events.take(done)) is Done,
    ensures
        request::run(true, sql, RequestState::Lock, events.take(n)) is Done,
        contents[n] == contents[done],
    decreases n,
{
    if n > done {
        contents_stay(sql, events, contents, done, n - 1);
        assert(events.take(n).drop_last() =~= events.take(n - 1));
        assert(serves(
            contents[n - 1],
            request::wanted(request::run(true, sql, RequestState::Lock, events.take(n - 1))),
            events[n - 1],
            contents[n],
        ));
    }
}

/// A transaction that is rejected leaves what was stored before it, and none open.
pub proof fn rejected_transaction_changes_nothing<C>(
    sql: Seq<char>,
    events: Seq<Event>,
    contents: Seq<Contents<C>>,
    message: Seq<char>,
)
    requires
        served(sql, events, contents),
        contents[0].open is None,
        request::run(true, sql, RequestState::Lock, events) == RequestState::Done(
            BatchOutcome::Rejected(message),
        ),
    ensures
        contents.last() == contents[0],
{
    contents_fit(sql, events, contents, events.len() as int);
    assert(events.take(events.len() as int) =~= events);
}

/// The commit of a transaction came at `at`, and what it had made of the contents by then is
/// what is stored at last.
pub open spec fn stored_at<C>(
    sql: Seq<char>,
    events: Seq<Event>,
    contents: Seq<Contents<C>>,
    summary: Summary,
    at: int,
) -> bool {
    &&& request::committed_at(sql, events, summary, at)
    &&& contents[at].open is Some
    &&& contents.last() == (Contents { stored: contents[at].open->0, open: None })
}

/// A transaction that resolves has stored the effects of all its statements, and left none open.
pub proof fn resolved_transaction_is_stored<C>(
    sql: Seq<char>,
    events: Seq<Event>,
    contents: Seq<Contents<C>>,
    summary: Summary,
)
    requires
        served(sql, events, contents),
        contents[0].open is None,
        request::run(true, sql, RequestState::Lock, events) == RequestState::Done(
            BatchOutcome::Resolved(summary),
        ),
    ensures
        exists|at: int| #[trigger] stored_at(sql, events, contents, summary, at),
{
    request::transaction_resolves_by_commit(sql, events, summary);
    let at = choose|at: int| #[trigger] request::committed_at(sql, events, summary, at);
    contents_fit(sql, events, contents, at);
    assert(serves(
        contents[at],
        request::wanted(request::run(true, sql, RequestState::Lock, events.take(at))),
        events[at],
        contents[at + 1],
    ));
    assert(events.take(at + 1).drop_last() =~= events.take(at));
    contents_stay(sql, events, contents, at + 1, events.len() as int);
    assert(stored_at(sql, events, contents, summary, at));
}

} // verus!

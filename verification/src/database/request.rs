//! The statements of one text as a request: on their own, or as one transaction.
use crate::database::batch;
use crate::database::batch::BatchOutcome;
use crate::database::batch::BatchReply;
use crate::database::batch::BatchRun;
use crate::database::batch::BatchState;
use crate::database::batch::BatchSummary;
use crate::database::batch::Summary;
use crate::database::event::Action;
use crate::database::event::Event;
use crate::database::fold;
use vstd::prelude::*;

verus! {

/// How far a request is.
pub enum RequestState {
    Lock,
    Begin,
    Batch(BatchState),
    /// Every statement ran; the transaction is open.
    Commit(Summary),
    /// A statement failed; the transaction is open.
    Rollback(Seq<char>),
    Done(BatchOutcome),
}

/// A request whose statements are at `state`.
pub open spec fn settled(transaction: bool, state: BatchState) -> RequestState {
    match state {
        BatchState::Done(BatchOutcome::Resolved(summary)) if transaction => RequestState::Commit(
            summary,
        ),
        BatchState::Done(BatchOutcome::Rejected(message)) if transaction => RequestState::Rollback(
            message,
        ),
        BatchState::Done(outcome) => RequestState::Done(outcome),
        _ => RequestState::Batch(state),
    }
}

/// Where `event` takes a request. An event that does not answer what the request waits for
/// leaves it as it is.
pub open spec fn next(
    transaction: bool,
    sql: Seq<char>,
    state: RequestState,
    event: Event,
) -> RequestState {
    match (state, event) {
        (RequestState::Lock, Event::Locked) => if transaction {
            RequestState::Begin
        } else {
            RequestState::Batch(BatchState::MeasureBefore)
        },
        (RequestState::Lock, Event::Failed(m)) => RequestState::Done(BatchOutcome::Rejected(m@)),
        (RequestState::Begin, Event::Begun) => RequestState::Batch(BatchState::MeasureBefore),
        (RequestState::Begin, Event::Failed(m)) => RequestState::Done(BatchOutcome::Rejected(m@)),
        (RequestState::Batch(b), e) => settled(transaction, batch::next(sql, b, e)),
        (RequestState::Commit(summary), Event::Committed) => RequestState::Done(
            BatchOutcome::Resolved(summary),
        ),
        (RequestState::Commit(summary), Event::Failed(m)) => RequestState::Done(
            BatchOutcome::Rejected(m@),
        ),
        (RequestState::Rollback(message), Event::RolledBack) => RequestState::Done(
            BatchOutcome::Rejected(message),
        ),
        (RequestState::Rollback(message), Event::Failed(m)) => RequestState::Done(
            BatchOutcome::Rejected(message),
        ),
        _ => state,
    }
}

/// What a request waits for.
pub open spec fn wanted(state: RequestState) -> Action {
    match state {
        RequestState::Lock => Action::Lock,
        RequestState::Begin => Action::Begin,
        RequestState::Batch(b) => batch::wanted(b),
        RequestState::Commit(summary) => Action::Commit,
        RequestState::Rollback(message) => Action::Rollback,
        RequestState::Done(outcome) => Action::Reply,
    }
}

#[derive(Debug)]
enum Phase {
    Lock,
    Begin,
    Batch(BatchRun),
    Commit(BatchSummary),
    Rollback(String),
    Done(BatchReply),
}

impl View for Phase {
    type V = RequestState;

    closed spec fn view(&self) -> RequestState {
        match self {
            Phase::Lock => RequestState::Lock,
            Phase::Begin => RequestState::Begin,
            Phase::Batch(run) => RequestState::Batch(run@),
            Phase::Commit(summary) => RequestState::Commit(summary@),
            Phase::Rollback(message) => RequestState::Rollback(message@),
            Phase::Done(reply) => RequestState::Done(reply@),
        }
    }
}

/// A request on its way.
#[derive(Debug)]
pub struct RequestRun {
    sql: String,
    transaction: bool,
    phase: Phase,
}

impl View for RequestRun {
    type V = RequestState;

    closed spec fn view(&self) -> RequestState {
        self.phase@
    }
}

impl RequestRun {
    #[verifier::type_invariant]
    closed spec fn inv(&self) -> bool {
        self.phase matches Phase::Batch(run) ==> run.text() == self.sql@
    }

    /// The text of the statements.
    pub closed spec fn text(&self) -> Seq<char> {
        self.sql@
    }

    /// The statements are one transaction.
    pub closed spec fn is_transaction(&self) -> bool {
        self.transaction
    }

    /// A request that has not begun.
    pub fn new(sql: String, transaction: bool) -> (r: Self)
        ensures
            r@ == RequestState::Lock,
            r.text() == sql@,
            r.is_transaction() == transaction,
    {
        RequestRun { sql, transaction, phase: Phase::Lock }
    }

    /// The text of the statements.
    pub fn sql(&self) -> (r: &String)
        ensures
            r@ == self.text(),
    {
        &self.sql
    }

    /// What to do next.
    pub fn action(&self) -> (r: Action)
        ensures
            r == wanted(self@),
    {
        match &self.phase {
            Phase::Lock => Action::Lock,
            Phase::Begin => Action::Begin,
            Phase::Batch(run) => run.action(),
            Phase::Commit(summary) => Action::Commit,
            Phase::Rollback(message) => Action::Rollback,
            Phase::Done(reply) => Action::Reply,
        }
    }

    /// The run after `event`.
    pub fn step(self, event: Event) -> (r: Self)
        ensures
            r@ == next(self.is_transaction(), self.text(), self@, event),
            r.text() == self.text(),
            r.is_transaction() == self.is_transaction(),
    {
        proof {
            use_type_invariant(&self);
        }
        let RequestRun { sql, transaction, phase } = self;
        let phase: Phase = match (phase, event) {
            (Phase::Lock, Event::Locked) => if transaction {
                Phase::Begin
            } else {
                Phase::Batch(BatchRun::new(sql.clone()))
            },
            (Phase::Lock, Event::Failed(m)) => Phase::Done(BatchReply::Rejected(m)),
            (Phase::Begin, Event::Begun) => Phase::Batch(BatchRun::new(sql.clone())),
            (Phase::Begin, Event::Failed(m)) => Phase::Done(BatchReply::Rejected(m)),
            (Phase::Batch(run), e) => Self::settle(transaction, run.step(e)),
            (Phase::Commit(summary), Event::Committed) => Phase::Done(
                BatchReply::Resolved(summary),
            ),
            (Phase::Commit(summary), Event::Failed(m)) => Phase::Done(BatchReply::Rejected(m)),
            (Phase::Rollback(message), Event::RolledBack) => Phase::Done(
                BatchReply::Rejected(message),
            ),
            (Phase::Rollback(message), Event::Failed(m)) => Phase::Done(
                BatchReply::Rejected(message),
            ),
            (phase, _) => phase,
        };
        RequestRun { sql, transaction, phase }
    }

    fn settle(transaction: bool, run: BatchRun) -> (r: Phase)
        ensures
            r@ == settled(transaction, run@),
            r matches Phase::Batch(b) ==> b.text() == run.text(),
    {
        match run.into_reply() {
            Ok(BatchReply::Resolved(summary)) => if transaction {
                Phase::Commit(summary)
            } else {
                Phase::Done(BatchReply::Resolved(summary))
            },
            Ok(BatchReply::Rejected(message)) => if transaction {
                Phase::Rollback(message)
            } else {
                Phase::Done(BatchReply::Rejected(message))
            },
            Err(run) => Phase::Batch(run),
        }
    }

    /// The reply, or the run where there is none yet.
    pub fn into_reply(self) -> (r: Result<BatchReply, Self>)
        ensures
            match r {
                Ok(reply) => self@ == RequestState::Done(reply@),
                Err(run) => run == self && !(self@ is Done),
            },
    {
        proof {
            use_type_invariant(&self);
        }
        let RequestRun { sql, transaction, phase } = self;
        match phase {
            Phase::Done(reply) => Ok(reply),
            phase => Err(RequestRun { sql, transaction, phase }),
        }
    }
}

/// [`next`] for a given request.
pub open spec fn stepper(transaction: bool, sql: Seq<char>) -> spec_fn(
    RequestState,
    Event,
) -> RequestState {
    |state: RequestState, event: Event| next(transaction, sql, state, event)
}

/// Where `events` take a request, one after the other.
pub open spec fn run(
    transaction: bool,
    sql: Seq<char>,
    state: RequestState,
    events: Seq<Event>,
) -> RequestState {
    fold::run(stepper(transaction, sql), state, events)
}

/// A reply is final: no event changes it.
pub proof fn reply_is_final(
    transaction: bool,
    sql: Seq<char>,
    outcome: BatchOutcome,
    later: Seq<Event>,
)
    ensures
        run(transaction, sql, RequestState::Done(outcome), later) == RequestState::Done(outcome),
{
    fold::run_stays(stepper(transaction, sql), RequestState::Done(outcome), later);
}

/// At `at`, every statement had run with `summary`, and the transaction was then committed.
pub open spec fn committed_at(
    sql: Seq<char>,
    events: Seq<Event>,
    summary: Summary,
    at: int,
) -> bool {
    &&& 0 <= at < events.len()
    &&& run(true, sql, RequestState::Lock, events.take(at)) == RequestState::Commit(summary)
    &&& events[at] is Committed
}

/// A transaction replies its rows only after a commit that followed every statement, and
/// replies what they gave.
pub proof fn transaction_resolves_by_commit(sql: Seq<char>, events: Seq<Event>, summary: Summary)
    requires
        run(true, sql, RequestState::Lock, events) == RequestState::Done(
            BatchOutcome::Resolved(summary),
        ),
    ensures
        exists|at: int| #[trigger] committed_at(sql, events, summary, at),
    decreases events.len(),
{
    let start = RequestState::Lock;
    let earlier = events.drop_last();
    let before = run(true, sql, start, earlier);
    if before == RequestState::Done(BatchOutcome::Resolved(summary)) {
        transaction_resolves_by_commit(sql, earlier, summary);
        let at = choose|at: int| #[trigger] committed_at(sql, earlier, summary, at);
        assert(earlier.take(at) =~= events.take(at));
        assert(committed_at(sql, events, summary, at));
    } else {
        assert(events.take(events.len() - 1) =~= earlier);
        assert(committed_at(sql, events, summary, events.len() - 1));
    }
}

/// A transaction of which a statement fails is rolled back, and then replies why the statement
/// failed, whether or not the rollback succeeds.
pub proof fn failed_transaction_rolls_back(
    sql: Seq<char>,
    state: BatchState,
    event: Event,
    message: Seq<char>,
    rollback: Event,
)
    requires
        batch::next(sql, state, event) == BatchState::Done(BatchOutcome::Rejected(message)),
        rollback is RolledBack || rollback is Failed,
    ensures
        next(true, sql, RequestState::Batch(state), event) == RequestState::Rollback(message),
        wanted(RequestState::Rollback(message)) == Action::Rollback,
        next(true, sql, RequestState::Rollback(message), rollback) == RequestState::Done(
            BatchOutcome::Rejected(message),
        ),
{
}

/// At no point of a request are its statements done and still those of a batch.
spec fn in_order(state: RequestState) -> bool {
    state matches RequestState::Batch(b) ==> !(b is Done)
}

proof fn stays_in_order(transaction: bool, sql: Seq<char>, events: Seq<Event>)
    ensures
        in_order(run(transaction, sql, RequestState::Lock, events)),
    decreases events.len(),
{
    if events.len() > 0 {
        stays_in_order(transaction, sql, events.drop_last());
    }
}

/// Without a transaction nothing is begun, committed or rolled back.
pub proof fn plain_request_has_no_transaction(sql: Seq<char>, events: Seq<Event>)
    ensures
        ({
            let action = wanted(run(false, sql, RequestState::Lock, events));
            action != Action::Begin && action != Action::Commit && action != Action::Rollback
        }),
    decreases events.len(),
{
    if events.len() > 0 {
        plain_request_has_no_transaction(sql, events.drop_last());
    }
}

/// A transaction is open while its statements run, and ends before the reply: only a commit or
/// a rollback, whatever comes of it, leads from its statements to the reply.
pub proof fn transaction_ends_before_reply(sql: Seq<char>, events: Seq<Event>, event: Event)
    requires
        run(true, sql, RequestState::Lock, events) is Batch,
    ensures
        !(next(true, sql, run(true, sql, RequestState::Lock, events), event) is Done),
{
    stays_in_order(true, sql, events);
}

/// Statements that are not done were not done before.
proof fn batch_was_open(sql: Seq<char>, state: BatchState, event: Event)
    requires
        !(batch::next(sql, state, event) is Done),
    ensures
        !(state is Done),
{
}

proof fn run_batch(transaction: bool, sql: Seq<char>, state: BatchState, events: Seq<Event>)
    requires
        events.len() > 0,
        !(batch::run(sql, state, events.drop_last()) is Done),
    ensures
        run(transaction, sql, RequestState::Batch(state), events) == settled(
            transaction,
            batch::run(sql, state, events),
        ),
    decreases events.len(),
{
    let earlier = events.drop_last();
    if earlier.len() == 0 {
        assert(run(transaction, sql, RequestState::Batch(state), earlier) == RequestState::Batch(
            state,
        ));
    } else {
        batch_was_open(sql, batch::run(sql, state, earlier.drop_last()), earlier.last());
        run_batch(transaction, sql, state, earlier);
    }
}

/// A request passes on what its statements reply: without a transaction as it is, in one after
/// the commit, or after the rollback.
pub proof fn request_passes_on(
    sql: Seq<char>,
    events: Seq<Event>,
    outcome: BatchOutcome,
    rollback: Event,
)
    requires
        events.len() > 0,
        !(batch::run(sql, BatchState::MeasureBefore, events.drop_last()) is Done),
        batch::run(sql, BatchState::MeasureBefore, events) == BatchState::Done(outcome),
        rollback is RolledBack || rollback is Failed,
    ensures
        run(false, sql, RequestState::Lock, seq![Event::Locked] + events) == RequestState::Done(
            outcome,
        ),
        run(
            true,
            sql,
            RequestState::Lock,
            seq![Event::Locked, Event::Begun] + events + seq![
                if outcome is Resolved {
                    Event::Committed
                } else {
                    rollback
                },
            ],
        ) == RequestState::Done(outcome),
{
    let start = RequestState::Lock;
    let one = seq![Event::Locked];
    let two = seq![Event::Locked, Event::Begun];
    let last = if outcome is Resolved {
        Event::Committed
    } else {
        rollback
    };
    assert(one.drop_last() =~= Seq::empty());
    assert(two.drop_last() =~= one);
    assert(run(false, sql, start, one.drop_last()) == start);
    assert(run(true, sql, start, one.drop_last()) == start);
    assert(run(true, sql, start, one) == RequestState::Begin);
    fold::run_concat(stepper(false, sql), start, one, events);
    fold::run_concat(stepper(true, sql), start, two, events);
    run_batch(false, sql, BatchState::MeasureBefore, events);
    run_batch(true, sql, BatchState::MeasureBefore, events);
    assert((two + events + seq![last]).drop_last() =~= two + events);
}

/// Until the connection is locked nothing is done on it: the run waits for the lock, or has
/// failed to get it.
pub proof fn nothing_before_the_lock(transaction: bool, sql: Seq<char>, events: Seq<Event>)
    requires
        forall|i: int| 0 <= i < events.len() ==> !(#[trigger] events[i] is Locked),
    ensures
        ({
            let state = run(transaction, sql, RequestState::Lock, events);
            state is Lock || (state matches RequestState::Done(o) && o is Rejected)
        }),
    decreases events.len(),
{
    if events.len() > 0 {
        let earlier = events.drop_last();
        assert forall|i: int| 0 <= i < earlier.len() implies !(#[trigger] earlier[i] is Locked) by {
            assert(!(events[i] is Locked));
        }
        nothing_before_the_lock(transaction, sql, earlier);
        assert(!(events[events.len() - 1] is Locked));
    }
}

/// A failure to lock the connection, to begin the transaction or to commit it is what the request
/// replies, in its own words. A failure to roll back is not: the request replies why it was
/// rolled back.
pub proof fn failure_is_reported(
    transaction: bool,
    sql: Seq<char>,
    state: RequestState,
    message: String,
)
    ensures
        ({
            let after = next(transaction, sql, state, Event::Failed(message));
            match state {
                RequestState::Lock => is_rejected_with(after, message@),
                RequestState::Begin => is_rejected_with(after, message@),
                RequestState::Commit(summary) => is_rejected_with(after, message@),
                RequestState::Rollback(reason) => is_rejected_with(after, reason),
                RequestState::Done(outcome) => after == state,
                RequestState::Batch(b) => true,
            }
        }),
{
}

/// The request is done, and what it replies is `message`.
pub open spec fn is_rejected_with(state: RequestState, message: Seq<char>) -> bool {
    state matches RequestState::Done(BatchOutcome::Rejected(m)) && m == message
}

/// A statement that fails ends its request with the reason: at once without a transaction, and
/// after a rollback in one.
pub proof fn failed_statement_ends_the_request(
    transaction: bool,
    sql: Seq<char>,
    state: BatchState,
    event: Event,
    message: Seq<char>,
)
    requires
        batch::next(sql, state, event) == BatchState::Done(BatchOutcome::Rejected(message)),
    ensures
        ({
            let after = next(transaction, sql, RequestState::Batch(state), event);
            &&& wanted(after) == (if transaction {
                Action::Rollback
            } else {
                Action::Reply
            })
            &&& is_rejected_with(
                if transaction {
                    next(transaction, sql, after, Event::RolledBack)
                } else {
                    after
                },
                message,
            )
        }),
{
}

} // verus!

//! Several statements, of which the last gives the rows.
use crate::database::event;
use crate::database::event::Action;
use crate::database::event::Event;
use crate::database::fold;
use crate::database::row::Value;
use vstd::prelude::*;

verus! {

/// What the statements reply.
#[derive(Debug)]
pub enum SequenceReply {
    /// The rows of the last statement, if there are any, each as the values of its columns.
    Resolved(Option<Vec<Vec<Value>>>),
    /// Why a statement failed.
    Rejected(String),
}

/// A [`SequenceReply`] by its contents.
pub enum SequenceOutcome {
    Resolved(Option<Seq<Seq<Value>>>),
    Rejected(Seq<char>),
}

/// The values of rows.
pub open spec fn listed(rows: Seq<Vec<Value>>) -> Seq<Seq<Value>> {
    rows.map_values(|r: Vec<Value>| r@)
}

impl View for SequenceReply {
    type V = SequenceOutcome;

    open spec fn view(&self) -> SequenceOutcome {
        match self {
            SequenceReply::Resolved(Some(rows)) => SequenceOutcome::Resolved(Some(listed(rows@))),
            SequenceReply::Resolved(None) => SequenceOutcome::Resolved(None),
            SequenceReply::Rejected(message) => SequenceOutcome::Rejected(message@),
        }
    }
}

/// How far the statements are.
pub enum SequenceState {
    Lock,
    /// The statement at the index comes next.
    Prepare(nat),
    /// The statement at the index, which is not the last, is prepared.
    Execute(nat),
    /// The last statement is prepared.
    Query { columns: nat },
    Rows { columns: nat, rows: Seq<Seq<Value>> },
    Done(SequenceOutcome),
}

/// Statements of which one failed.
pub open spec fn rejected(message: Seq<char>) -> SequenceState {
    SequenceState::Done(SequenceOutcome::Rejected(message))
}

/// What is replied of the rows of the last statement.
pub open spec fn outcome(rows: Seq<Seq<Value>>) -> SequenceOutcome {
    SequenceOutcome::Resolved(
        if rows.len() == 0 {
            None
        } else {
            Some(rows)
        },
    )
}

/// Where `event` takes the statements. An event that does not answer what they wait for leaves
/// them as they are.
pub open spec fn next(sqls: Seq<String>, state: SequenceState, event: Event) -> SequenceState {
    match (state, event) {
        (SequenceState::Lock, Event::Locked) => if sqls.len() == 0 {
            SequenceState::Done(outcome(Seq::empty()))
        } else {
            SequenceState::Prepare(0)
        },
        (SequenceState::Lock, Event::Failed(m)) => rejected(m@),
        (SequenceState::Prepare(i), Event::Prepared(columns)) => if i + 1 < sqls.len() {
            SequenceState::Execute(i)
        } else {
            SequenceState::Query { columns: columns as nat }
        },
        (SequenceState::Prepare(i), Event::Failed(m)) => rejected(
            event::query_fault(m@, sqls[i as int]@),
        ),
        (SequenceState::Execute(i), Event::Executed) => SequenceState::Prepare(i + 1),
        (SequenceState::Execute(i), Event::Failed(m)) => rejected(
            event::statement_fault(m@, sqls[i as int]@),
        ),
        (SequenceState::Query { columns }, Event::Queried) => SequenceState::Rows {
            columns,
            rows: Seq::empty(),
        },
        (SequenceState::Query { columns }, Event::Failed(m)) => rejected(
            event::statement_fault(m@, sqls.last()@),
        ),
        (SequenceState::Rows { columns, rows }, Event::Row(values)) => if values@.len()
            == columns {
            SequenceState::Rows { columns, rows: rows.push(values@) }
        } else {
            state
        },
        (SequenceState::Rows { columns, rows }, Event::Exhausted) => SequenceState::Done(
            outcome(rows),
        ),
        (SequenceState::Rows { columns, rows }, Event::Failed(m)) => rejected(m@),
        _ => state,
    }
}

/// What the statements wait for.
pub open spec fn wanted(state: SequenceState) -> Action {
    match state {
        SequenceState::Lock => Action::Lock,
        SequenceState::Prepare(i) => Action::Prepare(i as usize),
        SequenceState::Execute(i) => Action::Execute,
        SequenceState::Query { columns } => Action::Query,
        SequenceState::Rows { columns, rows } => Action::NextRow,
        SequenceState::Done(o) => Action::Reply,
    }
}

#[derive(Debug)]
enum Phase {
    Lock,
    Prepare(usize),
    Execute(usize),
    Query { columns: usize },
    Rows { columns: usize, rows: Vec<Vec<Value>> },
    Done(SequenceReply),
}

impl View for Phase {
    type V = SequenceState;

    closed spec fn view(&self) -> SequenceState {
        match self {
            Phase::Lock => SequenceState::Lock,
            Phase::Prepare(i) => SequenceState::Prepare(*i as nat),
            Phase::Execute(i) => SequenceState::Execute(*i as nat),
            Phase::Query { columns } => SequenceState::Query { columns: *columns as nat },
            Phase::Rows { columns, rows } => SequenceState::Rows {
                columns: *columns as nat,
                rows: listed(rows@),
            },
            Phase::Done(reply) => SequenceState::Done(reply@),
        }
    }
}

/// The statements on their way.
#[derive(Debug)]
pub struct SequenceRun {
    sqls: Vec<String>,
    phase: Phase,
}

impl View for SequenceRun {
    type V = SequenceState;

    closed spec fn view(&self) -> SequenceState {
        self.phase@
    }
}

impl SequenceRun {
    #[verifier::type_invariant]
    closed spec fn inv(&self) -> bool {
        match self.phase {
            Phase::Prepare(i) => i < self.sqls@.len(),
            Phase::Execute(i) => i + 1 < self.sqls@.len(),
            Phase::Query { columns } => 0 < self.sqls@.len(),
            _ => true,
        }
    }

    /// The statements.
    pub closed spec fn texts(&self) -> Seq<String> {
        self.sqls@
    }

    /// Statements of which none has run.
    pub fn new(sqls: Vec<String>) -> (r: Self)
        ensures
            r@ == SequenceState::Lock,
            r.texts() == sqls@,
    {
        SequenceRun { sqls, phase: Phase::Lock }
    }

    /// The statements.
    pub fn sqls(&self) -> (r: &Vec<String>)
        ensures
            r@ == self.texts(),
    {
        &self.sqls
    }

    /// What to do next.
    pub fn action(&self) -> (r: Action)
        ensures
            r == wanted(self@),
            r matches Action::Prepare(i) ==> i < self.texts().len(),
    {
        proof {
            use_type_invariant(self);
        }
        match &self.phase {
            Phase::Lock => Action::Lock,
            Phase::Prepare(i) => Action::Prepare(*i),
            Phase::Execute(i) => Action::Execute,
            Phase::Query { columns } => Action::Query,
            Phase::Rows { columns, rows } => Action::NextRow,
            Phase::Done(reply) => Action::Reply,
        }
    }

    /// The run after `event`.
    pub fn step(self, event: Event) -> (r: Self)
        ensures
            r@ == next(self.texts(), self@, event),
            r.texts() == self.texts(),
    {
        proof {
            use_type_invariant(&self);
        }
        let SequenceRun { sqls, phase } = self;
        let count: usize = sqls.len();
        let phase: Phase = match (phase, event) {
            (Phase::Lock, Event::Locked) => if count == 0 {
                Phase::Done(SequenceReply::Resolved(None))
            } else {
                Phase::Prepare(0)
            },
            (Phase::Lock, Event::Failed(m)) => Phase::Done(SequenceReply::Rejected(m)),
            (Phase::Prepare(i), Event::Prepared(columns)) => if i < count - 1 {
                Phase::Execute(i)
            } else {
                Phase::Query { columns }
            },
            (Phase::Prepare(i), Event::Failed(m)) => Phase::Done(
                SequenceReply::Rejected(event::query_fault_text(&m, &sqls[i])),
            ),
            (Phase::Execute(i), Event::Executed) => Phase::Prepare(i + 1),
            (Phase::Execute(i), Event::Failed(m)) => Phase::Done(
                SequenceReply::Rejected(event::statement_fault_text(&m, &sqls[i])),
            ),
            (Phase::Query { columns }, Event::Queried) => {
                let rows: Vec<Vec<Value>> = Vec::new();
                assert(listed(rows@) =~= Seq::empty());
                Phase::Rows { columns, rows }
            },
            (Phase::Query { columns }, Event::Failed(m)) => Phase::Done(
                SequenceReply::Rejected(
                    event::statement_fault_text(&m, &sqls[count - 1]),
                ),
            ),
            (Phase::Rows { columns, rows }, Event::Row(values)) => {
                if values.len() == columns {
                    let mut all: Vec<Vec<Value>> = rows;
                    all.push(values);
                    assert(listed(all@) =~= listed(rows@).push(values@));
                    Phase::Rows { columns, rows: all }
                } else {
                    Phase::Rows { columns, rows }
                }
            },
            (Phase::Rows { columns, rows }, Event::Exhausted) => if rows.len() == 0 {
                Phase::Done(SequenceReply::Resolved(None))
            } else {
                Phase::Done(SequenceReply::Resolved(Some(rows)))
            },
            (Phase::Rows { columns, rows }, Event::Failed(m)) => Phase::Done(
                SequenceReply::Rejected(m),
            ),
            (phase, _) => phase,
        };
        SequenceRun { sqls, phase }
    }

    /// The reply, or the run where there is none yet.
    pub fn into_reply(self) -> (r: Result<SequenceReply, Self>)
        ensures
            match r {
                Ok(reply) => self@ == SequenceState::Done(reply@),
                Err(run) => run == self && !(self@ is Done),
            },
    {
        proof {
            use_type_invariant(&self);
        }
        let SequenceRun { sqls, phase } = self;
        match phase {
            Phase::Done(reply) => Ok(reply),
            phase => Err(SequenceRun { sqls, phase }),
        }
    }
}

/// [`next`] for given statements.
pub open spec fn stepper(sqls: Seq<String>) -> spec_fn(SequenceState, Event) -> SequenceState {
    |state: SequenceState, event: Event| next(sqls, state, event)
}

/// Where `events` take the statements, one after the other.
pub open spec fn run(sqls: Seq<String>, state: SequenceState, events: Seq<Event>) -> SequenceState {
    fold::run(stepper(sqls), state, events)
}

/// What a connection tells of statements that only have an effect; `columns` are how many
/// columns each has.
pub open spec fn effects(columns: Seq<usize>) -> Seq<Event>
    decreases columns.len(),
{
    if columns.len() == 0 {
        Seq::empty()
    } else {
        effects(columns.drop_last()) + seq![Event::Prepared(columns.last()), Event::Executed]
    }
}

/// What a connection tells of statements of which the last gives `rows`; `columns` are how many
/// columns each has.
pub open spec fn success(columns: Seq<usize>, rows: Seq<Vec<Value>>) -> Seq<Event> {
    seq![Event::Locked] + effects(columns.drop_last()) + seq![
        Event::Prepared(columns.last()),
        Event::Queried,
    ] + rows.map_values(|r: Vec<Value>| Event::Row(r)) + seq![Event::Exhausted]
}

proof fn run_effects(sqls: Seq<String>, columns: Seq<usize>)
    requires
        columns.len() < sqls.len(),
    ensures
        run(sqls, SequenceState::Prepare(0), effects(columns)) == SequenceState::Prepare(
            columns.len(),
        ),
    decreases columns.len(),
{
    if columns.len() > 0 {
        let first = columns.drop_last();
        run_effects(sqls, first);
        fold::run_concat(stepper(sqls),
            SequenceState::Prepare(0),
            effects(first),
            seq![Event::Prepared(columns.last()), Event::Executed],
        );
        fold::run_pair(stepper(sqls),
            SequenceState::Prepare(first.len()),
            Event::Prepared(columns.last()),
            Event::Executed,
        );
    }
}

proof fn run_rows(sqls: Seq<String>, columns: nat, rows: Seq<Vec<Value>>)
    requires
        forall|i: int| 0 <= i < rows.len() ==> (#[trigger] rows[i])@.len() == columns,
    ensures
        run(
            sqls,
            SequenceState::Rows { columns, rows: Seq::empty() },
            rows.map_values(|r: Vec<Value>| Event::Row(r)),
        ) == (SequenceState::Rows { columns, rows: listed(rows) }),
    decreases rows.len(),
{
    let events = rows.map_values(|r: Vec<Value>| Event::Row(r));
    if rows.len() == 0 {
        assert(listed(rows) =~= Seq::empty());
    } else {
        let first = rows.drop_last();
        assert forall|i: int| 0 <= i < first.len() implies (#[trigger] first[i])@.len()
            == columns by {
            assert(rows[i]@.len() == columns);
        }
        run_rows(sqls, columns, first);
        assert(events.drop_last() =~= first.map_values(|r: Vec<Value>| Event::Row(r)));
        assert(rows[rows.len() - 1]@.len() == columns);
        assert(listed(first).push(rows.last()@) =~= listed(rows));
    }
}

/// Statements that nothing stops are prepared and run one after the other, and reply the rows
/// of the last one in order, or that there are none.
pub proof fn last_statement_replies(
    sqls: Seq<String>,
    columns: Seq<usize>,
    rows: Seq<Vec<Value>>,
)
    requires
        columns.len() == sqls.len(),
        sqls.len() > 0,
        forall|i: int| 0 <= i < rows.len() ==> (#[trigger] rows[i])@.len() == columns.last(),
    ensures
        run(sqls, SequenceState::Lock, success(columns, rows)) == SequenceState::Done(
            outcome(listed(rows)),
        ),
{
    let start = SequenceState::Lock;
    let first = columns.drop_last();
    let last = columns.last();
    let begin = seq![Event::Locked];
    let query = seq![Event::Prepared(last), Event::Queried];
    let fetched = rows.map_values(|r: Vec<Value>| Event::Row(r));
    let end = seq![Event::Exhausted];
    fold::run_one(stepper(sqls), start, Event::Locked);
    fold::run_concat(stepper(sqls), start, begin, effects(first));
    run_effects(sqls, first);
    fold::run_concat(stepper(sqls), start, begin + effects(first), query);
    fold::run_pair(stepper(sqls), SequenceState::Prepare(first.len()), Event::Prepared(last), Event::Queried);
    fold::run_concat(stepper(sqls), start, begin + effects(first) + query, fetched);
    run_rows(sqls, last as nat, rows);
    fold::run_concat(stepper(sqls), start, begin + effects(first) + query + fetched, end);
    fold::run_one(stepper(sqls),
        SequenceState::Rows { columns: last as nat, rows: listed(rows) },
        Event::Exhausted,
    );
}

/// A failure of whatever can fail rejects the statements at once: none after it is run.
pub proof fn failure_rejects(sqls: Seq<String>, state: SequenceState, message: String)
    requires
        !(state is Done),
    ensures
        next(sqls, state, Event::Failed(message)) matches SequenceState::Done(o) && o is Rejected,
{
}

/// A reply is final: no event changes it.
pub proof fn reply_is_final(sqls: Seq<String>, o: SequenceOutcome, later: Seq<Event>)
    ensures
        run(sqls, SequenceState::Done(o), later) == SequenceState::Done(o),
{
    fold::run_stays(stepper(sqls), SequenceState::Done(o), later);
}

/// Until the connection is locked nothing is done on it: the run waits for the lock, or has
/// failed to get it.
pub proof fn nothing_before_the_lock(sqls: Seq<String>, events: Seq<Event>)
    requires
        forall|i: int| 0 <= i < events.len() ==> !(#[trigger] events[i] is Locked),
    ensures
        ({
            let state = run(sqls, SequenceState::Lock, events);
            state is Lock || (state matches SequenceState::Done(o) && o is Rejected)
        }),
    decreases events.len(),
{
    if events.len() > 0 {
        let earlier = events.drop_last();
        assert forall|i: int| 0 <= i < earlier.len() implies !(#[trigger] earlier[i] is Locked) by {
            assert(!(events[i] is Locked));
        }
        nothing_before_the_lock(sqls, earlier);
        assert(!(events[events.len() - 1] is Locked));
    }
}

/// A failure is reported in its own words where the connection could not be locked or a row not be
/// read; where a statement could not be prepared or run, with the text of that statement.
pub proof fn failure_is_reported(sqls: Seq<String>, state: SequenceState, message: String)
    ensures
        ({
            let after = next(sqls, state, Event::Failed(message));
            match state {
                SequenceState::Lock => is_rejected_with(after, message@),
                SequenceState::Prepare(i) => is_rejected_with(after, 
                    "Failed to execute SQL: "@ + message@ + " - "@ + sqls[i as int]@,
                ),
                SequenceState::Execute(i) => is_rejected_with(after, 
                    "Failed to execute SQL statement: "@ + message@ + " - "@ + sqls[i as int]@,
                ),
                SequenceState::Query { columns } => is_rejected_with(after, 
                    "Failed to execute SQL statement: "@ + message@ + " - "@
                        + sqls[sqls.len() - 1]@,
                ),
                SequenceState::Rows { columns, rows } => is_rejected_with(after, message@),
                SequenceState::Done(o) => after == state,
            }
        }),
{
}

/// The statements are done, and what they reply is `message`.
pub open spec fn is_rejected_with(state: SequenceState, message: Seq<char>) -> bool {
    state matches SequenceState::Done(SequenceOutcome::Rejected(m)) && m == message
}

/// A reply is known by what it holds: each row by the values of its columns.
pub proof fn reply_is_its_contents(reply: SequenceReply)
    ensures
        match reply {
            SequenceReply::Resolved(Some(rows)) => {
                &&& reply@ matches SequenceOutcome::Resolved(Some(r)) && r.len() == rows@.len()
                    && forall|i: int| 0 <= i < rows@.len() ==> r[i] == (#[trigger] rows@[i])@
            },
            SequenceReply::Resolved(None) => reply@ == SequenceOutcome::Resolved(None),
            SequenceReply::Rejected(message) => reply@ matches SequenceOutcome::Rejected(m) && m
                == message@,
        },
{
}

} // verus!

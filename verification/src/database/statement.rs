//! A single statement with parameters.
use crate::database::event;
use crate::database::event::Action;
use crate::database::event::Event;
use crate::database::fold;
use crate::database::row;
use crate::database::row::RowObject;
use crate::database::row::Value;
use crate::text;
use vstd::prelude::*;

verus! {

/// The values that a statement is run with.
#[derive(Debug)]
pub enum Parameters {
    /// In order.
    Positional(Vec<Value>),
    /// By name, the mark in front included.
    Named(Vec<(String, Value)>),
}

/// What a statement replies.
#[derive(Debug)]
pub enum StatementReply {
    /// How many rows changed, and the rows that came out.
    Resolved { affected: u64, rows: Vec<RowObject> },
    /// Why the statement failed.
    Rejected(String),
}

/// A [`StatementReply`] by its contents.
pub enum StatementOutcome {
    Resolved { affected: nat, rows: Seq<Map<Seq<char>, Value>> },
    Rejected(Seq<char>),
}

impl View for StatementReply {
    type V = StatementOutcome;

    open spec fn view(&self) -> StatementOutcome {
        match self {
            StatementReply::Resolved { affected, rows } => StatementOutcome::Resolved {
                affected: *affected as nat,
                rows: row::contents(rows@),
            },
            StatementReply::Rejected(message) => StatementOutcome::Rejected(message@),
        }
    }
}

/// How far a statement is.
pub enum StatementState {
    Lock,
    Prepare,
    /// The statement has `count` columns, and the names of the first ones are known.
    Columns { count: nat, names: Seq<String> },
    CountBefore { names: Seq<String> },
    Query { names: Seq<String>, before: nat },
    Rows { names: Seq<String>, before: nat, rows: Seq<Map<Seq<char>, Value>> },
    CountAfter { before: nat, rows: Seq<Map<Seq<char>, Value>> },
    Done(StatementOutcome),
}

/// A statement that failed.
pub open spec fn rejected(message: Seq<char>) -> StatementState {
    StatementState::Done(StatementOutcome::Rejected(message))
}

/// Where the names of the first columns of `count` are known.
pub open spec fn named(count: nat, names: Seq<String>) -> StatementState {
    if names.len() < count {
        StatementState::Columns { count, names }
    } else {
        StatementState::CountBefore { names }
    }
}

/// Where `event` takes a statement. An event that does not answer what the statement waits for
/// leaves it as it is.
pub open spec fn next(sql: Seq<char>, state: StatementState, event: Event) -> StatementState {
    match (state, event) {
        (StatementState::Lock, Event::Locked) => StatementState::Prepare,
        (StatementState::Lock, Event::Failed(m)) => rejected(m@),
        (StatementState::Prepare, Event::Prepared(count)) => named(count as nat, Seq::empty()),
        (StatementState::Prepare, Event::Failed(m)) => rejected(m@),
        (StatementState::Columns { count, names }, Event::ColumnName(name)) => named(
            count,
            names.push(name),
        ),
        (StatementState::Columns { count, names }, Event::Failed(m)) => rejected(
            event::column_fault(names.len(), m@),
        ),
        (StatementState::CountBefore { names }, Event::Changes(before)) => StatementState::Query {
            names,
            before: before as nat,
        },
        (StatementState::Query { names, before }, Event::Queried) => StatementState::Rows {
            names,
            before,
            rows: Seq::empty(),
        },
        (StatementState::Query { names, before }, Event::Failed(m)) => rejected(
            event::query_fault(m@, sql),
        ),
        (StatementState::Rows { names, before, rows }, Event::Row(values)) => if values@.len()
            == names.len() {
            StatementState::Rows { names, before, rows: rows.push(row::object(names, values@)) }
        } else {
            state
        },
        (StatementState::Rows { names, before, rows }, Event::Exhausted) => {
            StatementState::CountAfter { before, rows }
        },
        (StatementState::Rows { names, before, rows }, Event::Failed(m)) => rejected(m@),
        (StatementState::CountAfter { before, rows }, Event::Changes(after)) => if before <= after {
            StatementState::Done(
                StatementOutcome::Resolved { affected: (after - before) as nat, rows },
            )
        } else {
            state
        },
        _ => state,
    }
}

/// What a statement waits for.
pub open spec fn wanted(state: StatementState) -> Action {
    match state {
        StatementState::Lock => Action::Lock,
        StatementState::Prepare => Action::Prepare(0),
        StatementState::Columns { count, names } => Action::ColumnName(names.len() as usize),
        StatementState::CountBefore { names } => Action::CountChanges,
        StatementState::Query { names, before } => Action::Query,
        StatementState::Rows { names, before, rows } => Action::NextRow,
        StatementState::CountAfter { before, rows } => Action::CountChanges,
        StatementState::Done(outcome) => Action::Reply,
    }
}

#[derive(Debug)]
enum Phase {
    Lock,
    Prepare,
    Columns { count: usize, names: Vec<String> },
    CountBefore { names: Vec<String> },
    Query { names: Vec<String>, before: u64 },
    Rows { names: Vec<String>, before: u64, rows: Vec<RowObject> },
    CountAfter { before: u64, rows: Vec<RowObject> },
    Done(StatementReply),
}

impl View for Phase {
    type V = StatementState;

    closed spec fn view(&self) -> StatementState {
        match self {
            Phase::Lock => StatementState::Lock,
            Phase::Prepare => StatementState::Prepare,
            Phase::Columns { count, names } => StatementState::Columns {
                count: *count as nat,
                names: names@,
            },
            Phase::CountBefore { names } => StatementState::CountBefore { names: names@ },
            Phase::Query { names, before } => StatementState::Query {
                names: names@,
                before: *before as nat,
            },
            Phase::Rows { names, before, rows } => StatementState::Rows {
                names: names@,
                before: *before as nat,
                rows: row::contents(rows@),
            },
            Phase::CountAfter { before, rows } => StatementState::CountAfter {
                before: *before as nat,
                rows: row::contents(rows@),
            },
            Phase::Done(reply) => StatementState::Done(reply@),
        }
    }
}

/// A statement on its way.
#[derive(Debug)]
pub struct StatementRun {
    sql: String,
    parameters: Parameters,
    phase: Phase,
}

impl View for StatementRun {
    type V = StatementState;

    closed spec fn view(&self) -> StatementState {
        self.phase@
    }
}

impl StatementRun {
    /// The text of the statement.
    pub closed spec fn text(&self) -> Seq<char> {
        self.sql@
    }

    /// What the statement is run with.
    pub closed spec fn bound(&self) -> Parameters {
        self.parameters
    }

    /// A statement that has not begun.
    pub fn new(sql: String, parameters: Parameters) -> (r: Self)
        ensures
            r@ == StatementState::Lock,
            r.text() == sql@,
            r.bound() == parameters,
    {
        StatementRun { sql, parameters, phase: Phase::Lock }
    }

    /// What the statement is run with.
    pub fn parameters(&self) -> (r: &Parameters)
        ensures
            *r == self.bound(),
    {
        &self.parameters
    }

    /// The text of the statement.
    pub fn sql(&self) -> (r: &String)
        ensures
            r@ == self.text(),
    {
        &self.sql
    }

    /// What to do next.
    pub fn action(&self) -> (r: Action)
        ensures
            r == wanted(self@),
    {
        match &self.phase {
            Phase::Lock => Action::Lock,
            Phase::Prepare => Action::Prepare(0),
            Phase::Columns { count, names } => Action::ColumnName(names.len()),
            Phase::CountBefore { names } => Action::CountChanges,
            Phase::Query { names, before } => Action::Query,
            Phase::Rows { names, before, rows } => Action::NextRow,
            Phase::CountAfter { before, rows } => Action::CountChanges,
            Phase::Done(reply) => Action::Reply,
        }
    }

    /// The run after `event`.
    pub fn step(self, event: Event) -> (r: Self)
        ensures
            r@ == next(self.text(), self@, event),
            r.text() == self.text(),
            r.bound() == self.bound(),
    {
        let StatementRun { sql, parameters, phase } = self;
        let phase: Phase = match (phase, event) {
            (Phase::Lock, Event::Locked) => Phase::Prepare,
            (Phase::Lock, Event::Failed(m)) => Phase::Done(StatementReply::Rejected(m)),
            (Phase::Prepare, Event::Prepared(count)) => {
                let names: Vec<String> = Vec::new();
                Self::named(count, names)
            },
            (Phase::Prepare, Event::Failed(m)) => Phase::Done(StatementReply::Rejected(m)),
            (Phase::Columns { count, names }, Event::ColumnName(name)) => {
                let mut names: Vec<String> = names;
                names.push(name);
                Self::named(count, names)
            },
            (Phase::Columns { count, names }, Event::Failed(m)) => Phase::Done(
                StatementReply::Rejected(event::column_fault_text(names.len(), &m)),
            ),
            (Phase::CountBefore { names }, Event::Changes(before)) => Phase::Query {
                names,
                before,
            },
            (Phase::Query { names, before }, Event::Queried) => {
                let rows: Vec<RowObject> = Vec::new();
                assert(row::contents(rows@) =~= Seq::empty());
                Phase::Rows { names, before, rows }
            },
            (Phase::Query { names, before }, Event::Failed(m)) => Phase::Done(
                StatementReply::Rejected(event::query_fault_text(&m, &sql)),
            ),
            (Phase::Rows { names, before, rows }, Event::Row(values)) => {
                if values.len() == names.len() {
                    let rows: Vec<RowObject> = row::with_row(rows, &names, values);
                    Phase::Rows { names, before, rows }
                } else {
                    Phase::Rows { names, before, rows }
                }
            },
            (Phase::Rows { names, before, rows }, Event::Exhausted) => Phase::CountAfter {
                before,
                rows,
            },
            (Phase::Rows { names, before, rows }, Event::Failed(m)) => Phase::Done(
                StatementReply::Rejected(m),
            ),
            (Phase::CountAfter { before, rows }, Event::Changes(after)) => {
                if before <= after {
                    Phase::Done(StatementReply::Resolved { affected: after - before, rows })
                } else {
                    Phase::CountAfter { before, rows }
                }
            },
            (phase, _) => phase,
        };
        StatementRun { sql, parameters, phase }
    }

    fn named(count: usize, names: Vec<String>) -> (r: Phase)
        ensures
            r@ == named(count as nat, names@),
    {
        if names.len() < count {
            Phase::Columns { count, names }
        } else {
            Phase::CountBefore { names }
        }
    }

    /// The reply, or the run where there is none yet.
    pub fn into_reply(self) -> (r: Result<StatementReply, Self>)
        ensures
            match r {
                Ok(reply) => self@ == StatementState::Done(reply@),
                Err(run) => run == self && !(self@ is Done),
            },
    {
        let StatementRun { sql, parameters, phase } = self;
        match phase {
            Phase::Done(reply) => Ok(reply),
            phase => Err(StatementRun { sql, parameters, phase }),
        }
    }
}

/// [`next`] for a given statement.
pub open spec fn stepper(sql: Seq<char>) -> spec_fn(StatementState, Event) -> StatementState {
    |state: StatementState, event: Event| next(sql, state, event)
}

/// Where `events` take a statement, one after the other.
pub open spec fn run(sql: Seq<char>, state: StatementState, events: Seq<Event>) -> StatementState {
    fold::run(stepper(sql), state, events)
}

/// What a connection tells of a statement that gives `rows`, each of the columns `names`, while
/// the number of rows changed goes from `before` to `after`.
pub open spec fn success(
    names: Seq<String>,
    before: u64,
    rows: Seq<Vec<Value>>,
    after: u64,
) -> Seq<Event> {
    seq![Event::Locked, Event::Prepared(names.len() as usize)] + names.map_values(
        |n: String| Event::ColumnName(n),
    ) + seq![Event::Changes(before), Event::Queried] + rows.map_values(|r: Vec<Value>| Event::Row(r))
        + seq![Event::Exhausted, Event::Changes(after)]
}

/// The objects of `rows`, each of the columns `names`.
pub open spec fn objects(names: Seq<String>, rows: Seq<Vec<Value>>) -> Seq<Map<Seq<char>, Value>> {
    rows.map_values(|r: Vec<Value>| row::object(names, r@))
}

proof fn run_names(sql: Seq<char>, count: nat, names: Seq<String>)
    requires
        names.len() <= count,
    ensures
        run(sql, named(count, Seq::empty()), names.map_values(|n: String| Event::ColumnName(n)))
            == named(count, names),
    decreases names.len(),
{
    let events = names.map_values(|n: String| Event::ColumnName(n));
    if names.len() == 0 {
        assert(names =~= Seq::empty());
    } else {
        let first = names.drop_last();
        run_names(sql, count, first);
        assert(events.drop_last() =~= first.map_values(|n: String| Event::ColumnName(n)));
        assert(first.push(names.last()) =~= names);
    }
}

proof fn run_rows(sql: Seq<char>, names: Seq<String>, before: nat, rows: Seq<Vec<Value>>)
    requires
        forall|i: int| 0 <= i < rows.len() ==> (#[trigger] rows[i])@.len() == names.len(),
    ensures
        run(
            sql,
            StatementState::Rows { names, before, rows: Seq::empty() },
            rows.map_values(|r: Vec<Value>| Event::Row(r)),
        ) == (StatementState::Rows { names, before, rows: objects(names, rows) }),
    decreases rows.len(),
{
    let events = rows.map_values(|r: Vec<Value>| Event::Row(r));
    if rows.len() == 0 {
        assert(objects(names, rows) =~= Seq::empty());
    } else {
        let first = rows.drop_last();
        assert forall|i: int| 0 <= i < first.len() implies (#[trigger] first[i])@.len()
            == names.len() by {
            assert(rows[i]@.len() == names.len());
        }
        run_rows(sql, names, before, first);
        assert(events.drop_last() =~= first.map_values(|r: Vec<Value>| Event::Row(r)));
        assert(rows[rows.len() - 1]@.len() == names.len());
        assert(objects(names, first).push(row::object(names, rows.last()@)) =~= objects(
            names,
            rows,
        ));
    }
}

/// A statement that nothing stops replies all its rows in order, and by how much the number of
/// rows changed grew.
pub proof fn statement_resolves(
    sql: Seq<char>,
    names: Seq<String>,
    before: u64,
    rows: Seq<Vec<Value>>,
    after: u64,
)
    requires
        names.len() <= usize::MAX,
        before <= after,
        forall|i: int| 0 <= i < rows.len() ==> (#[trigger] rows[i])@.len() == names.len(),
    ensures
        run(sql, StatementState::Lock, success(names, before, rows, after))
            == StatementState::Done(
            StatementOutcome::Resolved {
                affected: (after - before) as nat,
                rows: objects(names, rows),
            },
        ),
{
    let begin = seq![Event::Locked, Event::Prepared(names.len() as usize)];
    let columns = names.map_values(|n: String| Event::ColumnName(n));
    let query = seq![Event::Changes(before), Event::Queried];
    let fetched = rows.map_values(|r: Vec<Value>| Event::Row(r));
    let end = seq![Event::Exhausted, Event::Changes(after)];
    let start = StatementState::Lock;
    fold::run_pair(stepper(sql), start, Event::Locked, Event::Prepared(names.len() as usize));
    fold::run_concat(stepper(sql), start, begin, columns);
    run_names(sql, names.len(), names);
    fold::run_concat(stepper(sql), start, begin + columns, query);
    fold::run_pair(stepper(sql),
        StatementState::CountBefore { names },
        Event::Changes(before),
        Event::Queried,
    );
    fold::run_concat(stepper(sql), start, begin + columns + query, fetched);
    run_rows(sql, names, before as nat, rows);
    fold::run_concat(stepper(sql), start, begin + columns + query + fetched, end);
    fold::run_pair(stepper(sql),
        StatementState::Rows { names, before: before as nat, rows: objects(names, rows) },
        Event::Exhausted,
        Event::Changes(after),
    );
}

/// A reply is final: no event changes it.
pub proof fn reply_is_final(sql: Seq<char>, outcome: StatementOutcome, later: Seq<Event>)
    ensures
        run(sql, StatementState::Done(outcome), later) == StatementState::Done(outcome),
{
    fold::run_stays(stepper(sql), StatementState::Done(outcome), later);
}

/// A failure of whatever can fail rejects the statement, and nothing after it changes that.
pub proof fn failure_rejects(
    sql: Seq<char>,
    state: StatementState,
    message: String,
    later: Seq<Event>,
)
    requires
        state is Lock || state is Prepare || state is Columns || state is Query || state is Rows,
    ensures
        run(sql, state, seq![Event::Failed(message)] + later) matches StatementState::Done(o)
            && o is Rejected,
{
    let failed = seq![Event::Failed(message)];
    fold::run_concat(stepper(sql), state, failed, later);
    assert(failed.drop_last() =~= Seq::empty());
    assert(run(sql, state, failed.drop_last()) == state);
    reply_is_final(sql, next(sql, state, Event::Failed(message))->Done_0, later);
}

/// Until the connection is locked nothing is done on it: the run waits for the lock, or has
/// failed to get it.
pub proof fn nothing_before_the_lock(sql: Seq<char>, events: Seq<Event>)
    requires
        forall|i: int| 0 <= i < events.len() ==> !(#[trigger] events[i] is Locked),
    ensures
        ({
            let state = run(sql, StatementState::Lock, events);
            state is Lock || (state matches StatementState::Done(o) && o is Rejected)
        }),
    decreases events.len(),
{
    if events.len() > 0 {
        let earlier = events.drop_last();
        assert forall|i: int| 0 <= i < earlier.len() implies !(#[trigger] earlier[i] is Locked) by {
            assert(!(events[i] is Locked));
        }
        nothing_before_the_lock(sql, earlier);
        assert(!(events[events.len() - 1] is Locked));
    }
}

/// A failure is reported in its own words where the connection could not be locked, the statement
/// not be prepared or a row not be read. Where the name of a column could not be had, its place is
/// said as well; where the statement could not be run, its text.
pub proof fn failure_is_reported(sql: Seq<char>, state: StatementState, message: String)
    ensures
        ({
            let after = next(sql, state, Event::Failed(message));
            match state {
                StatementState::Lock => is_rejected_with(after, message@),
                StatementState::Prepare => is_rejected_with(after, message@),
                StatementState::Columns { count, names } => is_rejected_with(after, 
                    "Failed to get column name for index"@ + text::decimal(names.len()) + ": "@
                        + message@,
                ),
                StatementState::Query { names, before } => is_rejected_with(after, 
                    "Failed to execute SQL: "@ + message@ + " - "@ + sql,
                ),
                StatementState::Rows { names, before, rows } => is_rejected_with(after, message@),
                _ => after == state,
            }
        }),
{
}

/// The statement is done, and what it replies is `message`.
pub open spec fn is_rejected_with(state: StatementState, message: Seq<char>) -> bool {
    state matches StatementState::Done(StatementOutcome::Rejected(m)) && m == message
}

/// A reply is known by what it holds: how many rows changed, and each row by its object.
pub proof fn reply_is_its_contents(reply: StatementReply)
    ensures
        match reply {
            StatementReply::Resolved { affected, rows } => {
                &&& reply@ matches StatementOutcome::Resolved { affected: a, rows: r } && a
                    == affected && r.len() == rows@.len() && forall|i: int|
                    0 <= i < rows@.len() ==> r[i] == (#[trigger] rows@[i])@
            },
            StatementReply::Rejected(message) => reply@ matches StatementOutcome::Rejected(m) && m
                == message@,
        },
{
}

} // verus!

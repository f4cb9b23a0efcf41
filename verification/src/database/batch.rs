//! The statements of one text, run in order.
use crate::database::event;
use crate::database::event::Action;
use crate::database::event::Event;
use crate::database::fold;
use crate::database::row;
use crate::database::row::RowObject;
use crate::database::row::Value;
use crate::text;
use vstd::prelude::*;

verus! {

/// Nanoseconds in a millisecond.
pub const NANOS_PER_MILLI: u128 = 1_000_000;

/// One more than the largest time that is replied.
pub const TIME_SPAN: u128 = 4_294_967_296;

/// Whole milliseconds in `nanos`, modulo [`TIME_SPAN`].
pub open spec fn millis(nanos: nat) -> nat {
    (nanos / (NANOS_PER_MILLI as nat)) % (TIME_SPAN as nat)
}

/// `late - early`, or zero where the clock went back.
pub open spec fn elapsed(early: nat, late: nat) -> nat {
    if early <= late {
        (late - early) as nat
    } else {
        0
    }
}

/// What the statements gave: the rows of all of them, if there are any, the times in
/// milliseconds, and how many rows changed.
#[derive(Debug)]
pub struct BatchSummary {
    pub rows: Option<Vec<RowObject>>,
    pub total_millis: u32,
    pub execution_millis: u32,
    pub affected: u64,
}

/// A [`BatchSummary`] by its contents.
pub struct Summary {
    pub rows: Option<Seq<Map<Seq<char>, Value>>>,
    pub total_millis: nat,
    pub execution_millis: nat,
    pub affected: nat,
}

impl View for BatchSummary {
    type V = Summary;

    open spec fn view(&self) -> Summary {
        Summary {
            rows: match self.rows {
                Some(rows) => Some(row::contents(rows@)),
                None => None,
            },
            total_millis: self.total_millis as nat,
            execution_millis: self.execution_millis as nat,
            affected: self.affected as nat,
        }
    }
}

/// What the statements reply.
#[derive(Debug)]
pub enum BatchReply {
    Resolved(BatchSummary),
    /// Why a statement failed.
    Rejected(String),
}

/// A [`BatchReply`] by its contents.
pub enum BatchOutcome {
    Resolved(Summary),
    Rejected(Seq<char>),
}

impl View for BatchReply {
    type V = BatchOutcome;

    open spec fn view(&self) -> BatchOutcome {
        match self {
            BatchReply::Resolved(summary) => BatchOutcome::Resolved(summary@),
            BatchReply::Rejected(message) => BatchOutcome::Rejected(message@),
        }
    }
}

/// What is known so far: the nanoseconds until the first statement, the rows changed before it,
/// and the rows that came out.
pub struct Progress {
    pub setup: nat,
    pub before: nat,
    pub rows: Seq<Map<Seq<char>, Value>>,
}

/// How far the statements are.
pub enum BatchState {
    MeasureBefore,
    Next(Progress),
    /// The statement has `count` columns, and the names of the first ones are known.
    Columns { so_far: Progress, count: nat, names: Seq<String> },
    Query { so_far: Progress, names: Seq<String> },
    Rows { so_far: Progress, names: Seq<String> },
    MeasureAfter(Progress),
    Done(BatchOutcome),
}

/// Statements of which one failed.
pub open spec fn rejected(message: Seq<char>) -> BatchState {
    BatchState::Done(BatchOutcome::Rejected(message))
}

/// Where the names of the first columns of `count` are known.
pub open spec fn named(so_far: Progress, count: nat, names: Seq<String>) -> BatchState {
    if names.len() < count {
        BatchState::Columns { so_far, count, names }
    } else {
        BatchState::Query { so_far, names }
    }
}

/// `so_far` with one row more.
pub open spec fn grown(so_far: Progress, object: Map<Seq<char>, Value>) -> Progress {
    Progress { rows: so_far.rows.push(object), ..so_far }
}

/// What is replied once every statement has run.
pub open spec fn summary(so_far: Progress, nanos: nat, after: nat) -> Summary {
    Summary {
        rows: if so_far.rows.len() == 0 {
            None
        } else {
            Some(so_far.rows)
        },
        total_millis: millis(nanos),
        execution_millis: millis(elapsed(so_far.setup, nanos)),
        affected: (after - so_far.before) as nat,
    }
}

/// Where `event` takes the statements of `sql`. An event that does not answer what they wait
/// for leaves them as they are.
pub open spec fn next(sql: Seq<char>, state: BatchState, event: Event) -> BatchState {
    match (state, event) {
        (BatchState::MeasureBefore, Event::Measured { nanos, changes }) => BatchState::Next(
            Progress { setup: nanos as nat, before: changes as nat, rows: Seq::empty() },
        ),
        (BatchState::Next(so_far), Event::Prepared(count)) => named(
            so_far,
            count as nat,
            Seq::empty(),
        ),
        (BatchState::Next(so_far), Event::NoStatement) => BatchState::MeasureAfter(so_far),
        (BatchState::Next(so_far), Event::Failed(m)) => rejected(m@),
        (BatchState::Columns { so_far, count, names }, Event::ColumnName(name)) => named(
            so_far,
            count,
            names.push(name),
        ),
        (BatchState::Columns { so_far, count, names }, Event::Failed(m)) => rejected(
            event::column_fault(names.len(), m@),
        ),
        (BatchState::Query { so_far, names }, Event::Queried) => BatchState::Rows {
            so_far,
            names,
        },
        (BatchState::Query { so_far, names }, Event::Failed(m)) => rejected(
            event::query_fault(m@, sql),
        ),
        (BatchState::Rows { so_far, names }, Event::Row(values)) => if values@.len()
            == names.len() {
            BatchState::Rows { so_far: grown(so_far, row::object(names, values@)), names }
        } else {
            state
        },
        (BatchState::Rows { so_far, names }, Event::Exhausted) => BatchState::Next(so_far),
        (BatchState::Rows { so_far, names }, Event::Failed(m)) => rejected(m@),
        (BatchState::MeasureAfter(so_far), Event::Measured { nanos, changes }) => {
            if so_far.before <= changes {
                BatchState::Done(
                    BatchOutcome::Resolved(summary(so_far, nanos as nat, changes as nat)),
                )
            } else {
                state
            }
        },
        _ => state,
    }
}

/// What the statements wait for.
pub open spec fn wanted(state: BatchState) -> Action {
    match state {
        BatchState::MeasureBefore => Action::Measure,
        BatchState::Next(so_far) => Action::NextStatement,
        BatchState::Columns { so_far, count, names } => Action::ColumnName(names.len() as usize),
        BatchState::Query { so_far, names } => Action::Query,
        BatchState::Rows { so_far, names } => Action::NextRow,
        BatchState::MeasureAfter(so_far) => Action::Measure,
        BatchState::Done(outcome) => Action::Reply,
    }
}

#[derive(Debug)]
struct Gathered {
    setup: u128,
    before: u64,
    rows: Vec<RowObject>,
}

impl View for Gathered {
    type V = Progress;

    closed spec fn view(&self) -> Progress {
        Progress {
            setup: self.setup as nat,
            before: self.before as nat,
            rows: row::contents(self.rows@),
        }
    }
}

#[derive(Debug)]
enum Phase {
    MeasureBefore,
    Next(Gathered),
    Columns { so_far: Gathered, count: usize, names: Vec<String> },
    Query { so_far: Gathered, names: Vec<String> },
    Rows { so_far: Gathered, names: Vec<String> },
    MeasureAfter(Gathered),
    Done(BatchReply),
}

impl View for Phase {
    type V = BatchState;

    closed spec fn view(&self) -> BatchState {
        match self {
            Phase::MeasureBefore => BatchState::MeasureBefore,
            Phase::Next(so_far) => BatchState::Next(so_far@),
            Phase::Columns { so_far, count, names } => BatchState::Columns {
                so_far: so_far@,
                count: *count as nat,
                names: names@,
            },
            Phase::Query { so_far, names } => BatchState::Query {
                so_far: so_far@,
                names: names@,
            },
            Phase::Rows { so_far, names } => BatchState::Rows { so_far: so_far@, names: names@ },
            Phase::MeasureAfter(so_far) => BatchState::MeasureAfter(so_far@),
            Phase::Done(reply) => BatchState::Done(reply@),
        }
    }
}

fn to_millis(nanos: u128) -> (r: u32)
    ensures
        r == millis(nanos as nat),
{
    ((nanos / NANOS_PER_MILLI) % TIME_SPAN) as u32
}

/// The statements of one text on their way.
#[derive(Debug)]
pub struct BatchRun {
    sql: String,
    phase: Phase,
}

impl View for BatchRun {
    type V = BatchState;

    closed spec fn view(&self) -> BatchState {
        self.phase@
    }
}

impl BatchRun {
    /// The text of the statements.
    pub closed spec fn text(&self) -> Seq<char> {
        self.sql@
    }

    /// Statements of which none has run.
    pub fn new(sql: String) -> (r: Self)
        ensures
            r@ == BatchState::MeasureBefore,
            r.text() == sql@,
    {
        BatchRun { sql, phase: Phase::MeasureBefore }
    }

    /// The text of the statements.
    pub fn sql(&self) -> (r: &String)
        ensures
            r@ == self.text(),
    {
        &self.sql
    }

    /// What to do next.
    pub fn action(&self) -> (r: Action)
        ensures
            r == wanted(self@),
    {
        match &self.phase {
            Phase::MeasureBefore => Action::Measure,
            Phase::Next(so_far) => Action::NextStatement,
            Phase::Columns { so_far, count, names } => Action::ColumnName(names.len()),
            Phase::Query { so_far, names } => Action::Query,
            Phase::Rows { so_far, names } => Action::NextRow,
            Phase::MeasureAfter(so_far) => Action::Measure,
            Phase::Done(reply) => Action::Reply,
        }
    }

    /// The run after `event`.
    pub fn step(self, event: Event) -> (r: Self)
        ensures
            r@ == next(self.text(), self@, event),
            r.text() == self.text(),
    {
        let sql: String = self.sql;
        let phase: Phase = match (self.phase, event) {
            (Phase::MeasureBefore, Event::Measured { nanos, changes }) => {
                let rows: Vec<RowObject> = Vec::new();
                assert(row::contents(rows@) =~= Seq::empty());
                Phase::Next(Gathered { setup: nanos, before: changes, rows })
            },
            (Phase::Next(so_far), Event::Prepared(count)) => {
                let names: Vec<String> = Vec::new();
                Self::named(so_far, count, names)
            },
            (Phase::Next(so_far), Event::NoStatement) => Phase::MeasureAfter(so_far),
            (Phase::Next(so_far), Event::Failed(m)) => Phase::Done(BatchReply::Rejected(m)),
            (Phase::Columns { so_far, count, names }, Event::ColumnName(name)) => {
                let mut names: Vec<String> = names;
                names.push(name);
                Self::named(so_far, count, names)
            },
            (Phase::Columns { so_far, count, names }, Event::Failed(m)) => Phase::Done(
                BatchReply::Rejected(event::column_fault_text(names.len(), &m)),
            ),
            (Phase::Query { so_far, names }, Event::Queried) => Phase::Rows { so_far, names },
            (Phase::Query { so_far, names }, Event::Failed(m)) => Phase::Done(
                BatchReply::Rejected(event::query_fault_text(&m, &sql)),
            ),
            (Phase::Rows { so_far, names }, Event::Row(values)) => {
                if values.len() == names.len() {
                    let rows: Vec<RowObject> = row::with_row(so_far.rows, &names, values);
                    Phase::Rows {
                        so_far: Gathered { setup: so_far.setup, before: so_far.before, rows },
                        names,
                    }
                } else {
                    Phase::Rows { so_far, names }
                }
            },
            (Phase::Rows { so_far, names }, Event::Exhausted) => Phase::Next(so_far),
            (Phase::Rows { so_far, names }, Event::Failed(m)) => Phase::Done(
                BatchReply::Rejected(m),
            ),
            (Phase::MeasureAfter(so_far), Event::Measured { nanos, changes }) => {
                if so_far.before <= changes {
                    Phase::Done(BatchReply::Resolved(Self::summarise(so_far, nanos, changes)))
                } else {
                    Phase::MeasureAfter(so_far)
                }
            },
            (phase, _) => phase,
        };
        BatchRun { sql, phase }
    }

    fn named(so_far: Gathered, count: usize, names: Vec<String>) -> (r: Phase)
        ensures
            r@ == named(so_far@, count as nat, names@),
    {
        if names.len() < count {
            Phase::Columns { so_far, count, names }
        } else {
            Phase::Query { so_far, names }
        }
    }

    fn summarise(so_far: Gathered, nanos: u128, changes: u64) -> (r: BatchSummary)
        requires
            so_far.before <= changes,
        ensures
            r@ == summary(so_far@, nanos as nat, changes as nat),
    {
        let total_millis: u32 = to_millis(nanos);
        let execution_millis: u32 = if so_far.setup <= nanos {
            to_millis(nanos - so_far.setup)
        } else {
            to_millis(0)
        };
        let affected: u64 = changes - so_far.before;
        let rows: Option<Vec<RowObject>> = if so_far.rows.len() == 0 {
            None
        } else {
            Some(so_far.rows)
        };
        BatchSummary { rows, total_millis, execution_millis, affected }
    }

    /// The reply, or the run where there is none yet.
    pub fn into_reply(self) -> (r: Result<BatchReply, Self>)
        ensures
            match r {
                Ok(reply) => self@ == BatchState::Done(reply@),
                Err(run) => run == self && !(self@ is Done),
            },
    {
        let BatchRun { sql, phase } = self;
        match phase {
            Phase::Done(reply) => Ok(reply),
            phase => Err(BatchRun { sql, phase }),
        }
    }
}

/// [`next`] for given statements.
pub open spec fn stepper(sql: Seq<char>) -> spec_fn(BatchState, Event) -> BatchState {
    |state: BatchState, event: Event| next(sql, state, event)
}

/// Where `events` take the statements, one after the other.
pub open spec fn run(sql: Seq<char>, state: BatchState, events: Seq<Event>) -> BatchState {
    fold::run(stepper(sql), state, events)
}

/// A statement by the names of its columns and the rows that it gives.
pub struct Told {
    pub names: Seq<String>,
    pub rows: Seq<Vec<Value>>,
}

/// Every row has a value for each column.
pub open spec fn is_whole(told: Told) -> bool {
    &&& told.names.len() <= usize::MAX
    &&& forall|i: int|
        0 <= i < told.rows.len() ==> (#[trigger] told.rows[i])@.len() == told.names.len()
}

/// What a connection tells of one statement.
pub open spec fn telling(told: Told) -> Seq<Event> {
    seq![Event::Prepared(told.names.len() as usize)] + told.names.map_values(
        |n: String| Event::ColumnName(n),
    ) + seq![Event::Queried] + told.rows.map_values(|r: Vec<Value>| Event::Row(r)) + seq![
        Event::Exhausted,
    ]
}

/// What a connection tells of `statements`, one after the other.
pub open spec fn telling_all(statements: Seq<Told>) -> Seq<Event>
    decreases statements.len(),
{
    if statements.len() == 0 {
        Seq::empty()
    } else {
        telling_all(statements.drop_last()) + telling(statements.last())
    }
}

/// The objects of the rows of one statement.
pub open spec fn objects(told: Told) -> Seq<Map<Seq<char>, Value>> {
    told.rows.map_values(|r: Vec<Value>| row::object(told.names, r@))
}

/// The objects of the rows of `statements`, in order.
pub open spec fn all_objects(statements: Seq<Told>) -> Seq<Map<Seq<char>, Value>>
    decreases statements.len(),
{
    if statements.len() == 0 {
        Seq::empty()
    } else {
        all_objects(statements.drop_last()) + objects(statements.last())
    }
}

proof fn run_names(sql: Seq<char>, so_far: Progress, count: nat, names: Seq<String>)
    requires
        names.len() <= count,
    ensures
        run(
            sql,
            named(so_far, count, Seq::empty()),
            names.map_values(|n: String| Event::ColumnName(n)),
        ) == named(so_far, count, names),
    decreases names.len(),
{
    let events = names.map_values(|n: String| Event::ColumnName(n));
    if names.len() == 0 {
        assert(names =~= Seq::empty());
    } else {
        let first = names.drop_last();
        run_names(sql, so_far, count, first);
        assert(events.drop_last() =~= first.map_values(|n: String| Event::ColumnName(n)));
        assert(first.push(names.last()) =~= names);
    }
}

/// `so_far` with `rows` more.
spec fn extended(so_far: Progress, rows: Seq<Map<Seq<char>, Value>>) -> Progress {
    Progress { rows: so_far.rows + rows, ..so_far }
}

proof fn run_rows(sql: Seq<char>, so_far: Progress, told: Told)
    requires
        is_whole(told),
    ensures
        run(
            sql,
            BatchState::Rows { so_far, names: told.names },
            told.rows.map_values(|r: Vec<Value>| Event::Row(r)),
        ) == (BatchState::Rows { so_far: extended(so_far, objects(told)), names: told.names }),
    decreases told.rows.len(),
{
    let events = told.rows.map_values(|r: Vec<Value>| Event::Row(r));
    if told.rows.len() == 0 {
        assert(so_far.rows + objects(told) =~= so_far.rows);
    } else {
        let first = Told { rows: told.rows.drop_last(), ..told };
        assert forall|i: int| 0 <= i < first.rows.len() implies (#[trigger] first.rows[i])@.len()
            == first.names.len() by {
            assert(told.rows[i]@.len() == told.names.len());
        }
        run_rows(sql, so_far, first);
        assert(events.drop_last() =~= first.rows.map_values(|r: Vec<Value>| Event::Row(r)));
        assert(told.rows[told.rows.len() - 1]@.len() == told.names.len());
        assert((so_far.rows + objects(first)).push(row::object(told.names, told.rows.last()@))
            =~= so_far.rows + objects(told));
    }
}

proof fn run_statement(sql: Seq<char>, so_far: Progress, told: Told)
    requires
        is_whole(told),
    ensures
        run(sql, BatchState::Next(so_far), telling(told)) == BatchState::Next(
            extended(so_far, objects(told)),
        ),
{
    let start = BatchState::Next(so_far);
    let names = told.names;
    let begin = seq![Event::Prepared(names.len() as usize)];
    let columns = names.map_values(|n: String| Event::ColumnName(n));
    let query = seq![Event::Queried];
    let fetched = told.rows.map_values(|r: Vec<Value>| Event::Row(r));
    let end = seq![Event::Exhausted];
    fold::run_one(stepper(sql), start, Event::Prepared(names.len() as usize));
    fold::run_concat(stepper(sql), start, begin, columns);
    run_names(sql, so_far, names.len(), names);
    fold::run_concat(stepper(sql), start, begin + columns, query);
    fold::run_one(stepper(sql), BatchState::Query { so_far, names }, Event::Queried);
    fold::run_concat(stepper(sql), start, begin + columns + query, fetched);
    run_rows(sql, so_far, told);
    fold::run_concat(stepper(sql), start, begin + columns + query + fetched, end);
    fold::run_one(stepper(sql),
        BatchState::Rows { so_far: extended(so_far, objects(told)), names },
        Event::Exhausted,
    );
}

proof fn run_statements(sql: Seq<char>, so_far: Progress, statements: Seq<Told>)
    requires
        forall|i: int| 0 <= i < statements.len() ==> is_whole(#[trigger] statements[i]),
    ensures
        run(sql, BatchState::Next(so_far), telling_all(statements)) == BatchState::Next(
            extended(so_far, all_objects(statements)),
        ),
    decreases statements.len(),
{
    let start = BatchState::Next(so_far);
    if statements.len() == 0 {
        assert(so_far.rows + all_objects(statements) =~= so_far.rows);
    } else {
        let first = statements.drop_last();
        assert forall|i: int| 0 <= i < first.len() implies is_whole(#[trigger] first[i]) by {
            assert(is_whole(statements[i]));
        }
        run_statements(sql, so_far, first);
        fold::run_concat(stepper(sql), start, telling_all(first), telling(statements.last()));
        assert(is_whole(statements[statements.len() - 1]));
        run_statement(sql, extended(so_far, all_objects(first)), statements.last());
        assert(so_far.rows + all_objects(first) + objects(statements.last()) =~= so_far.rows
            + all_objects(statements));
    }
}

/// What a connection tells of `statements`, from the first reading of clock and changes to the
/// last.
pub open spec fn success(
    setup: u128,
    before: u64,
    statements: Seq<Told>,
    nanos: u128,
    after: u64,
) -> Seq<Event> {
    seq![Event::Measured { nanos: setup, changes: before }] + telling_all(statements) + seq![
        Event::NoStatement,
    ] + seq![Event::Measured { nanos, changes: after }]
}

/// Statements that nothing stops reply the rows of all of them in order, or that there are
/// none, the time that all of it and that the statements took, and by how much the number of
/// rows changed grew.
pub proof fn batch_resolves(
    sql: Seq<char>,
    setup: u128,
    before: u64,
    statements: Seq<Told>,
    nanos: u128,
    after: u64,
)
    requires
        before <= after,
        forall|i: int| 0 <= i < statements.len() ==> is_whole(#[trigger] statements[i]),
    ensures
        run(sql, BatchState::MeasureBefore, success(setup, before, statements, nanos, after))
            == BatchState::Done(
            BatchOutcome::Resolved(
                Summary {
                    rows: if all_objects(statements).len() == 0 {
                        None
                    } else {
                        Some(all_objects(statements))
                    },
                    total_millis: millis(nanos as nat),
                    execution_millis: millis(elapsed(setup as nat, nanos as nat)),
                    affected: (after - before) as nat,
                },
            ),
        ),
{
    let start = BatchState::MeasureBefore;
    let begin = seq![Event::Measured { nanos: setup, changes: before }];
    let middle = telling_all(statements);
    let none = seq![Event::NoStatement];
    let end = seq![Event::Measured { nanos, changes: after }];
    let fresh = Progress { setup: setup as nat, before: before as nat, rows: Seq::empty() };
    fold::run_one(stepper(sql), start, Event::Measured { nanos: setup, changes: before });
    fold::run_concat(stepper(sql), start, begin, middle);
    run_statements(sql, fresh, statements);
    assert(fresh.rows + all_objects(statements) =~= all_objects(statements));
    let full = extended(fresh, all_objects(statements));
    fold::run_concat(stepper(sql), start, begin + middle, none);
    fold::run_one(stepper(sql), BatchState::Next(full), Event::NoStatement);
    fold::run_concat(stepper(sql), start, begin + middle + none, end);
    fold::run_one(stepper(sql), BatchState::MeasureAfter(full), Event::Measured { nanos, changes: after });
}

/// A failure of whatever can fail rejects the statements at once: none after it is run.
pub proof fn failure_rejects(sql: Seq<char>, state: BatchState, message: String)
    requires
        state is Next || state is Columns || state is Query || state is Rows,
    ensures
        next(sql, state, Event::Failed(message)) matches BatchState::Done(o) && o is Rejected,
{
}

/// A reply is final: no event changes it.
pub proof fn reply_is_final(sql: Seq<char>, outcome: BatchOutcome, later: Seq<Event>)
    ensures
        run(sql, BatchState::Done(outcome), later) == BatchState::Done(outcome),
{
    fold::run_stays(stepper(sql), BatchState::Done(outcome), later);
}

/// A failure is reported in its own words where a statement could not be prepared or a row not be
/// read. Where the name of a column could not be had, its place is said as well; where a
/// statement could not be run, the whole text.
pub proof fn failure_is_reported(sql: Seq<char>, state: BatchState, message: String)
    ensures
        ({
            let after = next(sql, state, Event::Failed(message));
            match state {
                BatchState::Next(so_far) => is_rejected_with(after, message@),
                BatchState::Columns { so_far, count, names } => is_rejected_with(after, 
                    "Failed to get column name for index"@ + text::decimal(names.len()) + ": "@
                        + message@,
                ),
                BatchState::Query { so_far, names } => is_rejected_with(after, 
                    "Failed to execute SQL: "@ + message@ + " - "@ + sql,
                ),
                BatchState::Rows { so_far, names } => is_rejected_with(after, message@),
                _ => after == state,
            }
        }),
{
}

/// The statements are done, and what they reply is `message`.
pub open spec fn is_rejected_with(state: BatchState, message: Seq<char>) -> bool {
    state matches BatchState::Done(BatchOutcome::Rejected(m)) && m == message
}

/// A reply is known by what it holds: each number by its own field, and each row by its object.
pub proof fn reply_is_its_contents(reply: BatchReply)
    ensures
        match reply {
            BatchReply::Resolved(s) => {
                &&& reply@ matches BatchOutcome::Resolved(contents)
                && contents.total_millis == s.total_millis && contents.execution_millis
                    == s.execution_millis && contents.affected == s.affected && (
                contents.rows is None <==> s.rows is None) && (s.rows is Some ==> {
                    &&& contents.rows->0.len() == s.rows->0@.len()
                    &&& forall|i: int|
                        0 <= i < s.rows->0@.len() ==> contents.rows->0[i] == (
                        #[trigger] s.rows->0@[i])@
                })
            },
            BatchReply::Rejected(message) => reply@ matches BatchOutcome::Rejected(m) && m
                == message@,
        },
{
}

} // verus!

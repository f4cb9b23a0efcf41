//! Requests carried out on a connection that answers what it is asked.
use crate::database::batch;
use crate::database::batch::BatchOutcome;
use crate::database::batch::BatchState;
use crate::database::batch::Progress;
use crate::database::batch::Summary;
use crate::database::batch::Told;
use crate::database::event::Action;
use crate::database::event::Event;
use crate::database::request;
use crate::database::request::RequestState;
use crate::database::row;
use crate::database::row::Value;
use crate::database::sequence;
use crate::database::sequence::SequenceOutcome;
use crate::database::sequence::SequenceState;
use crate::database::statement;
use crate::database::statement::StatementOutcome;
use crate::database::statement::StatementState;
use vstd::prelude::*;

verus! {

/// What a connection has to answer with: its statements, each with the names of its columns and
/// its rows, a clock that is read after so many answers, and the number of rows changed once so
/// many statements have run.
pub struct Script {
    pub statements: Seq<Told>,
    pub clock: spec_fn(nat) -> u128,
    pub changes: spec_fn(nat) -> u64,
}

/// How far a connection is: its answers so far, the statement that it prepared last, those that it
/// has run, in order, the rows of the last one that it has given, and the statements whose effects
/// are stored, or wait in an open transaction.
#[verifier::ext_equal]
pub struct Served {
    pub answers: nat,
    pub current: int,
    pub ran: Seq<int>,
    pub given: nat,
    pub stored: Seq<int>,
    pub open: Option<Seq<int>>,
}

/// A connection that was asked nothing.
pub open spec fn idle() -> Served {
    Served {
        answers: 0,
        current: -1,
        ran: Seq::empty(),
        given: 0,
        stored: Seq::empty(),
        open: None,
    }
}

/// The connection after an answer that changes nothing else.
pub open spec fn answered(c: Served) -> Served {
    Served { answers: c.answers + 1, ..c }
}

/// The connection after it ran the statement that it prepared last.
pub open spec fn run_current(c: Served) -> Served {
    Served {
        answers: c.answers + 1,
        ran: c.ran.push(c.current),
        given: 0,
        stored: if c.open is Some {
            c.stored
        } else {
            c.stored.push(c.current)
        },
        open: if c.open is Some {
            Some(c.open->0.push(c.current))
        } else {
            None
        },
        ..c
    }
}

/// What a connection on which nothing fails answers to `action`, and how far it is then.
pub open spec fn answer(script: Script, c: Served, action: Action) -> (Event, Served) {
    let now = script.statements[c.current];
    match action {
        Action::Lock => (Event::Locked, answered(c)),
        Action::Begin => (Event::Begun, Served { open: Some(c.stored), ..answered(c) }),
        Action::Measure => (
            Event::Measured {
                nanos: (script.clock)(c.answers),
                changes: (script.changes)(c.ran.len()),
            },
            answered(c),
        ),
        Action::CountChanges => (Event::Changes((script.changes)(c.ran.len())), answered(c)),
        Action::Prepare(i) => (
            Event::Prepared(script.statements[i as int].names.len() as usize),
            Served { current: i as int, ..answered(c) },
        ),
        Action::NextStatement => if c.current + 1 < script.statements.len() {
            (
                Event::Prepared(script.statements[c.current + 1].names.len() as usize),
                Served { current: c.current + 1, ..answered(c) },
            )
        } else {
            (Event::NoStatement, answered(c))
        },
        Action::ColumnName(i) => (Event::ColumnName(now.names[i as int]), answered(c)),
        Action::Execute => (Event::Executed, run_current(c)),
        Action::Query => (Event::Queried, run_current(c)),
        Action::NextRow => if c.given < now.rows.len() {
            (Event::Row(now.rows[c.given as int]), Served { given: c.given + 1, ..answered(c) })
        } else {
            (Event::Exhausted, answered(c))
        },
        Action::Commit => (
            Event::Committed,
            Served { stored: c.open->0, open: None, ..answered(c) },
        ),
        Action::Rollback => (Event::RolledBack, Served { open: None, ..answered(c) }),
        Action::Reply => (Event::NoStatement, c),
    }
}

/// Where a request and its connection are after `steps` questions and answers, or at the reply
/// if that comes before.
pub open spec fn talk<S>(
    asks: spec_fn(S) -> Action,
    next: spec_fn(S, Event) -> S,
    script: Script,
    state: S,
    c: Served,
    steps: nat,
) -> (S, Served)
    decreases steps,
{
    if steps == 0 || asks(state) == Action::Reply {
        (state, c)
    } else {
        let (event, d) = answer(script, c, asks(state));
        talk(asks, next, script, next(state, event), d, (steps - 1) as nat)
    }
}

proof fn talk_on<S>(
    asks: spec_fn(S) -> Action,
    next: spec_fn(S, Event) -> S,
    script: Script,
    state: S,
    c: Served,
    a: nat,
    b: nat,
)
    ensures
        talk(asks, next, script, state, c, a + b) == ({
            let (s, d) = talk(asks, next, script, state, c, a);
            talk(asks, next, script, s, d, b)
        }),
    decreases a,
{
    if a > 0 && asks(state) != Action::Reply {
        let (event, d) = answer(script, c, asks(state));
        talk_on(asks, next, script, next(state, event), d, (a - 1) as nat, b);
        assert((a + b - 1) as nat == (a - 1) as nat + b);
    }
}

/// What a statement asks for.
pub open spec fn statement_asks() -> spec_fn(StatementState) -> Action {
    |s: StatementState| statement::wanted(s)
}

/// What the statements of a list ask for.
pub open spec fn sequence_asks() -> spec_fn(SequenceState) -> Action {
    |s: SequenceState| sequence::wanted(s)
}

/// What a request asks for.
pub open spec fn request_asks() -> spec_fn(RequestState) -> Action {
    |s: RequestState| request::wanted(s)
}

/// The connection after `n` answers that change nothing else.
spec fn later(c: Served, n: nat) -> Served {
    Served { answers: c.answers + n, ..c }
}

proof fn statement_reads_names(
    sql: Seq<char>,
    script: Script,
    c: Served,
    names: Seq<String>,
    k: nat,
)
    requires
        0 <= c.current < script.statements.len(),
        names == script.statements[c.current].names,
        names.len() <= usize::MAX,
        k <= names.len(),
    ensures
        talk(
            statement_asks(),
            statement::stepper(sql),
            script,
            statement::named(names.len(), names.take(k as int)),
            c,
            (names.len() - k) as nat,
        ) == (StatementState::CountBefore { names }, later(c, (names.len() - k) as nat)),
    decreases names.len() - k,
{
    if k < names.len() {
        assert(names.take(k as int).push(names[k as int]) =~= names.take((k + 1) as int));
        statement_reads_names(sql, script, answered(c), names, k + 1);
    } else {
        assert(names.take(k as int) =~= names);
    }
}

proof fn statement_reads_rows(
    sql: Seq<char>,
    script: Script,
    c: Served,
    told: Told,
    before: nat,
    k: nat,
)
    requires
        0 <= c.current < script.statements.len(),
        told == script.statements[c.current],
        batch::is_whole(told),
        c.given == k <= told.rows.len(),
    ensures
        talk(
            statement_asks(),
            statement::stepper(sql),
            script,
            StatementState::Rows {
                names: told.names,
                before,
                rows: batch::objects(told).take(k as int),
            },
            c,
            (told.rows.len() - k + 1) as nat,
        ) == (
            StatementState::CountAfter { before, rows: batch::objects(told) },
            Served { given: told.rows.len(), ..later(c, (told.rows.len() - k + 1) as nat) },
        ),
    decreases told.rows.len() - k,
{
    let all = batch::objects(told);
    if k < told.rows.len() {
        assert(told.rows[k as int]@.len() == told.names.len());
        assert(all.take(k as int).push(row::object(told.names, told.rows[k as int]@))
            =~= all.take((k + 1) as int));
        statement_reads_rows(
            sql,
            script,
            Served { given: k + 1, ..answered(c) },
            told,
            before,
            k + 1,
        );
    } else {
        assert(all.take(k as int) =~= all);
        reveal_with_fuel(talk, 2);
    }
}

/// A single statement is carried out: on a connection that answers what it is asked, it is run
/// once, and replies its rows in order, each as the object of its own column names and values,
/// and by how much the number of rows changed grew while it ran.
pub proof fn statement_is_carried_out(sql: Seq<char>, script: Script) -> (steps: nat)
    requires
        script.statements.len() == 1,
        batch::is_whole(script.statements[0]),
        (script.changes)(0) <= (script.changes)(1),
    ensures
        ({
            let (state, c) = talk(
                statement_asks(),
                statement::stepper(sql),
                script,
                StatementState::Lock,
                idle(),
                steps,
            );
            &&& c.ran == seq![0int]
            &&& c.stored == seq![0int]
            &&& state matches StatementState::Done(StatementOutcome::Resolved { affected, rows })
            && affected == (script.changes)(1) - (script.changes)(0) && are_objects_of(
                rows,
                script.statements[0],
            )
        }),
{
    let told = script.statements[0];
    let names = told.names;
    let (n, m) = (names.len(), told.rows.len());
    let (asks, next) = (statement_asks(), statement::stepper(sql));
    let start = StatementState::Lock;
    let before = (script.changes)(0) as nat;
    reveal_with_fuel(talk, 3);
    // Lock and prepare.
    let c2 = Served { current: 0, ..later(idle(), 2) };
    let s2 = statement::named(n, Seq::empty());
    assert(talk(asks, next, script, start, idle(), 2) == (s2, c2));
    // The names.
    assert(names.take(0) =~= Seq::empty());
    statement_reads_names(sql, script, c2, names, 0);
    talk_on(asks, next, script, start, idle(), 2, n);
    // Count and query.
    let c3 = later(c2, n);
    let c4 = run_current(answered(c3));
    let s4 = StatementState::Rows { names, before, rows: Seq::empty() };
    assert(talk(asks, next, script, StatementState::CountBefore { names }, c3, 2) == (s4, c4));
    talk_on(asks, next, script, start, idle(), 2 + n, 2);
    // The rows.
    assert(batch::objects(told).take(0) =~= Seq::empty());
    statement_reads_rows(sql, script, c4, told, before, 0);
    talk_on(asks, next, script, start, idle(), 2 + n + 2, m + 1);
    // Count again.
    let c5 = Served { given: m, ..later(c4, m + 1) };
    let s5 = StatementState::CountAfter { before, rows: batch::objects(told) };
    assert(c5.ran =~= seq![0int]);
    assert(c5.stored =~= seq![0int]);
    let counted = Event::Changes((script.changes)(1));
    assert(talk(asks, next, script, s5, c5, 1) == (
        statement::next(sql, s5, counted),
        answered(c5),
    ));
    talk_on(asks, next, script, start, idle(), 2 + n + 2 + (m + 1), 1);
    objects_are_of(told);
    2 + n + 2 + (m + 1) + 1
}

/// `rows` are the rows of `told` in order, each with the names of the columns as its names, and
/// under each name the value of the last column of that name.
pub open spec fn are_objects_of(rows: Seq<Map<Seq<char>, Value>>, told: Told) -> bool {
    &&& rows.len() == told.rows.len()
    &&& forall|i: int|
        0 <= i < rows.len() ==> is_object_of(#[trigger] rows[i], told.names, told.rows[i]@)
}

/// `object` has a value for each of `names` and for nothing else: that of the last column of the
/// name.
pub open spec fn is_object_of(
    object: Map<Seq<char>, Value>,
    names: Seq<String>,
    values: Seq<Value>,
) -> bool {
    &&& forall|name: Seq<char>| #[trigger]
        object.contains_key(name) <==> exists|j: int|
            0 <= j < names.len() && (#[trigger] names[j])@ == name
    &&& forall|j: int|
        0 <= j < names.len() && is_last_of_its_name(names, j) ==> object[(#[trigger] names[j])@]
            == values[j]
}

/// No later column has the name of column `j`.
pub open spec fn is_last_of_its_name(names: Seq<String>, j: int) -> bool {
    forall|k: int| j < k < names.len() ==> (#[trigger] names[k])@ != names[j]@
}

proof fn objects_are_of(told: Told)
    requires
        batch::is_whole(told),
    ensures
        are_objects_of(batch::objects(told), told),
{
    let rows = batch::objects(told);
    assert forall|i: int| 0 <= i < rows.len() implies is_object_of(
        #[trigger] rows[i],
        told.names,
        told.rows[i]@,
    ) by {
        assert(told.rows[i]@.len() == told.names.len());
        row_object_is_of(told.names, told.rows[i]@);
    }
}

/// The object of a row is that of its names and values.
pub proof fn row_object_is_of(names: Seq<String>, values: Seq<Value>)
    requires
        names.len() == values.len(),
    ensures
        is_object_of(row::object(names, values), names, values),
{
    let object = row::object(names, values);
    assert forall|name: Seq<char>| #[trigger] object.contains_key(name) <==> exists|j: int|
        0 <= j < names.len() && (#[trigger] names[j])@ == name by {
        row::object_has_every_column(names, values, name);
    }
    assert forall|j: int| 0 <= j < names.len() && is_last_of_its_name(names, j) implies object[(
    #[trigger] names[j])@] == values[j] by {
        row::last_column_wins(names, values, j);
    }
}

/// The numbers from zero up to `n`, which is left out.
pub open spec fn up_to(n: nat) -> Seq<int> {
    Seq::new(n, |i: int| i)
}

/// How many rows the first `count` statements have together.
pub open spec fn rows_before(statements: Seq<Told>, count: nat) -> nat
    decreases count,
{
    if count == 0 {
        0
    } else {
        rows_before(statements, (count - 1) as nat) + statements[count - 1].rows.len()
    }
}

/// `rows` are the rows of all statements, those of an earlier statement before those of a later
/// one, each as the object of the names and values of its own statement.
pub open spec fn are_rows_of_all(
    rows: Seq<Map<Seq<char>, Value>>,
    statements: Seq<Told>,
    count: nat,
) -> bool {
    &&& rows.len() == rows_before(statements, count)
    &&& forall|i: int, j: int|
        0 <= i < count && 0 <= j < statements[i].rows.len() ==> is_object_of(
            rows[rows_before(statements, i as nat) + j],
            statements[i].names,
            #[trigger] statements[i].rows[j]@,
        )
}

/// The objects of the rows of the first `count` statements, in order.
spec fn collected(statements: Seq<Told>, count: nat) -> Seq<Map<Seq<char>, Value>>
    decreases count,
{
    if count == 0 {
        Seq::empty()
    } else {
        collected(statements, (count - 1) as nat) + batch::objects(statements[count - 1])
    }
}

proof fn rows_before_grow(statements: Seq<Told>, a: nat, b: nat)
    requires
        a < b,
    ensures
        rows_before(statements, a) + statements[a as int].rows.len() <= rows_before(statements, b),
    decreases b,
{
    if a + 1 < b {
        rows_before_grow(statements, a, (b - 1) as nat);
    }
}

proof fn collected_rows(statements: Seq<Told>, count: nat)
    requires
        count <= statements.len(),
        forall|i: int| 0 <= i < statements.len() ==> batch::is_whole(#[trigger] statements[i]),
    ensures
        are_rows_of_all(collected(statements, count), statements, count),
    decreases count,
{
    if count > 0 {
        let n = (count - 1) as nat;
        let rows = collected(statements, count);
        let earlier = collected(statements, n);
        let told = statements[n as int];
        collected_rows(statements, n);
        objects_are_of(told);
        assert forall|i: int, j: int|
            0 <= i < count && 0 <= j < statements[i].rows.len() implies is_object_of(
            rows[rows_before(statements, i as nat) + j],
            statements[i].names,
            #[trigger] statements[i].rows[j]@,
        ) by {
            let at = rows_before(statements, i as nat) + j;
            if i < n {
                rows_before_grow(statements, i as nat, n);
                assert(rows[at] == earlier[at]);
            } else {
                assert(rows[at] == batch::objects(told)[j]);
            }
        }
    }
}

proof fn request_reads_names(
    transaction: bool,
    sql: Seq<char>,
    script: Script,
    c: Served,
    so_far: Progress,
    names: Seq<String>,
    k: nat,
)
    requires
        0 <= c.current < script.statements.len(),
        names == script.statements[c.current].names,
        names.len() <= usize::MAX,
        k <= names.len(),
    ensures
        talk(
            request_asks(),
            request::stepper(transaction, sql),
            script,
            RequestState::Batch(batch::named(so_far, names.len(), names.take(k as int))),
            c,
            (names.len() - k) as nat,
        ) == (
            RequestState::Batch(BatchState::Query { so_far, names }),
            later(c, (names.len() - k) as nat),
        ),
    decreases names.len() - k,
{
    if k < names.len() {
        assert(names.take(k as int).push(names[k as int]) =~= names.take((k + 1) as int));
        request_reads_names(transaction, sql, script, answered(c), so_far, names, k + 1);
    } else {
        assert(names.take(k as int) =~= names);
    }
}

/// `so_far` with `rows` in place of its own.
spec fn with_rows(so_far: Progress, rows: Seq<Map<Seq<char>, Value>>) -> Progress {
    Progress { rows, ..so_far }
}

proof fn request_reads_rows(
    transaction: bool,
    sql: Seq<char>,
    script: Script,
    c: Served,
    so_far: Progress,
    told: Told,
    k: nat,
)
    requires
        0 <= c.current < script.statements.len(),
        told == script.statements[c.current],
        batch::is_whole(told),
        c.given == k <= told.rows.len(),
    ensures
        talk(
            request_asks(),
            request::stepper(transaction, sql),
            script,
            RequestState::Batch(
                BatchState::Rows {
                    so_far: with_rows(
                        so_far,
                        so_far.rows + batch::objects(told).take(k as int),
                    ),
                    names: told.names,
                },
            ),
            c,
            (told.rows.len() - k + 1) as nat,
        ) == (
            RequestState::Batch(
                BatchState::Next(with_rows(so_far, so_far.rows + batch::objects(told))),
            ),
            Served { given: told.rows.len(), ..later(c, (told.rows.len() - k + 1) as nat) },
        ),
    decreases told.rows.len() - k,
{
    let all = batch::objects(told);
    if k < told.rows.len() {
        assert(told.rows[k as int]@.len() == told.names.len());
        assert((so_far.rows + all.take(k as int)).push(
            row::object(told.names, told.rows[k as int]@),
        ) =~= so_far.rows + all.take((k + 1) as int));
        request_reads_rows(
            transaction,
            sql,
            script,
            Served { given: k + 1, ..answered(c) },
            so_far,
            told,
            k + 1,
        );
    } else {
        assert(all.take(k as int) =~= all);
        reveal_with_fuel(talk, 2);
    }
}

/// The first `n` statements have run, and their effects are stored, or wait in the transaction
/// that is open.
spec fn has_run(c: Served, n: nat) -> bool {
    &&& c.current == n - 1
    &&& c.ran == up_to(n)
    &&& match c.open {
        Some(open) => open == up_to(n) && c.stored == Seq::<int>::empty(),
        None => c.stored == up_to(n),
    }
}

/// One statement of a text, from its preparation to the end of its rows.
proof fn request_runs_statement(
    transaction: bool,
    sql: Seq<char>,
    script: Script,
    c: Served,
    so_far: Progress,
    i: nat,
) -> (r: (Served, nat))
    requires
        i < script.statements.len(),
        batch::is_whole(script.statements[i as int]),
        has_run(c, i),
    ensures
        talk(
            request_asks(),
            request::stepper(transaction, sql),
            script,
            RequestState::Batch(BatchState::Next(so_far)),
            c,
            r.1,
        ) == (
            RequestState::Batch(
                BatchState::Next(
                    with_rows(
                        so_far,
                        so_far.rows + batch::objects(script.statements[i as int]),
                    ),
                ),
            ),
            r.0,
        ),
        has_run(r.0, i + 1),
        r.0.open is Some <==> c.open is Some,
        r.0.answers == c.answers + r.1,
{
    let told = script.statements[i as int];
    let names = told.names;
    let (n, m) = (names.len(), told.rows.len());
    let (asks, next) = (request_asks(), request::stepper(transaction, sql));
    let start = RequestState::Batch(BatchState::Next(so_far));
    reveal_with_fuel(talk, 2);
    let c1 = Served { current: i as int, ..answered(c) };
    let s1 = RequestState::Batch(batch::named(so_far, n, Seq::empty()));
    assert(talk(asks, next, script, start, c, 1) == (s1, c1));
    assert(names.take(0) =~= Seq::empty());
    request_reads_names(transaction, sql, script, c1, so_far, names, 0);
    talk_on(asks, next, script, start, c, 1, n);
    let c2 = later(c1, n);
    let c3 = run_current(c2);
    let s2 = RequestState::Batch(BatchState::Query { so_far, names });
    let s3 = RequestState::Batch(BatchState::Rows { so_far, names });
    assert(talk(asks, next, script, s2, c2, 1) == (s3, c3));
    talk_on(asks, next, script, start, c, 1 + n, 1);
    assert(so_far.rows + batch::objects(told).take(0) =~= so_far.rows);
    assert(with_rows(so_far, so_far.rows) == so_far);
    request_reads_rows(transaction, sql, script, c3, so_far, told, 0);
    talk_on(asks, next, script, start, c, 1 + n + 1, m + 1);
    let end = Served { given: m, ..later(c3, m + 1) };
    assert(up_to(i).push(i as int) =~= up_to(i + 1));
    (end, 1 + n + 1 + (m + 1))
}

/// The statements of a text from the one at `i` on.
proof fn request_runs_statements(
    transaction: bool,
    sql: Seq<char>,
    script: Script,
    c: Served,
    so_far: Progress,
    i: nat,
) -> (r: (Served, nat))
    requires
        i <= script.statements.len(),
        forall|k: int|
            0 <= k < script.statements.len() ==> batch::is_whole(#[trigger] script.statements[k]),
        has_run(c, i),
        so_far.rows == collected(script.statements, i),
    ensures
        talk(
            request_asks(),
            request::stepper(transaction, sql),
            script,
            RequestState::Batch(BatchState::Next(so_far)),
            c,
            r.1,
        ) == (
            RequestState::Batch(
                BatchState::Next(
                    with_rows(so_far, collected(script.statements, script.statements.len())),
                ),
            ),
            r.0,
        ),
        has_run(r.0, script.statements.len()),
        r.0.open is Some <==> c.open is Some,
        r.0.answers == c.answers + r.1,
    decreases script.statements.len() - i,
{
    let (asks, next) = (request_asks(), request::stepper(transaction, sql));
    let start = RequestState::Batch(BatchState::Next(so_far));
    if i < script.statements.len() {
        let (d, a) = request_runs_statement(transaction, sql, script, c, so_far, i);
        let further = with_rows(
            so_far,
            so_far.rows + batch::objects(script.statements[i as int]),
        );
        let (e, b) = request_runs_statements(transaction, sql, script, d, further, i + 1);
        talk_on(asks, next, script, start, c, a, b);
        (e, a + b)
    } else {
        assert(with_rows(so_far, so_far.rows) == so_far);
        (c, 0)
    }
}

/// The statements from the first reading of the clock to the last.
proof fn request_runs_text(
    transaction: bool,
    sql: Seq<char>,
    script: Script,
    c: Served,
) -> (r: (Served, nat))
    requires
        forall|k: int|
            0 <= k < script.statements.len() ==> batch::is_whole(#[trigger] script.statements[k]),
        (script.changes)(0) <= (script.changes)(script.statements.len()),
        has_run(c, 0),
    ensures
        ({
            let full = Progress {
                setup: (script.clock)(c.answers) as nat,
                before: (script.changes)(0) as nat,
                rows: collected(script.statements, script.statements.len()),
            };
            talk(
                request_asks(),
                request::stepper(transaction, sql),
                script,
                RequestState::Batch(BatchState::MeasureBefore),
                c,
                r.1,
            ) == (
                request::settled(
                    transaction,
                    BatchState::Done(
                        BatchOutcome::Resolved(
                            batch::summary(
                                full,
                                (script.clock)((r.0.answers - 1) as nat) as nat,
                                (script.changes)(script.statements.len()) as nat,
                            ),
                        ),
                    ),
                ),
                r.0,
            )
        }),
        has_run(r.0, script.statements.len()),
        r.0.open is Some <==> c.open is Some,
        r.0.answers == c.answers + r.1,
        r.0.answers > c.answers + 1,
{
    let (asks, next) = (request_asks(), request::stepper(transaction, sql));
    let start = RequestState::Batch(BatchState::MeasureBefore);
    let fresh = Progress {
        setup: (script.clock)(c.answers) as nat,
        before: (script.changes)(0) as nat,
        rows: Seq::empty(),
    };
    reveal_with_fuel(talk, 3);
    let s1 = RequestState::Batch(BatchState::Next(fresh));
    assert(c.ran.len() == 0);
    assert(talk(asks, next, script, start, c, 1) == (s1, answered(c)));
    let (d, a) = request_runs_statements(transaction, sql, script, answered(c), fresh, 0);
    talk_on(asks, next, script, start, c, 1, a);
    let full = with_rows(fresh, collected(script.statements, script.statements.len()));
    let s2 = RequestState::Batch(BatchState::Next(full));
    let s3 = RequestState::Batch(BatchState::MeasureAfter(full));
    assert(talk(asks, next, script, s2, d, 1) == (s3, answered(d)));
    assert(d.ran.len() == script.statements.len());
    talk_on(asks, next, script, start, c, 1 + a, 1);
    let end = later(d, 2);
    assert(answered(answered(d)) == end);
    talk_on(asks, next, script, start, c, 1 + a + 1, 1);
    (end, 1 + a + 1 + 1)
}

/// The statements of a text are carried out: on a connection that answers what it is asked, each
/// is run once, in order, and the reply has the rows of all of them, or says that there are none.
/// The times are whole milliseconds, from the beginning to the end and from the first statement
/// to the end, and the number of rows changed is by how much it grew.
pub proof fn text_is_carried_out(sql: Seq<char>, script: Script) -> (r: (Served, nat))
    requires
        forall|k: int|
            0 <= k < script.statements.len() ==> batch::is_whole(#[trigger] script.statements[k]),
        (script.changes)(0) <= (script.changes)(script.statements.len()),
        forall|a: nat, b: nat|
            a <= b ==> #[trigger] (script.clock)(a) <= #[trigger] (script.clock)(b),
    ensures
        ({
            let (state, c) = talk(
                request_asks(),
                request::stepper(false, sql),
                script,
                RequestState::Lock,
                idle(),
                r.1,
            );
            let (begun, ended) = ((script.clock)(1), (script.clock)((c.answers - 1) as nat));
            &&& c == r.0
            &&& c.ran == up_to(script.statements.len())
            &&& c.stored == up_to(script.statements.len())
            &&& c.open is None
            &&& state matches RequestState::Done(BatchOutcome::Resolved(summary))
            && is_summary(summary, script, begun as nat, ended as nat)
        }),
{
    let (asks, next) = (request_asks(), request::stepper(false, sql));
    let start = RequestState::Lock;
    let c1 = answered(idle());
    assert(up_to(0) =~= Seq::empty());
    reveal_with_fuel(talk, 2);
    assert(talk(asks, next, script, start, idle(), 1) == (
        RequestState::Batch(BatchState::MeasureBefore),
        c1,
    ));
    let (d, a) = request_runs_text(false, sql, script, c1);
    talk_on(asks, next, script, start, idle(), 1, a);
    collected_rows(script.statements, script.statements.len());
    (d, 1 + a)
}

/// What is replied of all statements of `script`, of which the first began at `begun` and the
/// last ended at `ended`, in nanoseconds.
pub open spec fn is_summary(summary: Summary, script: Script, begun: nat, ended: nat) -> bool {
    let count = script.statements.len();
    &&& summary.rows is None <==> rows_before(script.statements, count) == 0
    &&& summary.rows is Some ==> are_rows_of_all(summary.rows->0, script.statements, count)
    &&& summary.total_millis == (ended / 1_000_000) % 4_294_967_296
    &&& summary.execution_millis == ((ended - begun) / 1_000_000) % 4_294_967_296
    &&& summary.affected == (script.changes)(count) - (script.changes)(0)
}

/// A transaction is carried out: on a connection that answers what it is asked, the statements are
/// run once, in order, between a begin and a commit. The effects of all of them are stored, and
/// the reply is what the statements reply on their own.
pub proof fn transaction_is_carried_out(sql: Seq<char>, script: Script) -> (r: (Served, nat))
    requires
        forall|k: int|
            0 <= k < script.statements.len() ==> batch::is_whole(#[trigger] script.statements[k]),
        (script.changes)(0) <= (script.changes)(script.statements.len()),
        forall|a: nat, b: nat|
            a <= b ==> #[trigger] (script.clock)(a) <= #[trigger] (script.clock)(b),
    ensures
        ({
            let (state, c) = talk(
                request_asks(),
                request::stepper(true, sql),
                script,
                RequestState::Lock,
                idle(),
                r.1,
            );
            let (begun, ended) = ((script.clock)(2), (script.clock)((c.answers - 2) as nat));
            &&& c == r.0
            &&& c.ran == up_to(script.statements.len())
            &&& c.stored == up_to(script.statements.len())
            &&& c.open is None
            &&& state matches RequestState::Done(BatchOutcome::Resolved(summary))
            && is_summary(summary, script, begun as nat, ended as nat)
        }),
        ({
            // Nothing is stored before the commit, which is the last thing that is asked.
            let (state, c) = talk(
                request_asks(),
                request::stepper(true, sql),
                script,
                RequestState::Lock,
                idle(),
                (r.1 - 1) as nat,
            );
            &&& c.stored.len() == 0
            &&& c.open == Some(up_to(script.statements.len()))
            &&& request::wanted(state) == Action::Commit
        }),
{
    let (asks, next) = (request_asks(), request::stepper(true, sql));
    let start = RequestState::Lock;
    let c2 = Served { open: Some(Seq::empty()), ..later(idle(), 2) };
    assert(up_to(0) =~= Seq::empty());
    reveal_with_fuel(talk, 3);
    assert(talk(asks, next, script, start, idle(), 2) == (
        RequestState::Batch(BatchState::MeasureBefore),
        c2,
    ));
    let (d, a) = request_runs_text(true, sql, script, c2);
    talk_on(asks, next, script, start, idle(), 2, a);
    collected_rows(script.statements, script.statements.len());
    let (s, e) = talk(asks, next, script, start, idle(), 2 + a);
    assert(e == d && s is Commit);
    talk_on(asks, next, script, start, idle(), 2 + a, 1);
    let end = Served { stored: d.open->0, open: None, ..answered(d) };
    assert(talk(asks, next, script, s, d, 1).1 == end);
    (end, 2 + a + 1)
}

proof fn sequence_runs_effects(sqls: Seq<String>, script: Script, c: Served, i: nat) -> (steps: nat)
    requires
        sqls.len() == script.statements.len(),
        i < sqls.len() <= usize::MAX,
        has_run(c, i),
        c.open is None,
    ensures
        ({
            let (state, d) = talk(
                sequence_asks(),
                sequence::stepper(sqls),
                script,
                SequenceState::Prepare(i),
                c,
                steps,
            );
            &&& state == SequenceState::Prepare((sqls.len() - 1) as nat)
            &&& has_run(d, (sqls.len() - 1) as nat)
            &&& d.open is None
        }),
    decreases sqls.len() - i,
{
    let (asks, next) = (sequence_asks(), sequence::stepper(sqls));
    if i + 1 < sqls.len() {
        reveal_with_fuel(talk, 3);
        let c1 = Served { current: i as int, ..answered(c) };
        let c2 = run_current(c1);
        assert(talk(asks, next, script, SequenceState::Prepare(i), c, 2) == (
            SequenceState::Prepare(i + 1),
            c2,
        ));
        assert(up_to(i).push(i as int) =~= up_to(i + 1));
        let rest = sequence_runs_effects(sqls, script, c2, i + 1);
        talk_on(asks, next, script, SequenceState::Prepare(i), c, 2, rest);
        2 + rest
    } else {
        0
    }
}

proof fn sequence_reads_rows(sqls: Seq<String>, script: Script, c: Served, told: Told, k: nat)
    requires
        0 <= c.current < script.statements.len(),
        told == script.statements[c.current],
        batch::is_whole(told),
        c.given == k <= told.rows.len(),
    ensures
        talk(
            sequence_asks(),
            sequence::stepper(sqls),
            script,
            SequenceState::Rows {
                columns: told.names.len(),
                rows: sequence::listed(told.rows).take(k as int),
            },
            c,
            (told.rows.len() - k + 1) as nat,
        ) == (
            SequenceState::Done(sequence::outcome(sequence::listed(told.rows))),
            Served { given: told.rows.len(), ..later(c, (told.rows.len() - k + 1) as nat) },
        ),
    decreases told.rows.len() - k,
{
    let all = sequence::listed(told.rows);
    if k < told.rows.len() {
        assert(told.rows[k as int]@.len() == told.names.len());
        assert(all.take(k as int).push(told.rows[k as int]@) =~= all.take((k + 1) as int));
        sequence_reads_rows(sqls, script, Served { given: k + 1, ..answered(c) }, told, k + 1);
    } else {
        assert(all.take(k as int) =~= all);
        reveal_with_fuel(talk, 2);
    }
}

/// The statements of a list are carried out: on a connection that answers what it is asked, each
/// is run once, in order, and the reply has the rows of the last one in order, each as the values
/// of its columns, or says that there are none.
pub proof fn list_is_carried_out(sqls: Seq<String>, script: Script) -> (steps: nat)
    requires
        sqls.len() == script.statements.len() <= usize::MAX,
        forall|k: int|
            0 <= k < script.statements.len() ==> batch::is_whole(#[trigger] script.statements[k]),
    ensures
        ({
            let (state, c) = talk(
                sequence_asks(),
                sequence::stepper(sqls),
                script,
                SequenceState::Lock,
                idle(),
                steps,
            );
            let last = script.statements.last().rows;
            &&& c.ran == up_to(sqls.len())
            &&& c.stored == up_to(sqls.len())
            &&& state matches SequenceState::Done(SequenceOutcome::Resolved(rows)) && {
                &&& rows is None <==> sqls.len() == 0 || last.len() == 0
                &&& rows is Some ==> rows->0.len() == last.len() && forall|i: int|
                    0 <= i < last.len() ==> rows->0[i] == (#[trigger] last[i])@
            }
        }),
{
    let (asks, next) = (sequence_asks(), sequence::stepper(sqls));
    let start = SequenceState::Lock;
    let c1 = answered(idle());
    assert(up_to(0) =~= Seq::empty());
    reveal_with_fuel(talk, 3);
    if sqls.len() == 0 {
        1
    } else {
        let told = script.statements.last();
        let n = (sqls.len() - 1) as nat;
        assert(batch::is_whole(script.statements[n as int]));
        assert(talk(asks, next, script, start, idle(), 1) == (SequenceState::Prepare(0), c1));
        let a = sequence_runs_effects(sqls, script, c1, 0);
        talk_on(asks, next, script, start, idle(), 1, a);
        let (s2, c2) = talk(asks, next, script, SequenceState::Prepare(0), c1, a);
        let c3 = run_current(Served { current: n as int, ..answered(c2) });
        let s3 = SequenceState::Rows { columns: told.names.len(), rows: Seq::empty() };
        assert(talk(asks, next, script, s2, c2, 2) == (s3, c3));
        talk_on(asks, next, script, start, idle(), 1 + a, 2);
        assert(up_to(n).push(n as int) =~= up_to(n + 1));
        assert(sequence::listed(told.rows).take(0) =~= Seq::empty());
        sequence_reads_rows(sqls, script, c3, told, 0);
        talk_on(asks, next, script, start, idle(), 1 + a + 2, told.rows.len() + 1);
        1 + a + 2 + (told.rows.len() + 1)
    }
}

} // verus!

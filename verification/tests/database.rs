use orpheus_native::database::batch::{BatchReply, BatchRun};
use orpheus_native::database::connection::{parameter_name, Database, OpenCall};
use orpheus_native::database::event::{Action, Event};
use orpheus_native::database::request::RequestRun;
use orpheus_native::database::row::{row_object, RowObject, Value};
use orpheus_native::database::sequence::SequenceReply;
use orpheus_native::database::statement::{Parameters, StatementReply, StatementRun};
use rusqlite::fallible_iterator::FallibleIterator;
use rusqlite::types::ValueRef;
use rusqlite::Connection;

fn text(s: &str) -> Value {
    Value::Text(s.to_string())
}

fn show(value: Option<&Value>) -> String {
    match value {
        None => "-".to_string(),
        Some(Value::Null) => "null".to_string(),
        Some(Value::Integer(i)) => format!("{i}"),
        Some(Value::Real(bits)) => format!("{:?}", f64::from_bits(*bits)),
        Some(Value::Text(s)) => format!("'{s}'"),
        Some(Value::Blob(b)) => format!("{b:?}"),
    }
}

fn cell(row: &RowObject, name: &str) -> String {
    show(row.get(&name.to_string()))
}

fn names(list: &[&str]) -> Vec<String> {
    list.iter().map(|n| n.to_string()).collect()
}

#[test]
fn a_row_is_an_object_of_its_columns() {
    let row = row_object(&names(&["a", "b"]), vec![Value::Integer(1), text("x")]);
    assert_eq!(cell(&row, "a"), "1");
    assert_eq!(cell(&row, "b"), "'x'");
    assert_eq!(cell(&row, "c"), "-");
    assert_eq!(row.entries().len(), 2);
    assert!(RowObject::new().entries().is_empty());
}

#[test]
fn the_last_of_equal_columns_stays() {
    let row = row_object(
        &names(&["a", "b", "a"]),
        vec![Value::Integer(1), Value::Null, Value::Blob(vec![7])],
    );
    assert_eq!(row.entries().len(), 2);
    assert_eq!(cell(&row, "a"), "[7]");
    assert_eq!(cell(&row, "b"), "null");
    let row = row.with("b".to_string(), Value::Real(0.5f64.to_bits()));
    assert_eq!(cell(&row, "b"), "0.5");
}

#[test]
fn parameters_get_a_mark() {
    for (key, name) in [
        ("id", ":id"),
        (":id", ":id"),
        ("@id", "@id"),
        ("$id", "$id"),
        ("", ":"),
        ("?1", ":?1"),
        ("i:d", ":i:d"),
        ("\u{e9}t\u{e9}", ":\u{e9}t\u{e9}"),
    ] {
        assert_eq!(parameter_name(key.to_string()), name);
    }
}

#[test]
fn opening_registers_the_collations() {
    let (database, steps) = Database::new("/tmp/library.db".to_string());
    assert_eq!(database.workers(), 1);
    let shown: Vec<(String, bool)> = steps
        .iter()
        .map(|step| {
            let call = match &step.call {
                OpenCall::Open(path) => format!("open {path}"),
                OpenCall::CreateCollation { name, reversed } => format!("{name} {reversed}"),
            };
            (call, step.required)
        })
        .collect();
    assert_eq!(
        shown,
        vec![
            ("open /tmp/library.db".to_string(), true),
            ("pinyin_desc true".to_string(), false),
            ("pinyin_asc false".to_string(), false),
        ]
    );
}

fn database() -> Database {
    Database::new(":memory:".to_string()).0
}

#[test]
fn a_statement_replies_its_rows() {
    let mut run = database().exec("SELECT 1".to_string(), vec![Value::Integer(4)]);
    assert_eq!(run.sql(), "SELECT 1");
    assert!(matches!(run.parameters(), Parameters::Positional(p) if p.len() == 1));
    let script = [
        (Action::Lock, Event::Locked),
        (Action::Prepare(0), Event::Prepared(2)),
        (Action::ColumnName(0), Event::ColumnName("a".to_string())),
        (Action::ColumnName(1), Event::ColumnName("b".to_string())),
        (Action::CountChanges, Event::Changes(10)),
        (Action::Query, Event::Queried),
        (Action::NextRow, Event::Row(vec![Value::Integer(1), Value::Null])),
        (Action::NextRow, Event::Row(vec![Value::Integer(2), text("t")])),
        (Action::NextRow, Event::Exhausted),
        (Action::CountChanges, Event::Changes(13)),
    ];
    for (action, event) in script {
        assert_eq!(run.action(), action);
        run = run.step(event);
    }
    assert_eq!(run.action(), Action::Reply);
    run = run.step(Event::Failed("late".to_string()));
    match run.into_reply() {
        Ok(StatementReply::Resolved { affected, rows }) => {
            assert_eq!(affected, 3);
            assert_eq!(rows.len(), 2);
            assert_eq!(cell(&rows[0], "a"), "1");
            assert_eq!(cell(&rows[1], "b"), "'t'");
        }
        other => panic!("{other:?}"),
    }
}

fn rejected(run: StatementRun, events: Vec<Event>) -> String {
    let mut run = run;
    for event in events {
        run = run.step(event);
    }
    match run.into_reply() {
        Ok(StatementReply::Rejected(message)) => message,
        other => panic!("{other:?}"),
    }
}

#[test]
fn a_failing_statement_says_why() {
    let run = || database().exec("SELECT x".to_string(), Vec::new());
    let failed = || Event::Failed("boom".to_string());
    assert_eq!(rejected(run(), vec![failed()]), "boom");
    assert_eq!(rejected(run(), vec![Event::Locked, failed()]), "boom");
    assert_eq!(
        rejected(
            run(),
            vec![
                Event::Locked,
                Event::Prepared(3),
                Event::ColumnName("a".to_string()),
                failed(),
                Event::Queried,
            ]
        ),
        "Failed to get column name for index1: boom"
    );
    let prepared = || vec![Event::Locked, Event::Prepared(0), Event::Changes(0)];
    let mut events = prepared();
    events.push(failed());
    assert_eq!(
        rejected(run(), events),
        "Failed to execute SQL: boom - SELECT x"
    );
    let mut events = prepared();
    events.extend([Event::Queried, Event::Row(Vec::new()), failed()]);
    assert_eq!(rejected(run(), events), "boom");
}

#[test]
fn events_that_do_not_answer_are_ignored() {
    let run = database().exec("SELECT 1".to_string(), Vec::new());
    let run = run.step(Event::Queried).step(Event::Locked).step(Event::Locked);
    assert_eq!(run.action(), Action::Prepare(0));
    let run = run.step(Event::Prepared(0)).step(Event::Failed("no".to_string()));
    assert_eq!(run.action(), Action::CountChanges);
    let run = run.step(Event::Changes(5)).step(Event::Queried);
    let run = run.step(Event::Row(vec![Value::Null]));
    let run = run.step(Event::Exhausted).step(Event::Changes(4));
    assert_eq!(run.action(), Action::CountChanges);
    assert!(run.into_reply().is_err());
}

#[test]
fn named_parameters_are_bound_by_name() {
    let run = database().exec_named(
        "SELECT :a, @b".to_string(),
        vec![("a".to_string(), Value::Integer(1)), ("@b".to_string(), text("z"))],
    );
    match run.parameters() {
        Parameters::Named(bound) => {
            assert_eq!(bound.len(), 2);
            assert_eq!((bound[0].0.as_str(), show(Some(&bound[0].1))), (":a", "1".to_string()));
            assert_eq!((bound[1].0.as_str(), show(Some(&bound[1].1))), ("@b", "'z'".to_string()));
        }
        other => panic!("{other:?}"),
    }
}

fn batch_events() -> Vec<(Action, Event)> {
    vec![
        (Action::Measure, Event::Measured { nanos: 2_400_000, changes: 7 }),
        (Action::NextStatement, Event::Prepared(0)),
        (Action::Query, Event::Queried),
        (Action::NextRow, Event::Exhausted),
        (Action::NextStatement, Event::Prepared(1)),
        (Action::ColumnName(0), Event::ColumnName("n".to_string())),
        (Action::Query, Event::Queried),
        (Action::NextRow, Event::Row(vec![Value::Integer(5)])),
        (Action::NextRow, Event::Exhausted),
        (Action::NextStatement, Event::Prepared(1)),
        (Action::ColumnName(0), Event::ColumnName("m".to_string())),
        (Action::Query, Event::Queried),
        (Action::NextRow, Event::Row(vec![Value::Integer(6)])),
        (Action::NextRow, Event::Exhausted),
        (Action::NextStatement, Event::NoStatement),
        (Action::Measure, Event::Measured { nanos: 9_300_000, changes: 9 }),
    ]
}

#[test]
fn a_batch_replies_the_rows_of_all_its_statements() {
    let mut run = BatchRun::new("A; B; C".to_string());
    for (action, event) in batch_events() {
        assert_eq!(run.action(), action);
        run = run.step(event);
    }
    match run.into_reply() {
        Ok(BatchReply::Resolved(summary)) => {
            let rows = summary.rows.unwrap();
            assert_eq!(rows.len(), 2);
            assert_eq!(cell(&rows[0], "n"), "5");
            assert_eq!(cell(&rows[1], "m"), "6");
            assert_eq!(summary.total_millis, 9);
            assert_eq!(summary.execution_millis, 6);
            assert_eq!(summary.affected, 2);
        }
        other => panic!("{other:?}"),
    }
}

#[test]
fn a_batch_without_rows_says_so() {
    let run = BatchRun::new(String::new())
        .step(Event::Measured { nanos: 5, changes: 0 })
        .step(Event::NoStatement)
        .step(Event::Measured { nanos: 4_294_967_297_000_000, changes: 0 });
    match run.into_reply() {
        Ok(BatchReply::Resolved(summary)) => {
            assert!(summary.rows.is_none());
            // Times are replied modulo 2^32 milliseconds.
            assert_eq!(summary.total_millis, 1);
            assert_eq!(summary.affected, 0);
        }
        other => panic!("{other:?}"),
    }
}

#[test]
fn a_failing_batch_says_why() {
    let start = || BatchRun::new("A; B".to_string()).step(Event::Measured { nanos: 0, changes: 0 });
    let failed = || Event::Failed("boom".to_string());
    let message = |run: BatchRun| match run.into_reply() {
        Ok(BatchReply::Rejected(message)) => message,
        other => panic!("{other:?}"),
    };
    assert_eq!(message(start().step(failed())), "boom");
    assert_eq!(
        message(start().step(Event::Prepared(1)).step(failed())),
        "Failed to get column name for index0: boom"
    );
    assert_eq!(
        message(start().step(Event::Prepared(0)).step(failed())),
        "Failed to execute SQL: boom - A; B"
    );
    let rows = start().step(Event::Prepared(0)).step(Event::Queried);
    assert_eq!(message(rows.step(failed())), "boom");
}

fn drive(run: RequestRun, events: Vec<(Action, Event)>) -> RequestRun {
    let mut run = run;
    for (action, event) in events {
        assert_eq!(run.action(), action);
        run = run.step(event);
    }
    run
}

fn resolved_rows(run: RequestRun) -> usize {
    match run.into_reply() {
        Ok(BatchReply::Resolved(summary)) => summary.rows.map_or(0, |rows| rows.len()),
        other => panic!("{other:?}"),
    }
}

fn request_message(run: RequestRun) -> String {
    match run.into_reply() {
        Ok(BatchReply::Rejected(message)) => message,
        other => panic!("{other:?}"),
    }
}

#[test]
fn a_request_runs_without_a_transaction() {
    let mut events = vec![(Action::Lock, Event::Locked)];
    events.extend(batch_events());
    let run = drive(database().execute_sql("A; B; C".to_string()), events);
    assert_eq!(run.action(), Action::Reply);
    assert_eq!(resolved_rows(run), 2);
    let failed = vec![(Action::Lock, Event::Failed("poisoned".to_string()))];
    let run = drive(database().execute_sql("A".to_string()), failed);
    assert_eq!(request_message(run), "poisoned");
}

#[test]
fn a_transaction_resolves_after_its_commit() {
    let mut events = vec![(Action::Lock, Event::Locked), (Action::Begin, Event::Begun)];
    events.extend(batch_events());
    let run = drive(database().execute_transaction("A; B; C".to_string()), events);
    assert_eq!(run.sql(), "A; B; C");
    assert_eq!(run.action(), Action::Commit);
    assert_eq!(resolved_rows(run.step(Event::Committed)), 2);
}

#[test]
fn a_failed_commit_rejects() {
    let mut events = vec![(Action::Lock, Event::Locked), (Action::Begin, Event::Begun)];
    events.extend(batch_events());
    events.push((Action::Commit, Event::Failed("busy".to_string())));
    let run = drive(database().execute_transaction("A".to_string()), events);
    assert_eq!(request_message(run), "busy");
    let events = vec![
        (Action::Lock, Event::Locked),
        (Action::Begin, Event::Failed("nested".to_string())),
    ];
    let run = drive(database().execute_transaction("A".to_string()), events);
    assert_eq!(request_message(run), "nested");
}

#[test]
fn a_failed_transaction_is_rolled_back() {
    for rollback in [Event::RolledBack, Event::Failed("rollback too".to_string())] {
        let events = vec![
            (Action::Lock, Event::Locked),
            (Action::Begin, Event::Begun),
            (Action::Measure, Event::Measured { nanos: 0, changes: 0 }),
            (Action::NextStatement, Event::Failed("syntax".to_string())),
            (Action::Rollback, rollback),
        ];
        let run = drive(database().execute_transaction("?".to_string()), events);
        assert_eq!(request_message(run), "syntax");
    }
}

#[test]
fn the_last_statement_of_a_sequence_replies() {
    let mut run = database().execute_sqls(names(&["A", "B", "C"]));
    let script = [
        (Action::Lock, Event::Locked),
        (Action::Prepare(0), Event::Prepared(4)),
        (Action::Execute, Event::Executed),
        (Action::Prepare(1), Event::Prepared(0)),
        (Action::Execute, Event::Executed),
        (Action::Prepare(2), Event::Prepared(2)),
        (Action::Query, Event::Queried),
        (Action::NextRow, Event::Row(vec![text("a"), text("b")])),
        (Action::NextRow, Event::Exhausted),
    ];
    for (action, event) in script {
        assert_eq!(run.action(), action);
        run = run.step(event);
    }
    match run.into_reply() {
        Ok(SequenceReply::Resolved(Some(rows))) => {
            assert_eq!(rows.len(), 1);
            let shown: Vec<String> = rows[0].iter().map(|v| show(Some(v))).collect();
            assert_eq!(shown, ["'a'", "'b'"]);
        }
        other => panic!("{other:?}"),
    }
    let empty = database().execute_sqls(Vec::new()).step(Event::Locked);
    assert!(matches!(empty.into_reply(), Ok(SequenceReply::Resolved(None))));
    let none = database()
        .execute_sqls(names(&["A"]))
        .step(Event::Locked)
        .step(Event::Prepared(1))
        .step(Event::Queried)
        .step(Event::Exhausted);
    assert!(matches!(none.into_reply(), Ok(SequenceReply::Resolved(None))));
}

#[test]
fn a_failing_sequence_says_why() {
    let start = || database().execute_sqls(names(&["A", "B"])).step(Event::Locked);
    let failed = || Event::Failed("boom".to_string());
    let runs = [
        (
            database().execute_sqls(names(&["A"])).step(failed()),
            "boom",
        ),
        (start().step(failed()), "Failed to execute SQL: boom - A"),
        (
            start().step(Event::Prepared(0)).step(failed()),
            "Failed to execute SQL statement: boom - A",
        ),
        (
            start().step(Event::Prepared(0)).step(Event::Executed).step(failed()),
            "Failed to execute SQL: boom - B",
        ),
        (
            start()
                .step(Event::Prepared(0))
                .step(Event::Executed)
                .step(Event::Prepared(1))
                .step(failed()),
            "Failed to execute SQL statement: boom - B",
        ),
        (
            start()
                .step(Event::Prepared(0))
                .step(Event::Executed)
                .step(Event::Prepared(1))
                .step(Event::Queried)
                .step(failed()),
            "boom",
        ),
    ];
    for (run, want) in runs {
        match run.into_reply() {
            Ok(SequenceReply::Rejected(message)) => assert_eq!(message, want),
            other => panic!("{other:?}"),
        }
    }
}

fn value_of(value: ValueRef<'_>) -> Value {
    match value {
        ValueRef::Null => Value::Null,
        ValueRef::Integer(i) => Value::Integer(i),
        ValueRef::Real(f) => Value::Real(f.to_bits()),
        ValueRef::Text(t) => Value::Text(String::from_utf8(t.to_vec()).unwrap()),
        ValueRef::Blob(b) => Value::Blob(b.to_vec()),
    }
}

/// Runs a statement with positional integers on a real connection.
fn on_connection(connection: &Connection, run: StatementRun) -> StatementReply {
    let mut run = run.step(Event::Locked);
    let sql = run.sql().clone();
    let integers: Vec<i64> = match run.parameters() {
        Parameters::Positional(list) => list
            .iter()
            .map(|v| match v {
                Value::Integer(i) => *i,
                other => panic!("{other:?}"),
            })
            .collect(),
        other => panic!("{other:?}"),
    };
    let mut statement = match connection.prepare(&sql) {
        Ok(statement) => statement,
        Err(error) => return run.step(Event::Failed(error.to_string())).into_reply().unwrap(),
    };
    let columns = statement.column_count();
    run = run.step(Event::Prepared(columns));
    while let Action::ColumnName(i) = run.action() {
        let name = statement.column_name(i).unwrap().to_string();
        run = run.step(Event::ColumnName(name));
    }
    run = run.step(Event::Changes(connection.total_changes()));
    let mut rows = match statement.query(rusqlite::params_from_iter(integers)) {
        Ok(rows) => rows,
        Err(error) => return run.step(Event::Failed(error.to_string())).into_reply().unwrap(),
    };
    run = run.step(Event::Queried);
    while run.action() == Action::NextRow {
        run = match rows.next() {
            Ok(Some(row)) => {
                let values = (0..columns).map(|i| value_of(row.get_ref(i).unwrap())).collect();
                run.step(Event::Row(values))
            }
            Ok(None) => run.step(Event::Exhausted),
            Err(error) => run.step(Event::Failed(error.to_string())),
        };
    }
    run = run.step(Event::Changes(connection.total_changes()));
    run.into_reply().unwrap()
}

#[test]
fn statements_run_on_a_real_connection() {
    let connection = Connection::open_in_memory().unwrap();
    let database = database();
    let exec = |sql: &str, parameters: Vec<Value>| {
        on_connection(&connection, database.exec(sql.to_string(), parameters))
    };
    exec("CREATE TABLE t (n INTEGER, s TEXT)", Vec::new());
    match exec(
        "INSERT INTO t VALUES (?, 'x'), (?, NULL)",
        vec![Value::Integer(3), Value::Integer(4)],
    ) {
        StatementReply::Resolved { affected, rows } => {
            assert_eq!(affected, 2);
            assert!(rows.is_empty());
        }
        other => panic!("{other:?}"),
    }
    match exec("SELECT n, s, n * 0.5 AS h, n FROM t ORDER BY n", Vec::new()) {
        StatementReply::Resolved { affected, rows } => {
            assert_eq!(affected, 0);
            assert_eq!(rows.len(), 2);
            assert_eq!(rows[0].entries().len(), 3);
            assert_eq!(cell(&rows[0], "s"), "'x'");
            assert_eq!(cell(&rows[0], "h"), "1.5");
            assert_eq!(cell(&rows[1], "s"), "null");
            assert_eq!(cell(&rows[1], "n"), "4");
        }
        other => panic!("{other:?}"),
    }
    match exec("SELECT ?", Vec::new()) {
        StatementReply::Rejected(message) => {
            assert!(message.starts_with("Failed to execute SQL: "));
            assert!(message.ends_with(" - SELECT ?"));
        }
        other => panic!("{other:?}"),
    }
    match exec("SELEC 1", Vec::new()) {
        StatementReply::Rejected(message) => assert!(message.contains("syntax error")),
        other => panic!("{other:?}"),
    }
}

/// Runs a transaction on a real connection.
fn transaction_on(connection: &mut Connection, run: RequestRun) -> BatchReply {
    let run = run.step(Event::Locked);
    let transaction = connection.transaction().unwrap();
    let mut run = run.step(Event::Begun);
    let sql = run.sql().clone();
    let mut batch = rusqlite::Batch::new(&transaction, &sql);
    run = run.step(Event::Measured { nanos: 0, changes: transaction.total_changes() });
    while run.action() == Action::NextStatement {
        let mut statement = match batch.next() {
            Ok(Some(statement)) => statement,
            Ok(None) => {
                run = run.step(Event::NoStatement);
                continue;
            }
            Err(error) => {
                run = run.step(Event::Failed(error.to_string()));
                continue;
            }
        };
        let columns = statement.column_count();
        run = run.step(Event::Prepared(columns));
        while let Action::ColumnName(i) = run.action() {
            let name = statement.column_name(i).unwrap().to_string();
            run = run.step(Event::ColumnName(name));
        }
        let mut rows = statement.query([]).unwrap();
        run = run.step(Event::Queried);
        while run.action() == Action::NextRow {
            run = match rows.next() {
                Ok(Some(row)) => {
                    let values = (0..columns).map(|i| value_of(row.get_ref(i).unwrap())).collect();
                    run.step(Event::Row(values))
                }
                Ok(None) => run.step(Event::Exhausted),
                Err(error) => run.step(Event::Failed(error.to_string())),
            };
        }
    }
    if run.action() == Action::Measure {
        run = run.step(Event::Measured { nanos: 0, changes: transaction.total_changes() });
    }
    run = match run.action() {
        Action::Commit => {
            transaction.commit().unwrap();
            run.step(Event::Committed)
        }
        Action::Rollback => {
            transaction.rollback().unwrap();
            run.step(Event::RolledBack)
        }
        other => panic!("{other:?}"),
    };
    run.into_reply().unwrap()
}

#[test]
fn a_transaction_is_all_or_nothing() {
    let mut connection = Connection::open_in_memory().unwrap();
    connection.execute_batch("CREATE TABLE t (n INTEGER UNIQUE); INSERT INTO t VALUES (1)").unwrap();
    let count = |connection: &Connection| {
        connection.query_row("SELECT count(*) FROM t", [], |row| row.get::<_, i64>(0)).unwrap()
    };
    let run = database().execute_transaction(
        "INSERT INTO t VALUES (2); INSERT INTO t VALUES (1)".to_string(),
    );
    match transaction_on(&mut connection, run) {
        BatchReply::Rejected(message) => assert!(message.contains("UNIQUE")),
        other => panic!("{other:?}"),
    }
    assert_eq!(count(&connection), 1);
    assert!(connection.is_autocommit());

    let run = database().execute_transaction(
        "INSERT INTO t VALUES (2); SELECT n FROM t ORDER BY n; INSERT INTO t VALUES (3)".to_string(),
    );
    match transaction_on(&mut connection, run) {
        BatchReply::Resolved(summary) => {
            let rows = summary.rows.unwrap();
            assert_eq!(rows.len(), 2);
            assert_eq!(cell(&rows[1], "n"), "2");
            assert_eq!(summary.affected, 2);
        }
        other => panic!("{other:?}"),
    }
    assert_eq!(count(&connection), 3);
    assert!(connection.is_autocommit());
}

#[test]
fn nothing_is_asked_before_the_lock() {
    let run = database().execute_transaction("A".to_string());
    let run = run.step(Event::Begun).step(Event::Committed).step(Event::NoStatement);
    assert_eq!(run.action(), Action::Lock);
    let run = database().execute_sqls(names(&["A"])).step(Event::Executed);
    assert_eq!(run.action(), Action::Lock);
}

#[test]
fn statements_take_turns() {
    // One worker takes the statements in the order of the calls.
    let connection = Connection::open_in_memory().unwrap();
    let database = database();
    assert_eq!(database.workers(), 1);
    let calls = [
        "CREATE TABLE t (n INTEGER)",
        "INSERT INTO t VALUES (1), (2), (3)",
        "DELETE FROM t WHERE n < 3",
        "SELECT n FROM t",
    ];
    let runs: Vec<StatementRun> =
        calls.iter().map(|sql| database.exec(sql.to_string(), Vec::new())).collect();
    let mut counts = Vec::new();
    for run in runs {
        match on_connection(&connection, run) {
            StatementReply::Resolved { affected, rows } => counts.push((affected, rows.len())),
            other => panic!("{other:?}"),
        }
    }
    assert_eq!(counts, vec![(0, 0), (3, 0), (2, 0), (0, 1)]);
}

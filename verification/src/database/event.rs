//! What a run asks of its connection, and what it is told.
use crate::database::row::Value;
use crate::text;
use vstd::prelude::*;

verus! {

/// The next thing to do on the connection.
#[derive(Debug, Clone, Copy, PartialEq, Eq, Structural)]
pub enum Action {
    /// Lock the connection.
    Lock,
    /// Begin a transaction.
    Begin,
    /// Read the clock and the number of rows changed so far.
    Measure,
    /// Read the number of rows changed so far.
    CountChanges,
    /// Prepare the statement at the index.
    Prepare(usize),
    /// Prepare the next statement of the text.
    NextStatement,
    /// Read the name of the column at the index.
    ColumnName(usize),
    /// Run the statement for its effect.
    Execute,
    /// Run the statement for its rows.
    Query,
    /// Read the next row.
    NextRow,
    /// Commit the transaction.
    Commit,
    /// Roll the transaction back.
    Rollback,
    /// Nothing: the reply stands.
    Reply,
}

/// What came of an action.
#[derive(Debug)]
pub enum Event {
    Locked,
    Begun,
    /// Nanoseconds since the run began, and the number of rows changed on the connection.
    Measured { nanos: u128, changes: u64 },
    Changes(u64),
    /// A statement is prepared; it has this many columns.
    Prepared(usize),
    /// The text has no further statement.
    NoStatement,
    ColumnName(String),
    Executed,
    Queried,
    Row(Vec<Value>),
    /// There is no further row.
    Exhausted,
    Committed,
    RolledBack,
    /// The action failed, with this message.
    Failed(String),
}

/// The message where the name of column `index` cannot be had.
pub open spec fn column_fault(index: nat, message: Seq<char>) -> Seq<char> {
    "Failed to get column name for index"@ + text::decimal(index) + ": "@ + message
}

/// Renders [`column_fault`].
pub fn column_fault_text(index: usize, message: &String) -> (r: String)
    ensures
        r@ == column_fault(index as nat, message@),
{
    "Failed to get column name for index".to_owned().concat(
        text::decimal_text(index as u128).as_str(),
    ).concat(": ").concat(message.as_str())
}

/// The message where `sql` cannot be run, or cannot be prepared as one of several.
pub open spec fn query_fault(message: Seq<char>, sql: Seq<char>) -> Seq<char> {
    "Failed to execute SQL: "@ + message + " - "@ + sql
}

/// Renders [`query_fault`].
pub fn query_fault_text(message: &String, sql: &String) -> (r: String)
    ensures
        r@ == query_fault(message@, sql@),
{
    "Failed to execute SQL: ".to_owned().concat(message.as_str()).concat(" - ").concat(sql.as_str())
}

/// The message where `sql`, one of several, cannot be run.
pub open spec fn statement_fault(message: Seq<char>, sql: Seq<char>) -> Seq<char> {
    "Failed to execute SQL statement: "@ + message + " - "@ + sql
}

/// Renders [`statement_fault`].
pub fn statement_fault_text(message: &String, sql: &String) -> (r: String)
    ensures
        r@ == statement_fault(message@, sql@),
{
    "Failed to execute SQL statement: ".to_owned().concat(message.as_str()).concat(" - ").concat(
        sql.as_str(),
    )
}

} // verus!

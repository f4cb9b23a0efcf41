//! SQL access: which steps a request takes on its connection, and what is replied.
//!
//! A request is a run: it names the next [`event::Action`], is told by an [`event::Event`] what
//! came of it, and ends with a reply. What performs the actions owns the connection.
pub mod batch;
pub mod connection;
pub mod dialogue;
pub mod event;
pub mod fold;
pub mod queue;
pub mod request;
pub mod row;
pub mod sequence;
pub mod statement;
pub mod transaction;

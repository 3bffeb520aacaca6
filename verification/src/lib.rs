//! A small message-exchange engine: a line-oriented text protocol with two
//! verbs, `POST` and `GET`, over a durable store of message records.
//!
//! A `POST from to contents...` appends a record; a `GET user` returns every
//! record that names `user` as either endpoint and has not yet been
//! retrieved, in arrival order, and marks those records as read.  The
//! surrounding transport (sockets, threads) lives outside this crate; the
//! parser, the dispatcher and the store live here, each with a contract.

pub mod dispatch;
pub mod laws;
pub mod messages;
pub mod text;

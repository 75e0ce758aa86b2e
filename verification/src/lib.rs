//! An in-memory key-value store spoken over a line-oriented text protocol,
//! together with a "reflect" mode that fans a single client request out to a
//! configured list of backend targets and aggregates their replies.
//!
//! Every decision the server takes -- parsing a command line, applying it to
//! the store, the inline AUTH handshake, routing a reflect request, judging a
//! target's answer and assembling the aggregate reply -- lives here as a
//! verified function.  The surrounding process (sockets, configuration files,
//! the async runtime) performs the I/O and hands the outcomes back to these
//! functions as plain values.

pub mod config;
pub mod enums;
pub mod executor;
pub mod parser;
pub mod reflect;
pub mod session;
pub mod store;
pub mod text;

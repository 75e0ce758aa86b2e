//! The connection handler's decision for a connection's (or datagram's)
//! first payload: run the inline AUTH handshake or treat the payload as a
//! command directly.

use vstd::prelude::*;
use crate::text::{split_tokens, split_ws, starts_with_seq, str_eq, str_starts_with, trim_spec, trim_str};
use vstd::string::*;

verus! {

/// What the connection handler must do with a first payload.
pub enum FirstStep {
    /// Write `AUTH OK`, then read exactly one further payload and treat it
    /// as the command.
    AuthOk,
    /// Write `AUTH FAILED`; the connection proceeds no further.
    AuthFailed,
    /// Not an authentication line: the payload itself is the command
    /// (the backward-compatible unauthenticated path).
    Command,
}

/// The payload opens with the literal `AUTH ` marker.
pub open spec fn is_auth_line(t: Seq<char>) -> bool {
    starts_with_seq(t, "AUTH "@)
}

/// The line splits into exactly the marker plus two tokens, and both tokens
/// match the server-wide credentials verbatim.
pub open spec fn auth_matches(t: Seq<char>, username: Seq<char>, password: Seq<char>) -> bool {
    let parts = split_ws(t);
    parts.len() == 3 && parts[1] == username && parts[2] == password
}

/// The decision for a first payload against the server-wide credentials.
pub open spec fn first_step_spec(
    input: Seq<char>,
    username: Seq<char>,
    password: Seq<char>,
) -> FirstStep {
    let t = trim_spec(input);
    if is_auth_line(t) {
        if auth_matches(t, username, password) {
            FirstStep::AuthOk
        } else {
            FirstStep::AuthFailed
        }
    } else {
        FirstStep::Command
    }
}

/// Decide what to do with a connection's first payload.
pub fn handle_first_payload(input: &str, username: &str, password: &str) -> (step: FirstStep)
    ensures
        step == first_step_spec(input@, username@, password@),
{
    let t: &str = trim_str(input);
    if str_starts_with(t, "AUTH ") {
        let parts: Vec<String> = split_tokens(t);
        if parts.len() == 3 && str_eq(parts[1].as_str(), username) && str_eq(
            parts[2].as_str(),
            password,
        ) {
            FirstStep::AuthOk
        } else {
            FirstStep::AuthFailed
        }
    } else {
        FirstStep::Command
    }
}

/// The literal handshake reply a first step calls for, if any.
pub fn handshake_reply(step: &FirstStep) -> (r: Option<String>)
    ensures
        match step {
            FirstStep::AuthOk => r matches Some(s) && s@ == "AUTH OK\n"@,
            FirstStep::AuthFailed => r matches Some(s) && s@ == "AUTH FAILED\n"@,
            FirstStep::Command => r is None,
        },
{
    match step {
        FirstStep::AuthOk => Some(String::from_str("AUTH OK\n")),
        FirstStep::AuthFailed => Some(String::from_str("AUTH FAILED\n")),
        FirstStep::Command => None,
    }
}

/// A mismatched AUTH line is always answered `AUTH FAILED` and is never
/// treated as a command: the handler stops on that connection, so no command
/// processing follows the failed handshake.
pub proof fn lemma_auth_mismatch_blocks(input: Seq<char>, username: Seq<char>, password: Seq<char>)
    requires
        is_auth_line(trim_spec(input)),
        !auth_matches(trim_spec(input), username, password),
    ensures
        first_step_spec(input, username, password) == FirstStep::AuthFailed,
{
}

} // verus!

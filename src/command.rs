//! The command interpreter and the broadcast line formats.
use vstd::prelude::*;
use crate::text::{join, joined};

verus! {

/// The reply to `/users`, given the connected names in registry order.
pub open spec fn users_reply(names: Seq<Seq<char>>) -> Seq<char> {
    "Connected users: "@ + joined(names, ", "@) + "\n"@
}

/// The reply to `/quit`.
pub open spec fn goodbye() -> Seq<char> {
    "Goodbye!\n"@
}

/// The reply to any other line that starts with the command prefix.
pub open spec fn unknown_reply(line: Seq<char>) -> Seq<char> {
    "Unknown command: "@ + line + "\n"@
}

/// The reply to a command line, and whether the session goes on afterwards.
pub open spec fn command_outcome(line: Seq<char>, names: Seq<Seq<char>>) -> (Seq<char>, bool) {
    if line == "/users"@ {
        (users_reply(names), true)
    } else if line == "/quit"@ {
        (goodbye(), false)
    } else {
        (unknown_reply(line), true)
    }
}

/// The notice published when `name` joins.
pub open spec fn join_notice(name: Seq<char>) -> Seq<char> {
    "*** "@ + name + " has joined the chat ***\n"@
}

/// The notice published when `name` leaves.
pub open spec fn leave_notice(name: Seq<char>) -> Seq<char> {
    "*** "@ + name + " has left the chat ***\n"@
}

/// The broadcast form of chat text `text` sent by `name`.
pub open spec fn chat_line(name: Seq<char>, text: Seq<char>) -> Seq<char> {
    name + ": "@ + text + "\n"@
}

/// Interprets a trimmed command line against the current snapshot of
/// connected names: the reply to write back, and whether to go on.
pub fn interpret_command(line: &str, names: &Vec<String>) -> (r: (String, bool))
    ensures
        (r.0@, r.1) == command_outcome(line@, names@.map_values(|x: String| x@)),
{
    let l = String::from_str(line);
    if l == String::from_str("/users") {
        let mut reply = String::from_str("Connected users: ");
        let list = join(names, ", ");
        reply.append(list.as_str());
        reply.append("\n");
        (reply, true)
    } else if l == String::from_str("/quit") {
        (String::from_str("Goodbye!\n"), false)
    } else {
        let mut reply = String::from_str("Unknown command: ");
        reply.append(line);
        reply.append("\n");
        (reply, true)
    }
}

/// The notice published when `name` joins.
pub fn format_join_notice(name: &str) -> (r: String)
    ensures
        r@ == join_notice(name@),
{
    let mut r = String::from_str("*** ");
    r.append(name);
    r.append(" has joined the chat ***\n");
    r
}

/// The notice published when `name` leaves.
pub fn format_leave_notice(name: &str) -> (r: String)
    ensures
        r@ == leave_notice(name@),
{
    let mut r = String::from_str("*** ");
    r.append(name);
    r.append(" has left the chat ***\n");
    r
}

/// The broadcast form of chat text `text` sent by `name`.
pub fn format_chat_line(name: &str, text: &str) -> (r: String)
    ensures
        r@ == chat_line(name@, text@),
{
    let mut r = String::from_str(name);
    r.append(": ");
    r.append(text);
    r.append("\n");
    r
}

} // verus!

//! The per-connection protocol state machine. The connection's driver reads
//! lines and bus deliveries, hands each one to the session as an input, and
//! carries out the effects that come back, in order.
use vstd::prelude::*;
use crate::command::{
    chat_line, command_outcome, format_chat_line, format_join_notice, format_leave_notice,
    interpret_command, join_notice, leave_notice,
};
use crate::text::{trim, trimmed};

verus! {

/// Where a session stands, as the contracts see it.
pub ghost enum Phase {
    AwaitingUsername,
    Active(Seq<char>),
    Terminated,
}

/// An input, as the contracts see it.
pub ghost enum Happening {
    Line(Seq<char>),
    Eof,
    ReadFailed,
    Delivered(Seq<char>),
    Lagged(u64),
    BusClosed,
    WriteFailed,
    PublishFailed,
}

/// An effect, as the contracts see it.
pub ghost enum Act {
    Send(Seq<char>),
    Publish(Seq<char>),
    Register(Seq<char>),
    Subscribe,
    Deregister,
}

/// The state of one connection's session.
pub enum SessionState {
    AwaitingUsername,
    Active(String),
    Terminated,
}

/// What the driver observed on the connection or on the bus.
pub enum Input {
    /// A non-empty read from the connection, decoded as text.
    Line(String),
    /// A zero-length read: the client closed the connection.
    Eof,
    /// Reading from the connection failed.
    ReadFailed,
    /// The bus delivered a message for this session.
    Delivered(String),
    /// The bus dropped this many messages for this session.
    Lagged(u64),
    /// The bus was shut down.
    BusClosed,
    /// Writing to the connection failed.
    WriteFailed,
    /// Publishing on the bus failed.
    PublishFailed,
}

/// What the driver must do, in order.
pub enum Effect {
    /// Write this text to the connection.
    Send(String),
    /// Publish this text on the bus, for every subscriber.
    Publish(String),
    /// Record this display name for the connection in the registry.
    Register(String),
    /// Subscribe the connection to the bus.
    Subscribe,
    /// Remove the connection from the registry and end its subscription.
    Deregister,
}

impl View for SessionState {
    type V = Phase;

    open spec fn view(&self) -> Phase {
        match self {
            SessionState::AwaitingUsername => Phase::AwaitingUsername,
            SessionState::Active(name) => Phase::Active(name@),
            SessionState::Terminated => Phase::Terminated,
        }
    }
}

impl View for Input {
    type V = Happening;

    open spec fn view(&self) -> Happening {
        match self {
            Input::Line(t) => Happening::Line(t@),
            Input::Eof => Happening::Eof,
            Input::ReadFailed => Happening::ReadFailed,
            Input::Delivered(m) => Happening::Delivered(m@),
            Input::Lagged(n) => Happening::Lagged(*n),
            Input::BusClosed => Happening::BusClosed,
            Input::WriteFailed => Happening::WriteFailed,
            Input::PublishFailed => Happening::PublishFailed,
        }
    }
}

impl View for Effect {
    type V = Act;

    open spec fn view(&self) -> Act {
        match self {
            Effect::Send(t) => Act::Send(t@),
            Effect::Publish(t) => Act::Publish(t@),
            Effect::Register(n) => Act::Register(n@),
            Effect::Subscribe => Act::Subscribe,
            Effect::Deregister => Act::Deregister,
        }
    }
}

/// The text that asks a new client for its name.
pub open spec fn prompt() -> Seq<char> {
    "Enter your Username: "@
}

/// The effects of ending an active session of `name`.
pub open spec fn teardown(name: Seq<char>) -> Seq<Act> {
    seq![Act::Deregister, Act::Publish(leave_notice(name))]
}

/// One transition: the next phase and the effects, given the names that the
/// registry holds when the input is handled.
pub open spec fn transition(p: Phase, h: Happening, names: Seq<Seq<char>>) -> (Phase, Seq<Act>) {
    match p {
        Phase::AwaitingUsername => match h {
            Happening::Line(t) => {
                let name = trimmed(t);
                if name.len() == 0 {
                    (p, seq![Act::Send(prompt())])
                } else {
                    (
                        Phase::Active(name),
                        seq![Act::Register(name), Act::Publish(join_notice(name)), Act::Subscribe],
                    )
                }
            },
            Happening::Eof => (Phase::Terminated, Seq::empty()),
            Happening::ReadFailed => (Phase::Terminated, Seq::empty()),
            _ => (p, Seq::empty()),
        },
        Phase::Active(name) => match h {
            Happening::Line(t) => {
                let text = trimmed(t);
                if text.len() > 0 && text[0] == '/' {
                    let (reply, go_on) = command_outcome(text, names);
                    if go_on {
                        (p, seq![Act::Send(reply)])
                    } else {
                        (Phase::Terminated, seq![Act::Send(reply)] + teardown(name))
                    }
                } else {
                    (p, seq![Act::Publish(chat_line(name, text))])
                }
            },
            Happening::Delivered(m) => (p, seq![Act::Send(m)]),
            Happening::Lagged(_) => (p, Seq::empty()),
            _ => (Phase::Terminated, teardown(name)),
        },
        Phase::Terminated => (p, Seq::empty()),
    }
}

/// The effects' views, in order.
pub open spec fn acts_of(effects: Seq<Effect>) -> Seq<Act> {
    effects.map_values(|e: Effect| e@)
}

/// The names' views, in order.
pub open spec fn names_view(names: Seq<String>) -> Seq<Seq<char>> {
    names.map_values(|x: String| x@)
}

/// One connection's session.
pub struct Session {
    pub state: SessionState,
}

impl Session {
    /// A fresh session, and the effects of opening it: the name prompt.
    pub fn new() -> (r: (Session, Vec<Effect>))
        ensures
            r.0.state@ == Phase::AwaitingUsername,
            acts_of(r.1@) == seq![Act::Send(prompt())],
    {
        let mut effects: Vec<Effect> = Vec::new();
        effects.push(Effect::Send(String::from_str("Enter your Username: ")));
        assert(acts_of(effects@) =~= seq![Act::Send(prompt())]);
        (Session { state: SessionState::AwaitingUsername }, effects)
    }

    /// Whether the session has ended.
    pub fn is_terminated(&self) -> (r: bool)
        ensures
            r == (self.state@ == Phase::Terminated),
    {
        match self.state {
            SessionState::Terminated => true,
            _ => false,
        }
    }

    /// Handles one input; `names` is the registry's snapshot at this moment.
    /// Returns the effects that the driver must carry out, in order.
    pub fn handle(&mut self, input: Input, names: &Vec<String>) -> (effects: Vec<Effect>)
        ensures
            (final(self).state@, acts_of(effects@)) == transition(
                old(self).state@,
                input@,
                names_view(names@),
            ),
    {
        let ghost p = self.state@;
        let ghost h = input@;
        let ghost nv = names_view(names@);
        let mut effects: Vec<Effect> = Vec::new();
        let mut state = SessionState::Terminated;
        std::mem::swap(&mut state, &mut self.state);
        match state {
            SessionState::AwaitingUsername => {
                match input {
                    Input::Line(t) => {
                        let name = trim(t.as_str());
                        if name.unicode_len() == 0 {
                            effects.push(Effect::Send(String::from_str("Enter your Username: ")));
                            self.state = SessionState::AwaitingUsername;
                            assert(acts_of(effects@) =~= seq![Act::Send(prompt())]);
                        } else {
                            let notice = format_join_notice(name.as_str());
                            let again = name.clone();
                            effects.push(Effect::Register(again));
                            effects.push(Effect::Publish(notice));
                            effects.push(Effect::Subscribe);
                            self.state = SessionState::Active(name);
                            assert(acts_of(effects@) =~= transition(p, h, nv).1);
                        }
                    },
                    Input::Eof | Input::ReadFailed => {
                        assert(acts_of(effects@) =~= Seq::<Act>::empty());
                    },
                    _ => {
                        self.state = SessionState::AwaitingUsername;
                        assert(acts_of(effects@) =~= Seq::<Act>::empty());
                    },
                }
            },
            SessionState::Active(name) => {
                match input {
                    Input::Line(t) => {
                        let text = trim(t.as_str());
                        if text.unicode_len() > 0 && text.as_str().get_char(0) == '/' {
                            let (reply, go_on) = interpret_command(text.as_str(), names);
                            effects.push(Effect::Send(reply));
                            if go_on {
                                self.state = SessionState::Active(name);
                            } else {
                                effects.push(Effect::Deregister);
                                effects.push(Effect::Publish(format_leave_notice(name.as_str())));
                            }
                            assert(acts_of(effects@) =~= transition(p, h, nv).1);
                        } else {
                            effects.push(Effect::Publish(format_chat_line(name.as_str(), text.as_str())));
                            self.state = SessionState::Active(name);
                            assert(acts_of(effects@) =~= transition(p, h, nv).1);
                        }
                    },
                    Input::Delivered(m) => {
                        effects.push(Effect::Send(m));
                        self.state = SessionState::Active(name);
                        assert(acts_of(effects@) =~= transition(p, h, nv).1);
                    },
                    Input::Lagged(_) => {
                        self.state = SessionState::Active(name);
                        assert(acts_of(effects@) =~= Seq::<Act>::empty());
                    },
                    _ => {
                        effects.push(Effect::Deregister);
                        effects.push(Effect::Publish(format_leave_notice(name.as_str())));
                        assert(acts_of(effects@) =~= teardown(name@));
                    },
                }
            },
            SessionState::Terminated => {
                assert(acts_of(effects@) =~= Seq::<Act>::empty());
            },
        }
        effects
    }
}

/// `/quit` from an active session, with any surrounding white space, gets
/// exactly the goodbye reply as its only write, ends the session and drops its
/// subscription; after that no input makes the session write or publish
/// anything.
pub proof fn lemma_quit_ends_session(name: Seq<char>, t: Seq<char>, names: Seq<Seq<char>>)
    requires
        trimmed(t) == "/quit"@,
    ensures
        transition(Phase::Active(name), Happening::Line(t), names) == (
            Phase::Terminated,
            seq![Act::Send("Goodbye!\n"@), Act::Deregister, Act::Publish(leave_notice(name))],
        ),
        forall|h: Happening, later: Seq<Seq<char>>| #[trigger]
            transition(Phase::Terminated, h, later) == (Phase::Terminated, Seq::<Act>::empty()),
{
    reveal_strlit("/quit");
    reveal_strlit("/users");
    assert(trimmed(t)[0] == '/');
    assert("/quit"@ != "/users"@) by {
        assert("/quit"@[1] != "/users"@[1]);
    }
    assert(seq![Act::Send("Goodbye!\n"@)] + teardown(name) =~= seq![
        Act::Send("Goodbye!\n"@),
        Act::Deregister,
        Act::Publish(leave_notice(name)),
    ]);
}

/// Every chat line is published once per time it is sent: the same line sent
/// twice by an active session is published twice, unchanged in between.
pub proof fn lemma_chat_not_deduplicated(name: Seq<char>, t: Seq<char>, names: Seq<Seq<char>>)
    requires
        !(trimmed(t).len() > 0 && trimmed(t)[0] == '/'),
    ensures
        ({
            let first = transition(Phase::Active(name), Happening::Line(t), names);
            let second = transition(first.0, Happening::Line(t), names);
            &&& first.0 == Phase::Active(name)
            &&& first.1 == seq![Act::Publish(chat_line(name, trimmed(t)))]
            &&& second.1 == first.1
        }),
{
}

} // verus!

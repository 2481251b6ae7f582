use chat_server::bus::{Bus, Delivery};
use chat_server::command::{format_chat_line, format_join_notice, format_leave_notice, interpret_command};
use chat_server::registry::Registry;
use chat_server::session::{Effect, Input, Session, SessionState};
use chat_server::text::{join, trim};

/// One simulated client: its session, its subscription, what it was sent.
struct Client {
    id: u64,
    session: Session,
    sub: Option<u64>,
    received: Vec<String>,
}

fn apply(c: &mut Client, effects: Vec<Effect>, registry: &mut Registry, bus: &mut Bus) {
    for e in effects {
        match e {
            Effect::Send(t) => c.received.push(t),
            Effect::Publish(t) => {
                let _ = bus.publish(t);
            }
            Effect::Register(name) => registry.insert(c.id, name),
            Effect::Subscribe => c.sub = bus.subscribe(),
            Effect::Deregister => {
                registry.remove(c.id);
                if let Some(s) = c.sub.take() {
                    bus.unsubscribe(s);
                }
            }
        }
    }
}

fn feed(c: &mut Client, input: Input, registry: &mut Registry, bus: &mut Bus) {
    let names = registry.snapshot_names();
    let effects = c.session.handle(input, &names);
    apply(c, effects, registry, bus);
}

fn connect(id: u64, name: &str, registry: &mut Registry, bus: &mut Bus) -> Client {
    let (session, effects) = Session::new();
    let mut c = Client { id, session, sub: None, received: Vec::new() };
    apply(&mut c, effects, registry, bus);
    feed(&mut c, Input::Line(format!("{}\n", name)), registry, bus);
    c
}

fn drain(c: &mut Client, registry: &mut Registry, bus: &mut Bus) {
    while let Some(s) = c.sub {
        match bus.receive(s) {
            Delivery::Message(m) => feed(c, Input::Delivered(m), registry, bus),
            Delivery::Lagged(n) => feed(c, Input::Lagged(n), registry, bus),
            Delivery::Closed => {
                feed(c, Input::BusClosed, registry, bus);
                break;
            }
            Delivery::Empty => break,
        }
    }
}

#[test]
fn registry_insert_overwrites_and_remove_keeps_order() {
    let mut r = Registry::new();
    r.insert(1, "alice".to_string());
    r.insert(2, "bob".to_string());
    r.insert(3, "carol".to_string());
    r.insert(2, "robert".to_string());
    assert_eq!(r.snapshot_names(), vec!["alice", "robert", "carol"]);
    r.remove(1);
    r.remove(42);
    assert_eq!(r.snapshot_names(), vec!["robert", "carol"]);
    assert_eq!(r.len(), 2);
}

#[test]
fn registry_tracks_connects_and_disconnects() {
    let mut r = Registry::new();
    r.insert(10, "a".to_string());
    r.insert(11, "b".to_string());
    r.remove(10);
    r.insert(12, "c".to_string());
    r.insert(10, "a2".to_string());
    r.remove(11);
    assert_eq!(r.snapshot_names(), vec!["c", "a2"]);
}

#[test]
fn registry_allows_duplicate_names() {
    let mut r = Registry::new();
    r.insert(1, "sam".to_string());
    r.insert(2, "sam".to_string());
    assert_eq!(r.snapshot_names(), vec!["sam", "sam"]);
}

#[test]
fn bus_publish_with_no_subscribers_succeeds() {
    let mut bus = Bus::new(4);
    assert!(bus.publish("hi\n".to_string()).is_ok());
    assert_eq!(bus.subscriber_count(), 0);
}

#[test]
fn bus_subscriber_sees_only_later_messages() {
    let mut bus = Bus::new(4);
    bus.publish("before\n".to_string()).unwrap_or(());
    let s = bus.subscribe().unwrap();
    bus.publish("after\n".to_string()).unwrap_or(());
    assert!(matches!(bus.receive(s), Delivery::Message(m) if m == "after\n"));
    assert!(matches!(bus.receive(s), Delivery::Empty));
}

#[test]
fn bus_slow_subscriber_lags_without_blocking_others() {
    let mut bus = Bus::new(2);
    let slow = bus.subscribe().unwrap();
    let fast = bus.subscribe().unwrap();
    for m in ["m1", "m2", "m3"] {
        assert!(bus.publish(m.to_string()).is_ok());
        if let Delivery::Message(got) = bus.receive(fast) {
            assert_eq!(got, m);
        } else {
            panic!("fast subscriber missed {}", m);
        }
    }
    assert!(matches!(bus.receive(slow), Delivery::Lagged(1)));
    assert!(matches!(bus.receive(slow), Delivery::Message(m) if m == "m2"));
    assert!(matches!(bus.receive(slow), Delivery::Message(m) if m == "m3"));
    assert!(matches!(bus.receive(slow), Delivery::Empty));
}

#[test]
fn bus_close_is_distinct_from_lag() {
    let mut bus = Bus::new(1);
    let s = bus.subscribe().unwrap();
    bus.publish("x".to_string()).unwrap_or(());
    bus.close();
    assert!(bus.is_closed());
    assert!(bus.publish("y".to_string()).is_err());
    assert!(matches!(bus.receive(s), Delivery::Message(m) if m == "x"));
    assert!(matches!(bus.receive(s), Delivery::Closed));
}

#[test]
fn bus_unsubscribed_receives_nothing() {
    let mut bus = Bus::new(3);
    let s = bus.subscribe().unwrap();
    bus.unsubscribe(s);
    bus.publish("late".to_string()).unwrap_or(());
    assert!(matches!(bus.receive(s), Delivery::Closed));
}

#[test]
fn command_users_lists_names_in_order() {
    let names = vec!["alice".to_string(), "bob".to_string()];
    assert_eq!(interpret_command("/users", &names), ("Connected users: alice, bob\n".to_string(), true));
}

#[test]
fn command_users_alone_lists_self() {
    let names = vec!["zed".to_string()];
    assert_eq!(interpret_command("/users", &names), ("Connected users: zed\n".to_string(), true));
}

#[test]
fn command_quit_says_goodbye_and_stops() {
    assert_eq!(interpret_command("/quit", &vec![]), ("Goodbye!\n".to_string(), false));
}

#[test]
fn command_unknown_is_echoed() {
    assert_eq!(interpret_command("/dance now", &vec![]), ("Unknown command: /dance now\n".to_string(), true));
}

#[test]
fn notices_and_chat_lines_are_formatted() {
    assert_eq!(format_join_notice("alice"), "*** alice has joined the chat ***\n");
    assert_eq!(format_leave_notice("alice"), "*** alice has left the chat ***\n");
    assert_eq!(format_chat_line("alice", "hello"), "alice: hello\n");
}

#[test]
fn text_trim_and_join() {
    assert_eq!(trim("  \t hi there \r\n"), "hi there");
    assert_eq!(trim(" \n "), "");
    assert_eq!(join(&vec!["a".to_string(), "b".to_string(), "c".to_string()], ", "), "a, b, c");
    assert_eq!(join(&vec![], ", "), "");
}

#[test]
fn session_prompts_until_a_name_arrives() {
    let mut registry = Registry::new();
    let mut bus = Bus::new(8);
    let (session, effects) = Session::new();
    let mut c = Client { id: 1, session, sub: None, received: Vec::new() };
    apply(&mut c, effects, &mut registry, &mut bus);
    feed(&mut c, Input::Line("   \n".to_string()), &mut registry, &mut bus);
    assert_eq!(c.received, vec!["Enter your Username: ", "Enter your Username: "]);
    assert_eq!(registry.len(), 0);
    feed(&mut c, Input::Line(" alice \r\n".to_string()), &mut registry, &mut bus);
    assert_eq!(registry.snapshot_names(), vec!["alice"]);
    assert!(matches!(c.session.state, SessionState::Active(ref n) if n == "alice"));
}

#[test]
fn session_eof_before_name_does_not_register() {
    let mut registry = Registry::new();
    let mut bus = Bus::new(8);
    let watcher = bus.subscribe().unwrap();
    let (session, effects) = Session::new();
    let mut c = Client { id: 1, session, sub: None, received: Vec::new() };
    apply(&mut c, effects, &mut registry, &mut bus);
    feed(&mut c, Input::Eof, &mut registry, &mut bus);
    assert!(c.session.is_terminated());
    assert_eq!(registry.len(), 0);
    assert!(matches!(bus.receive(watcher), Delivery::Empty));
}

#[test]
fn joiner_does_not_see_own_join_notice() {
    let mut registry = Registry::new();
    let mut bus = Bus::new(8);
    let mut a = connect(1, "alice", &mut registry, &mut bus);
    drain(&mut a, &mut registry, &mut bus);
    assert_eq!(a.received, vec!["Enter your Username: "]);
}

#[test]
fn users_with_no_one_else_lists_self() {
    let mut registry = Registry::new();
    let mut bus = Bus::new(8);
    let mut a = connect(1, "alice", &mut registry, &mut bus);
    feed(&mut a, Input::Line("/users\n".to_string()), &mut registry, &mut bus);
    assert_eq!(a.received.last().unwrap(), "Connected users: alice\n");
}

#[test]
fn quit_says_goodbye_then_nothing_more() {
    let mut registry = Registry::new();
    let mut bus = Bus::new(8);
    let mut a = connect(1, "alice", &mut registry, &mut bus);
    let mut b = connect(2, "bob", &mut registry, &mut bus);
    drain(&mut a, &mut registry, &mut bus);
    let before = a.received.len();
    feed(&mut a, Input::Line("/quit\n".to_string()), &mut registry, &mut bus);
    assert_eq!(&a.received[before..], &["Goodbye!\n".to_string()]);
    assert!(a.session.is_terminated());
    assert!(a.sub.is_none());
    feed(&mut b, Input::Line("anyone?".to_string()), &mut registry, &mut bus);
    feed(&mut a, Input::Delivered("bob: anyone?\n".to_string()), &mut registry, &mut bus);
    assert_eq!(a.received.len(), before + 1);
    drain(&mut b, &mut registry, &mut bus);
    assert_eq!(registry.snapshot_names(), vec!["bob"]);
    assert!(b.received.contains(&"*** alice has left the chat ***\n".to_string()));
}

#[test]
fn two_clients_chat_list_and_leave() {
    let mut registry = Registry::new();
    let mut bus = Bus::new(16);
    let mut a = connect(1, "alice", &mut registry, &mut bus);
    let mut b = connect(2, "bob", &mut registry, &mut bus);
    drain(&mut a, &mut registry, &mut bus);
    drain(&mut b, &mut registry, &mut bus);
    assert_eq!(a.received.last().unwrap(), "*** bob has joined the chat ***\n");

    feed(&mut a, Input::Line("hello\n".to_string()), &mut registry, &mut bus);
    drain(&mut b, &mut registry, &mut bus);
    assert_eq!(b.received.last().unwrap(), "alice: hello\n");

    feed(&mut b, Input::Line("/users\n".to_string()), &mut registry, &mut bus);
    assert_eq!(b.received.last().unwrap(), "Connected users: alice, bob\n");

    feed(&mut a, Input::Eof, &mut registry, &mut bus);
    drain(&mut b, &mut registry, &mut bus);
    assert_eq!(b.received.last().unwrap(), "*** alice has left the chat ***\n");
    assert_eq!(registry.snapshot_names(), vec!["bob"]);
}

#[test]
fn same_line_twice_is_delivered_twice() {
    let mut registry = Registry::new();
    let mut bus = Bus::new(16);
    let mut a = connect(1, "alice", &mut registry, &mut bus);
    let mut b = connect(2, "bob", &mut registry, &mut bus);
    drain(&mut b, &mut registry, &mut bus);
    let before = b.received.len();
    feed(&mut a, Input::Line("ping".to_string()), &mut registry, &mut bus);
    feed(&mut a, Input::Line("ping".to_string()), &mut registry, &mut bus);
    drain(&mut b, &mut registry, &mut bus);
    assert_eq!(&b.received[before..], &["alice: ping\n".to_string(), "alice: ping\n".to_string()]);
}

#[test]
fn lag_signal_writes_nothing_and_keeps_session() {
    let mut registry = Registry::new();
    let mut bus = Bus::new(8);
    let mut a = connect(1, "alice", &mut registry, &mut bus);
    let before = a.received.len();
    feed(&mut a, Input::Lagged(3), &mut registry, &mut bus);
    assert_eq!(a.received.len(), before);
    assert!(!a.session.is_terminated());
}

#[test]
fn write_failure_tears_down_session() {
    let mut registry = Registry::new();
    let mut bus = Bus::new(8);
    let watcher = bus.subscribe().unwrap();
    let mut a = connect(1, "alice", &mut registry, &mut bus);
    feed(&mut a, Input::WriteFailed, &mut registry, &mut bus);
    assert!(a.session.is_terminated());
    assert_eq!(registry.len(), 0);
    assert!(matches!(bus.receive(watcher), Delivery::Message(m) if m == "*** alice has joined the chat ***\n"));
    assert!(matches!(bus.receive(watcher), Delivery::Message(m) if m == "*** alice has left the chat ***\n"));
}

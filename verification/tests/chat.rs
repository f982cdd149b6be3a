//! The chat room: name validation, the join protocol, chat fan-out and
//! leaving, driven through the session state machine.

use protohackers::name_is_valid;
use protohackers::registry::Registry;
use protohackers::session::Session;
use protohackers::session::welcome_line;

#[test]
fn check_name() {
    assert!(!name_is_valid(b""));
    assert!(!name_is_valid(b" "));
    assert!(name_is_valid(b"John"));
    assert!(!name_is_valid(b"John Doe 123"));
    assert!(!name_is_valid(b"123456789012345678901234567890123"));
    assert!(name_is_valid(b"1234567890123456"));
    assert!(name_is_valid(b"LargeNewbie639"));
}

#[test]
fn welcome_prompt() {
    assert_eq!(
        welcome_line(),
        b"Welcome to budgetchat! What shall I call you?\n".to_vec()
    );
}

#[test]
fn empty_name_is_rejected() {
    let mut registry = Registry::new();
    let mut session = Session::new();

    let eff = session.on_peer_line(b"", &mut registry);
    assert!(eff.publish.is_none());
    assert_eq!(eff.send, Some(b"error: name is empty\n".to_vec()));
    assert!(eff.close);
    assert!(!session.is_joined());

    // The rejected session never appears in a roster.
    assert_eq!(registry.len(), 0);
    let farewell = session.on_disconnect(&mut registry);
    assert!(farewell.is_none());
    assert_eq!(registry.len(), 0);
}

#[test]
fn two_sequential_joins() {
    let mut registry = Registry::new();

    let mut alice = Session::new();
    let eff = alice.on_peer_line(b"alice", &mut registry);
    assert!(!eff.close);
    assert_eq!(eff.send, Some(b"* The room contains: \n".to_vec()));
    let entered = eff.publish.expect("join publishes an announcement");
    assert_eq!(entered.text, b"* alice has entered the room".to_vec());
    // Nobody else is joined yet, and alice never hears her own announcement.
    assert_eq!(alice.on_bus_message(&entered), None);

    let mut federico = Session::new();
    let eff = federico.on_peer_line(b"federico", &mut registry);
    assert!(!eff.close);
    assert_eq!(eff.send, Some(b"* The room contains: alice\n".to_vec()));
    let entered = eff.publish.expect("join publishes an announcement");
    assert_eq!(entered.text, b"* federico has entered the room".to_vec());

    // Alice receives federico's announcement; federico does not.
    assert_eq!(
        alice.on_bus_message(&entered),
        Some(b"* federico has entered the room\n".to_vec())
    );
    assert_eq!(federico.on_bus_message(&entered), None);
}

#[test]
fn roster_is_comma_separated() {
    let mut registry = Registry::new();

    Session::new().on_peer_line(b"a", &mut registry);
    Session::new().on_peer_line(b"b", &mut registry);
    Session::new().on_peer_line(b"c", &mut registry);

    let mut late = Session::new();
    let eff = late.on_peer_line(b"d", &mut registry);
    assert_eq!(eff.send, Some(b"* The room contains: a, b, c\n".to_vec()));
}

#[test]
fn chat_line_reaches_everyone_but_the_sender() {
    let mut registry = Registry::new();

    let mut alice = Session::new();
    alice.on_peer_line(b"alice", &mut registry);
    let mut bob = Session::new();
    bob.on_peer_line(b"bob", &mut registry);
    let mut federico = Session::new();
    federico.on_peer_line(b"federico", &mut registry);

    let eff = federico.on_peer_line(b"Just one more thing", &mut registry);
    assert!(eff.send.is_none());
    assert!(!eff.close);
    let msg = eff.publish.expect("a chat line is published");
    assert_eq!(msg.text, b"[federico] Just one more thing".to_vec());

    let expected = Some(b"[federico] Just one more thing\n".to_vec());
    assert_eq!(alice.on_bus_message(&msg), expected);
    assert_eq!(bob.on_bus_message(&msg), expected);
    assert_eq!(federico.on_bus_message(&msg), None);
}

#[test]
fn leaving_announces_and_clears_the_roster() {
    let mut registry = Registry::new();

    let mut alice = Session::new();
    alice.on_peer_line(b"alice", &mut registry);
    let mut federico = Session::new();
    federico.on_peer_line(b"federico", &mut registry);

    let farewell = federico
        .on_disconnect(&mut registry)
        .expect("a joined session announces its leave");
    assert_eq!(farewell.text, b"* federico has left the room".to_vec());
    assert_eq!(
        alice.on_bus_message(&farewell),
        Some(b"* federico has left the room\n".to_vec())
    );

    // The name is gone from every later roster.
    let roster = registry.snapshot();
    assert_eq!(roster, vec![b"alice".to_vec()]);
}

#[test]
fn identifying_session_receives_nothing() {
    let mut registry = Registry::new();
    let mut alice = Session::new();
    alice.on_peer_line(b"alice", &mut registry);

    let eff = alice.on_peer_line(b"hello", &mut registry);
    let msg = eff.publish.unwrap();

    let newcomer = Session::new();
    assert_eq!(newcomer.on_bus_message(&msg), None);
}

#[test]
fn delivered_lines_end_with_one_terminator() {
    let mut registry = Registry::new();
    let mut alice = Session::new();
    alice.on_peer_line(b"alice", &mut registry);
    let mut bob = Session::new();
    bob.on_peer_line(b"bob", &mut registry);

    // A published line that already carries its terminator is not doubled.
    let eff = bob.on_peer_line(b"hi there", &mut registry);
    let mut msg = eff.publish.unwrap();
    msg.text.push(b'\n');
    assert_eq!(
        alice.on_bus_message(&msg),
        Some(b"[bob] hi there\n".to_vec())
    );
}

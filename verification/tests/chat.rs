use chat_core::handler::{Action, ConnEvent, Handler, HandlerPhase};
use chat_core::message::Message;
use chat_core::room::{BroadcastProgress, Registry, QUEUE_CAPACITY};

fn pop_line(room: &mut Registry, key: u64) -> Option<String> {
    room.pop(key).map(|m| m.render())
}

#[test]
fn render_rules() {
    assert_eq!(
        Message::joined(String::from("alice")).render(),
        "alice joined the chat"
    );
    assert_eq!(
        Message::left(String::from("bob")).render(),
        "bob left the chat"
    );
    assert_eq!(
        Message::chat(String::from("alice"), String::from("hi")).render(),
        "alice: hi"
    );
}

#[test]
fn register_remove_contains() {
    let mut room = Registry::new();
    assert_eq!(room.len(), 0);
    assert!(!room.contains(1));
    room.register(1, String::from("alice"));
    assert_eq!(room.len(), 1);
    assert!(room.contains(1));
    assert!(room.remove(1));
    assert!(!room.contains(1));
    assert!(!room.remove(1));
    assert_eq!(room.len(), 0);
}

#[test]
fn broadcast_excludes_sender() {
    let mut room = Registry::new();
    room.register(1, String::from("a"));
    room.register(2, String::from("b"));
    room.register(3, String::from("c"));
    room.register(4, String::from("d"));
    let m = Message::chat(String::from("a"), String::from("hello"));
    let r = room.broadcast(1, &m);
    assert!(matches!(r, BroadcastProgress::Completed));
    // Exactly one delivery per other peer, none to the sender.
    assert!(room.pop(1).is_none());
    for key in 2..=4u64 {
        assert_eq!(pop_line(&mut room, key).as_deref(), Some("a: hello"));
        assert!(room.pop(key).is_none());
    }
}

#[test]
fn queue_is_fifo() {
    let mut room = Registry::new();
    room.register(1, String::from("a"));
    room.register(2, String::from("b"));
    let m1 = Message::chat(String::from("a"), String::from("first"));
    let m2 = Message::chat(String::from("a"), String::from("second"));
    let m3 = Message::chat(String::from("a"), String::from("third"));
    room.broadcast(1, &m1);
    room.broadcast(1, &m2);
    room.broadcast(1, &m3);
    assert_eq!(pop_line(&mut room, 2).as_deref(), Some("a: first"));
    assert_eq!(pop_line(&mut room, 2).as_deref(), Some("a: second"));
    assert_eq!(pop_line(&mut room, 2).as_deref(), Some("a: third"));
    assert!(room.pop(2).is_none());
}

#[test]
fn closed_queue_is_skipped() {
    let mut room = Registry::new();
    room.register(1, String::from("a"));
    room.register(2, String::from("b"));
    room.register(3, String::from("c"));
    room.close_queue(2);
    let m = Message::chat(String::from("a"), String::from("x"));
    let r = room.broadcast(1, &m);
    assert!(matches!(r, BroadcastProgress::Completed));
    assert!(room.pop(2).is_none());
    assert_eq!(pop_line(&mut room, 3).as_deref(), Some("a: x"));
}

#[test]
fn full_queue_suspends_without_losing_earlier_deliveries() {
    let mut room = Registry::new();
    room.register(1, String::from("sender"));
    room.register(2, String::from("roomy"));
    room.register(3, String::from("slow"));
    // Fill both receiving queues to capacity.
    for i in 0..QUEUE_CAPACITY {
        let m = Message::chat(String::from("sender"), format!("{}", i));
        let r = room.broadcast(1, &m);
        assert!(matches!(r, BroadcastProgress::Completed));
    }
    // Make room on peer 2 only; peer 3 stays full.
    assert!(room.pop(2).is_some());
    let m = Message::chat(String::from("sender"), String::from("last"));
    let r = room.broadcast(1, &m);
    // The broadcast suspends at peer 3 (position 2 of the iteration order),
    // after peer 2 already received its copy.
    match r {
        BroadcastProgress::Suspended { index } => assert_eq!(index, 2),
        BroadcastProgress::Completed => panic!("expected a suspended broadcast"),
    }
    // Peer 2's deliveries are intact: the remaining backlog, then "last".
    for i in 1..QUEUE_CAPACITY {
        assert_eq!(pop_line(&mut room, 2).as_deref(), Some(format!("sender: {}", i).as_str()));
    }
    assert_eq!(pop_line(&mut room, 2).as_deref(), Some("sender: last"));
    assert!(room.pop(2).is_none());
    // Draining one slot of peer 3 lets the broadcast resume and complete,
    // with nothing dropped.
    assert_eq!(pop_line(&mut room, 3).as_deref(), Some("sender: 0"));
    let r = room.broadcast_from(1, &m, 2);
    assert!(matches!(r, BroadcastProgress::Completed));
    for i in 1..QUEUE_CAPACITY {
        assert_eq!(pop_line(&mut room, 3).as_deref(), Some(format!("sender: {}", i).as_str()));
    }
    assert_eq!(pop_line(&mut room, 3).as_deref(), Some("sender: last"));
    assert!(room.pop(3).is_none());
}

#[test]
fn departure_announced_once_and_key_removed() {
    let mut room = Registry::new();
    room.register(1, String::from("a"));
    room.register(2, String::from("b"));
    room.register(3, String::from("c"));
    let r = room.depart_from(3, 0);
    assert!(matches!(r, BroadcastProgress::Completed));
    assert!(!room.contains(3));
    assert_eq!(room.len(), 2);
    for key in 1..=2u64 {
        assert_eq!(pop_line(&mut room, key).as_deref(), Some("c left the chat"));
        assert!(room.pop(key).is_none());
    }
}

#[test]
fn handler_lifecycle() {
    let mut room = Registry::new();

    // Client B connects and completes its handshake first.
    let mut hb = Handler::new(2);
    let a = hb.on_event(ConnEvent::Line { text: String::from("bob") });
    match a {
        Action::Join { name } => {
            assert_eq!(name, "bob");
            let r = room.join(2, name);
            assert!(matches!(r, BroadcastProgress::Completed));
        }
        _ => panic!("expected a join"),
    }
    // Nobody else is registered: bob's arrival is announced to no one.
    assert!(room.pop(2).is_none());

    // Client A completes its handshake as "alice"; B observes it.
    let mut ha = Handler::new(1);
    let a = ha.on_event(ConnEvent::Line { text: String::from("alice") });
    match a {
        Action::Join { name } => {
            let r = room.join(1, name);
            assert!(matches!(r, BroadcastProgress::Completed));
        }
        _ => panic!("expected a join"),
    }
    assert_eq!(pop_line(&mut room, 2).as_deref(), Some("alice joined the chat"));
    // The newly registered peer receives nothing retroactively.
    assert!(room.pop(1).is_none());

    // A sends one line; B receives it, A does not.
    let a = ha.on_event(ConnEvent::Line { text: String::from("hi") });
    match a {
        Action::Chat { message } => {
            let r = room.broadcast(1, &message);
            assert!(matches!(r, BroadcastProgress::Completed));
        }
        _ => panic!("expected a chat"),
    }
    assert_eq!(pop_line(&mut room, 2).as_deref(), Some("alice: hi"));
    assert!(room.pop(1).is_none());

    // B disconnects; A is told.
    let a = hb.on_event(ConnEvent::Ended);
    assert!(matches!(a, Action::Leave));
    let r = room.depart_from(2, 0);
    assert!(matches!(r, BroadcastProgress::Completed));
    assert!(!room.contains(2));
    assert_eq!(pop_line(&mut room, 1).as_deref(), Some("bob left the chat"));

    // The closing phase is terminal.
    let a = hb.on_event(ConnEvent::Line { text: String::from("late") });
    assert!(matches!(a, Action::Nothing));
}

#[test]
fn handshake_abort_registers_nothing() {
    let mut room = Registry::new();
    room.register(9, String::from("watcher"));

    // A client connects and closes before sending a name.
    let mut h = Handler::new(5);
    let a = h.on_event(ConnEvent::Ended);
    assert!(matches!(a, Action::Stop));
    assert!(!room.contains(5));
    assert_eq!(room.len(), 1);
    // No broadcast reached the one registered peer.
    assert!(room.pop(9).is_none());

    // The same holds when the handshake read fails.
    let mut h2 = Handler::new(6);
    let a = h2.on_event(ConnEvent::Failed);
    assert!(matches!(a, Action::Stop));
    assert!(!room.contains(6));
    assert!(room.pop(9).is_none());
}

#[test]
fn read_failure_leaves_like_clean_disconnect() {
    let mut room = Registry::new();
    room.register(1, String::from("a"));
    room.register(2, String::from("b"));
    let mut h = Handler::new(2);
    h.on_event(ConnEvent::Line { text: String::from("b") });
    let a = h.on_event(ConnEvent::Failed);
    assert!(matches!(a, Action::Leave));
    let r = room.depart_from(2, 0);
    assert!(matches!(r, BroadcastProgress::Completed));
    assert!(!room.contains(2));
    assert_eq!(pop_line(&mut room, 1).as_deref(), Some("b left the chat"));
}

#[test]
fn handshake_prompt_is_fixed() {
    assert_eq!(chat_core::handler::HANDSHAKE_PROMPT, "send your name: ");
    // The phase enum is part of the public surface the runtime matches on.
    let _ = HandlerPhase::Handshaking;
}

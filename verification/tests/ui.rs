use nostr_sdk::{Keys, ToBech32};
use sigil::ui::{send_target, SendTarget};
use sigil::chat::ChatEntry;
use sigil::contacts::ContactBook;
use sigil::message::SigilMessage;
use sigil::ui::{handle_command, App, InputMode, JoinedChannel, KeyAction, KeyInput};

fn app() -> App {
    App::new(ContactBook::default(), "npub1me".to_string())
}

fn ch(c: char) -> KeyInput {
    KeyInput::Char { c, ctrl: false }
}

fn text(from_me: bool, sender: &str, ts: u64) -> ChatEntry {
    ChatEntry {
        from_me,
        sender_npub: sender.into(),
        content: SigilMessage::Text("hi".into()),
        timestamp: ts,
    }
}

#[test]
fn new_app_state() {
    let a = app();
    assert!(a.contacts.contacts.is_empty());
    assert!(a.channels.is_empty());
    assert_eq!(a.input, "");
    assert_eq!(a.input_mode, InputMode::Normal);
    assert_eq!(a.selected_contact, 0);
    assert_eq!(a.scroll_offset, 0);
    assert_eq!(a.my_npub, "npub1me");
    assert_eq!(a.status_line, "Connecting...");
    assert!(!a.should_quit);
    assert!(a.selected_peer_key().is_none());
    assert!(!a.selected_is_channel());
}

#[test]
fn peer_list_order() {
    let mut a = app();
    a.contacts.add_npub("npub1bob", "Bob");
    a.channels.push(JoinedChannel { id: "abcdef0123".into(), name: "dev".into() });
    a.history.add_message("npub1zed", text(false, "npub1zed", 5));
    a.history.add_message("npub1bob", text(false, "npub1bob", 9));
    a.history.add_message("npub1amy", text(false, "npub1amy", 7));
    assert_eq!(
        a.peer_list(),
        vec![
            "ch:abcdef0123".to_string(),
            "npub1bob".to_string(),
            "npub1amy".to_string(),
            "npub1zed".to_string(),
        ]
    );
    assert_eq!(a.selected_peer_key().as_deref(), Some("ch:abcdef0123"));
    assert!(a.selected_is_channel());
    a.selected_contact = 1;
    assert!(!a.selected_is_channel());
}

#[test]
fn peer_display_names() {
    let mut a = app();
    a.contacts.add_npub("npub1bob", "Bob");
    a.channels.push(JoinedChannel { id: "abcdef0123".into(), name: "dev".into() });
    assert_eq!(a.peer_display_name("ch:abcdef0123"), "dev");
    assert_eq!(a.peer_display_name("ch:0123456789abcdef"), "#01234567...");
    assert_eq!(a.peer_display_name("ch:0123"), "#0123...");
    assert_eq!(a.peer_display_name("npub1bob"), "Bob");
    assert_eq!(a.peer_display_name("npub1zzzzzzzzzzzzzzzzzz"), "npub1zzzzzzzzzzz...");
}

#[test]
fn normal_mode_keys() {
    let mut a = app();
    a.contacts.add_npub("npub1a", "A");
    a.contacts.add_npub("npub1b", "B");
    assert!(matches!(a.on_key(KeyInput::Down), KeyAction::Nothing));
    assert_eq!(a.selected_contact, 1);
    a.on_key(ch('j'));
    assert_eq!(a.selected_contact, 1); // stays on the last peer
    a.on_key(ch('k'));
    assert_eq!(a.selected_contact, 0);
    a.on_key(KeyInput::Up);
    assert_eq!(a.selected_contact, 0);
    a.on_key(ch('x'));
    assert_eq!(a.input_mode, InputMode::Normal);
    a.on_key(KeyInput::Char { c: 'c', ctrl: true });
    assert!(a.should_quit);
}

#[test]
fn typing_and_sending() {
    let mut a = app();
    a.contacts.add_npub("npub1a", "A");
    a.on_key(ch('i'));
    assert_eq!(a.input_mode, InputMode::Editing);
    for c in "hey".chars() {
        a.on_key(ch(c));
    }
    a.on_key(KeyInput::Backspace);
    assert_eq!(a.input, "he");
    match a.on_key(KeyInput::Enter) {
        KeyAction::SendDm { peer, content } => {
            assert_eq!(peer, "npub1a");
            assert_eq!(content, "he");
        }
        _ => panic!("expected a message to send"),
    }
    assert_eq!(a.input, "");
    assert_eq!(a.input_mode, InputMode::Editing);
    // an empty line sends nothing
    assert!(matches!(a.on_key(KeyInput::Enter), KeyAction::Nothing));
    a.on_key(ch('z'));
    a.on_key(KeyInput::Esc);
    assert_eq!(a.input, "");
    assert_eq!(a.input_mode, InputMode::Normal);
}

#[test]
fn sending_without_peer_keeps_text() {
    let mut a = app();
    a.on_key(KeyInput::Enter);
    a.on_key(ch('x'));
    assert!(matches!(a.on_key(KeyInput::Enter), KeyAction::Nothing));
    assert_eq!(a.input, "x");
}

#[test]
fn command_mode_keys() {
    let mut a = app();
    a.on_key(ch('/'));
    assert_eq!(a.input_mode, InputMode::Command);
    assert_eq!(a.input, "/");
    a.on_key(KeyInput::Backspace);
    assert_eq!(a.input_mode, InputMode::Normal);
    a.on_key(ch('/'));
    for c in "add npub1new Neo".chars() {
        a.on_key(ch(c));
    }
    assert!(matches!(a.on_key(KeyInput::Enter), KeyAction::SaveContacts));
    assert_eq!(a.status_line, "Added: Neo");
    assert_eq!(a.input, "");
    assert_eq!(a.input_mode, InputMode::Normal);
    a.on_key(ch('/'));
    for c in "whoami".chars() {
        a.on_key(ch(c));
    }
    assert!(matches!(a.on_key(KeyInput::Enter), KeyAction::Nothing));
    assert_eq!(a.status_line, "npub: npub1me");
}

#[test]
fn commands() {
    let mut a = app();
    assert!(handle_command("/add npub1x", &mut a));
    assert_eq!(a.status_line, "Added: Unknown");
    assert!(!handle_command("/add npub1x Again", &mut a));
    assert_eq!(a.status_line, "Already exists.");
    assert!(handle_command(
        "/add sigil://agent?npub=npub1bot&relay=wss%3A%2F%2Fr&name=Bot%20One",
        &mut a
    ));
    assert_eq!(a.status_line, "Added agent: Bot One");
    assert!(!handle_command("/add sigil://agent?broken", &mut a));
    assert_eq!(a.status_line, "Already exists or invalid URI");
    assert!(!handle_command("/add alice", &mut a));
    assert_eq!(a.status_line, "Usage: /add <npub|sigil://...> [name]");
    assert!(!handle_command("/add", &mut a));
    assert_eq!(a.status_line, "Usage: /add <npub|sigil://...> [name]");
    assert!(!handle_command("  /whoami  ", &mut a));
    assert_eq!(a.status_line, "npub: npub1me");
    assert!(!handle_command("/help", &mut a));
    assert_eq!(
        a.status_line,
        "/add <addr> [name] | /whoami | /quit | j/k=nav | i=type | q=quit"
    );
    assert!(!handle_command("/nope x", &mut a));
    assert_eq!(a.status_line, "Unknown command: /nope x");
    assert!(!a.should_quit);
    assert!(!handle_command("/q", &mut a));
    assert!(a.should_quit);
    assert_eq!(a.contacts.contacts.len(), 2);
    // the third word keeps its spaces
    let mut b = app();
    assert!(handle_command("/add npub1y Mr  Smith", &mut b));
    assert_eq!(b.contacts.contacts[0].name, "Mr  Smith");
}

#[test]
fn received_message_selects_single_peer() {
    let mut a = app();
    a.selected_contact = 3;
    a.receive_dm("npub1x", SigilMessage::Text("hello".into()), 42);
    assert_eq!(a.selected_contact, 0);
    let m = a.history.get_messages("npub1x");
    assert_eq!(m.len(), 1);
    assert!(!m[0].from_me);
    assert_eq!(m[0].sender_npub, "npub1x");
    assert_eq!(m[0].timestamp, 42);
    a.selected_contact = 1;
    a.receive_dm("npub1y", SigilMessage::Text("hi".into()), 43);
    assert_eq!(a.selected_contact, 1);
    assert_eq!(a.peer_list(), vec!["npub1y".to_string(), "npub1x".to_string()]);
}

#[test]
fn send_targets_and_recording() {
    let k = Keys::generate();
    let npub = k.public_key().to_bech32().unwrap();
    assert!(matches!(send_target("ch:c0ffee"), SendTarget::Channel(ref id) if id == "c0ffee"));
    match send_target(&npub) {
        SendTarget::Direct(b) => assert_eq!(b, k.public_key().to_bytes().to_vec()),
        other => panic!("unexpected {:?}", other),
    }
    assert!(matches!(send_target("npub1notakey"), SendTarget::Unreachable));

    let mut a = app();
    assert!(matches!(a.send_message("npub1notakey", SigilMessage::Text("x".into()), 1), SendTarget::Unreachable));
    assert!(a.history.get_messages("npub1notakey").is_empty());
    assert!(matches!(a.send_message(&npub, SigilMessage::Text("hi".into()), 2), SendTarget::Direct(_)));
    let m = a.history.get_messages(&npub);
    assert_eq!(m.len(), 1);
    assert!(m[0].from_me);
    assert_eq!(m[0].sender_npub, "npub1me");
    assert_eq!(m[0].timestamp, 2);

    a.receive_channel("c0ffee", "npub1me", SigilMessage::Text("mine".into()), 3);
    a.receive_channel("c0ffee", "npub1other", SigilMessage::Text("theirs".into()), 4);
    let c = a.history.get_messages("ch:c0ffee");
    assert_eq!(c.len(), 2);
    assert!(c[0].from_me);
    assert!(!c[1].from_me);
    assert_eq!(c[1].sender_npub, "npub1other");
}

#[test]
fn display_checks() {
    let mut a = app();
    a.channels.push(JoinedChannel { id: "\u{e9}\u{e9}\u{e9}\u{e9}\u{e9}".into(), name: "x".into() });
    assert!(a.peer_display_valid("ch:\u{e9}\u{e9}\u{e9}\u{e9}\u{e9}"));
    assert!(!a.peer_display_valid("ch:a\u{e9}\u{e9}\u{e9}\u{e9}"));
    assert!(a.peer_display_valid("ch:abcdefghij"));
    assert!(a.peer_display_valid("npub1short"));
    assert!(!a.peer_display_valid("npub1abcdefghij\u{e9}xyz"));
    assert!(a.contacts.display_name_valid("npub1abcdefghijk\u{e9}"));
}

#[test]
fn selection_stays_within_peer_list() {
    let mut a = app();
    // no peers: moving down keeps the first entry
    for _ in 0..3 {
        a.on_key(KeyInput::Down);
        assert_eq!(a.selected_contact, 0);
    }
    a.receive_dm("npub1a", SigilMessage::Text("1".into()), 1);
    a.receive_dm("npub1b", SigilMessage::Text("2".into()), 2);
    handle_command("/add npub1c Carol", &mut a);
    assert_eq!(a.peer_list().len(), 3);
    for _ in 0..5 {
        a.on_key(ch('j'));
        assert!(a.selected_contact < a.peer_list().len());
    }
    assert_eq!(a.selected_contact, 2);
    a.receive_channel("abc", "npub1z", SigilMessage::Text("3".into()), 3);
    assert_eq!(a.selected_contact, 2);
    assert!(a.selected_contact < a.peer_list().len());
    for _ in 0..5 {
        a.on_key(KeyInput::Up);
    }
    assert_eq!(a.selected_contact, 0);
}

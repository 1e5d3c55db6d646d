use sigil::chat::{render_tui_for_terminal, ChatEntry, ChatHistory};
use sigil::message::SigilMessage;
use sigil::tui::{TuiButton, TuiMessage};

fn entry(from_me: bool, sender: &str, text: &str, ts: u64) -> ChatEntry {
    ChatEntry {
        from_me,
        sender_npub: sender.to_string(),
        content: SigilMessage::Text(text.to_string()),
        timestamp: ts,
    }
}

fn button(id: &str, label: &str) -> TuiButton {
    TuiButton { id: id.into(), label: label.into(), style: None }
}

#[test]
fn history_keeps_order_per_peer() {
    let mut h = ChatHistory::new();
    assert!(h.get_messages("npub1a").is_empty());
    h.add_message("npub1a", entry(false, "npub1a", "one", 1));
    h.add_message("npub1b", entry(false, "npub1b", "two", 2));
    h.add_message("npub1a", entry(true, "npub1me", "three", 3));
    let a = h.get_messages("npub1a");
    assert_eq!(a.len(), 2);
    assert!(matches!(a[0].content, SigilMessage::Text(ref s) if s == "one"));
    assert!(matches!(a[1].content, SigilMessage::Text(ref s) if s == "three"));
    assert_eq!(h.get_messages("npub1b").len(), 1);
    assert!(h.get_messages("npub1c").is_empty());
}

#[test]
fn active_peers_most_recent_first() {
    let mut h = ChatHistory::new();
    assert!(h.active_peers().is_empty());
    h.add_message("a", entry(false, "a", "x", 10));
    h.add_message("b", entry(false, "b", "x", 30));
    h.add_message("c", entry(false, "c", "x", 20));
    assert_eq!(h.active_peers(), vec!["b".to_string(), "c".to_string(), "a".to_string()]);
    h.add_message("a", entry(true, "me", "y", 40));
    assert_eq!(h.active_peers(), vec!["a".to_string(), "b".to_string(), "c".to_string()]);
}

#[test]
fn render_text() {
    let t = TuiMessage::Text { content: "hello".into() };
    assert_eq!(render_tui_for_terminal(&t), vec!["hello".to_string()]);
}

#[test]
fn render_buttons() {
    let b = TuiMessage::Buttons {
        text: Some("Pick one".into()),
        items: vec![button("y", "Yes"), button("n", "No")],
    };
    assert_eq!(
        render_tui_for_terminal(&b),
        vec!["Pick one".to_string(), " [1] Yes    [2] No ".to_string()]
    );
    let none = TuiMessage::Buttons { text: None, items: vec![] };
    assert_eq!(render_tui_for_terminal(&none), vec!["".to_string()]);
}

#[test]
fn render_card() {
    let c = TuiMessage::Card {
        title: "Weather".into(),
        description: Some("Sunny".into()),
        image_url: Some("https://x/y.png".into()),
        actions: Some(vec![button("r", "Refresh"), button("c", "Close")]),
    };
    assert_eq!(
        render_tui_for_terminal(&c),
        vec![
            "\u{250c}\u{2500} Weather \u{2500}\u{2510}".to_string(),
            "\u{2502} Sunny".to_string(),
            "\u{2502} [1] Refresh  [2] Close".to_string(),
            "\u{2514}\u{2500}\u{2500}\u{2500}\u{2500}\u{2500}\u{2500}\u{2500}\u{2500}\u{2518}".to_string(),
        ]
    );
    let bare = TuiMessage::Card { title: "T".into(), description: None, image_url: None, actions: None };
    assert_eq!(render_tui_for_terminal(&bare).len(), 2);
}

#[test]
fn render_table() {
    let t = TuiMessage::Table {
        title: Some("Stats".into()),
        rows: vec![
            ("cpu".into(), "5%".into()),
            ("a-very-long-key-name".into(), "v".into()),
        ],
    };
    assert_eq!(
        render_tui_for_terminal(&t),
        vec![
            "\u{2500}\u{2500} Stats \u{2500}\u{2500}".to_string(),
            format!("  cpu{} 5%", " ".repeat(13)),
            "  a-very-long-key-name v".to_string(),
        ]
    );
    let empty = TuiMessage::Table { title: None, rows: vec![] };
    assert!(render_tui_for_terminal(&empty).is_empty());
}

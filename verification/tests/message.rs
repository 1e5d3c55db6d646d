use sigil::file::FileMessage;
use sigil::message::SigilMessage;
use sigil::tui::{ButtonStyle, TuiButton, TuiMessage};

#[test]
fn test_parse_plain_text() {
    let msg = SigilMessage::parse("hello world", None, None);
    assert!(matches!(msg, SigilMessage::Text(ref s) if s == "hello world"));
}

#[test]
fn test_parse_button_callback() {
    let msg = SigilMessage::parse("sigil:callback:btn_yes", None, None);
    assert!(matches!(msg, SigilMessage::ButtonCallback { ref button_id } if button_id == "btn_yes"));
}

#[test]
fn test_parse_tui_message() {
    let json = r#"{"type":"text","content":"hello from agent"}"#;
    // what the JSON decodes to as a TUI message
    let decoded = TuiMessage::Text { content: "hello from agent".to_string() };
    let msg = SigilMessage::parse(json, None, Some(decoded));
    assert!(matches!(msg, SigilMessage::Tui(_)));
}

#[test]
fn test_parse_file_message() {
    let json = r#"{"type":"file","url":"https://nostr.build/test.png","mime_type":"image/png"}"#;
    // what the JSON decodes to as a file reference
    let decoded = FileMessage::new("https://nostr.build/test.png", "image/png");
    let msg = SigilMessage::parse(json, Some(decoded), None);
    assert!(matches!(msg, SigilMessage::File(_)));
}

#[test]
fn test_text_roundtrip() {
    let original = SigilMessage::Text("test message".into());
    let content = original.to_content().unwrap();
    let parsed = SigilMessage::parse(&content, None, None);
    assert!(matches!(parsed, SigilMessage::Text(ref s) if s == "test message"));
}

#[test]
fn test_callback_roundtrip() {
    let original = SigilMessage::ButtonCallback { button_id: "action_1".into() };
    let content = original.to_content().unwrap();
    let parsed = SigilMessage::parse(&content, None, None);
    assert!(matches!(parsed, SigilMessage::ButtonCallback { ref button_id } if button_id == "action_1"));
}

#[test]
fn test_invalid_json_falls_back_to_text() {
    // the text does not decode, as a file reference or as a TUI message
    let msg = SigilMessage::parse("{broken json", None, None);
    assert!(matches!(msg, SigilMessage::Text(_)));
}

#[test]
fn callback_content_exact() {
    let m = SigilMessage::ButtonCallback { button_id: "x y".into() };
    assert_eq!(m.to_content().as_deref(), Some("sigil:callback:x y"));
    let empty = SigilMessage::parse("sigil:callback:", None, None);
    assert!(matches!(empty, SigilMessage::ButtonCallback { ref button_id } if button_id.is_empty()));
}

#[test]
fn structured_messages_have_no_plain_content() {
    let t = SigilMessage::Tui(TuiMessage::Text { content: "a".into() });
    assert!(t.to_content().is_none());
    let f = SigilMessage::File(FileMessage::new("u", "m"));
    assert!(f.to_content().is_none());
}

#[test]
fn file_wins_over_tui() {
    let json = r#" {"type":"file","url":"u","mime_type":"m"} "#;
    let msg = SigilMessage::parse(
        json,
        Some(FileMessage::new("u", "m")),
        Some(TuiMessage::Text { content: "t".into() }),
    );
    assert!(matches!(msg, SigilMessage::File(ref f) if f.url == "u"));
}

#[test]
fn undecodable_file_marker_falls_to_tui_then_text() {
    let json = r#"{"type":"file"}"#;
    let tui = SigilMessage::parse(json, None, Some(TuiMessage::Text { content: "t".into() }));
    assert!(matches!(tui, SigilMessage::Tui(_)));
    let text = SigilMessage::parse(json, None, None);
    assert!(matches!(text, SigilMessage::Text(ref s) if s == json));
}

#[test]
fn tui_needs_leading_brace() {
    // a decoded TUI message counts only when the trimmed text starts with '{'
    let msg = SigilMessage::parse("x{}", None, Some(TuiMessage::Text { content: "t".into() }));
    assert!(matches!(msg, SigilMessage::Text(_)));
    let spaced = SigilMessage::parse("  \n{}", None, Some(TuiMessage::Text { content: "t".into() }));
    assert!(matches!(spaced, SigilMessage::Tui(_)));
}

#[test]
fn is_tui_checks() {
    assert!(TuiMessage::is_tui("  {\"type\":\"text\"}", true));
    assert!(!TuiMessage::is_tui("  {\"type\":\"text\"}", false));
    assert!(!TuiMessage::is_tui("text", true));
    assert!(!TuiMessage::is_tui("   ", true));
    let b = TuiButton { id: "a".into(), label: "A".into(), style: Some(ButtonStyle::Danger) };
    assert_eq!(b.style, Some(ButtonStyle::Danger));
}

#[test]
fn tui_constructors() {
    let pairs = vec![("yes".to_string(), "Yes".to_string()), ("no".to_string(), "No".to_string())];
    match TuiMessage::primary_buttons("Continue?".into(), &pairs) {
        TuiMessage::Buttons { text, items } => {
            assert_eq!(text.as_deref(), Some("Continue?"));
            assert_eq!(items.len(), 2);
            assert_eq!(items[0].id, "yes");
            assert_eq!(items[1].label, "No");
            assert!(items.iter().all(|b| b.style == Some(ButtonStyle::Primary)));
        }
        other => panic!("unexpected {:?}", other),
    }
    match TuiMessage::simple_card("Title".into(), Some("Body".into())) {
        TuiMessage::Card { title, description, image_url, actions } => {
            assert_eq!(title, "Title");
            assert_eq!(description.as_deref(), Some("Body"));
            assert!(image_url.is_none() && actions.is_none());
        }
        other => panic!("unexpected {:?}", other),
    }
}

#[test]
fn oversized_tui_is_text() {
    let big = format!("{{\"type\":\"text\",\"content\":\"{}\"}}", "a".repeat(70_000));
    let msg = SigilMessage::parse(&big, None, Some(TuiMessage::Text { content: "a".into() }));
    assert!(matches!(msg, SigilMessage::Text(_)));
    assert!(!TuiMessage::is_tui(&big, true));
    let edge = format!("{{{}}}", " ".repeat(65534));
    assert_eq!(edge.len(), 65536);
    assert!(matches!(
        SigilMessage::parse(&edge, None, Some(TuiMessage::Text { content: "a".into() })),
        SigilMessage::Tui(_)
    ));
}

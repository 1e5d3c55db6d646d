use sigil::screen::listing_line;
use sigil::chat::ChatEntry;
use sigil::contacts::{Contact, ContactBook};
use sigil::file::FileMessage;
use sigil::message::SigilMessage;
use sigil::screen::{render_entry, visible_start, RowStyle, Span, Tone};
use sigil::tui::TuiMessage;
use sigil::ui::{App, JoinedChannel};

fn pieces(line: &[Span]) -> Vec<(String, Tone)> {
    line.iter().map(|s| (s.text.clone(), s.tone)).collect()
}

fn book() -> ContactBook {
    let mut b = ContactBook::default();
    b.contacts.push(Contact {
        npub: "npub1bot".into(),
        name: "Bot".into(),
        relay: None,
        is_agent: true,
        capabilities: vec![],
    });
    b.add_npub("npub1amy", "Amy");
    b
}

fn entry(from_me: bool, sender: &str, content: SigilMessage) -> ChatEntry {
    ChatEntry { from_me, sender_npub: sender.into(), content, timestamp: 1 }
}

#[test]
fn rows_of_the_peer_list() {
    let mut a = App::new(book(), "npub1me".into());
    a.channels.push(JoinedChannel { id: "c0ffee".into(), name: "dev".into() });
    a.history.add_message("npub1amy", entry(false, "npub1amy", SigilMessage::Text("hi".into())));
    assert_eq!(a.contact_row(0, "ch:c0ffee"), ("# dev".to_string(), RowStyle::Selected));
    assert_eq!(a.contact_row(1, "ch:c0ffee"), ("# dev".to_string(), RowStyle::Channel));
    assert_eq!(a.contact_row(1, "npub1bot"), ("\u{2699} Bot".to_string(), RowStyle::Plain));
    assert_eq!(a.contact_row(2, "npub1amy"), ("  Amy".to_string(), RowStyle::Unread));
    a.history.add_message("npub1amy", entry(true, "npub1me", SigilMessage::Text("yo".into())));
    assert_eq!(a.contact_row(2, "npub1amy"), ("  Amy".to_string(), RowStyle::Plain));
}

#[test]
fn chat_titles() {
    let mut a = App::new(book(), "npub1me".into());
    a.channels.push(JoinedChannel { id: "c0ffee".into(), name: "dev".into() });
    assert_eq!(a.chat_title(None), " No conversation selected ");
    assert_eq!(a.chat_title(Some("ch:c0ffee")), " # dev ");
    assert_eq!(a.chat_title(Some("npub1bot")), " \u{2699} Bot ");
    assert_eq!(a.chat_title(Some("npub1amy")), " Amy ");
}

#[test]
fn status_npub_is_cut() {
    let a = App::new(book(), "npub1abcdefghijklmnopqrstuvwxyz".into());
    assert_eq!(a.status_npub(), "npub1abcdefghijklmno...");
    let b = App::new(book(), "npub1short".into());
    assert_eq!(b.status_npub(), "npub1short");
}

#[test]
fn entry_lines() {
    let b = book();
    let t = render_entry(&entry(true, "npub1me", SigilMessage::Text("hello".into())), &b);
    assert_eq!(t.len(), 1);
    assert_eq!(
        pieces(&t[0]),
        vec![("You: ".to_string(), Tone::Mine), ("hello".to_string(), Tone::Body)]
    );
    let c = render_entry(
        &entry(false, "npub1bot", SigilMessage::ButtonCallback { button_id: "ok".into() }),
        &b,
    );
    assert_eq!(
        pieces(&c[0]),
        vec![("Bot: ".to_string(), Tone::Theirs), ("[callback: ok]".to_string(), Tone::Muted)]
    );
    let u = render_entry(
        &entry(false, "npub1bot", SigilMessage::Tui(TuiMessage::Text { content: "menu".into() })),
        &b,
    );
    assert_eq!(u.len(), 2);
    assert_eq!(pieces(&u[0]), vec![("Bot:".to_string(), Tone::Theirs)]);
    assert_eq!(pieces(&u[1]), vec![("  menu".to_string(), Tone::Widget)]);
    let f = render_entry(
        &entry(false, "npub1unknownsenderxyz", SigilMessage::File(FileMessage::new("https://f", "m"))),
        &b,
    );
    assert_eq!(
        pieces(&f[0]),
        vec![
            ("npub1unknownsend...: ".to_string(), Tone::Theirs),
            ("[file: https://f]".to_string(), Tone::Muted),
        ]
    );
}

#[test]
fn visible_window() {
    assert_eq!(visible_start(10, 5), 7);
    assert_eq!(visible_start(3, 5), 0);
    assert_eq!(visible_start(3, 1), 3);
    assert_eq!(visible_start(0, 0), 0);
}

#[test]
fn contact_listing_lines() {
    let agent = Contact {
        npub: "npub1abcdefghijklmnopqrstuvwxyz".into(),
        name: "Bot".into(),
        relay: None,
        is_agent: true,
        capabilities: vec![],
    };
    assert_eq!(listing_line(&agent), "  \u{2699} Bot (npub1abcdefghijklmno...)");
    let person = Contact {
        npub: "npub1short".into(),
        name: "Amy".into(),
        relay: None,
        is_agent: false,
        capabilities: vec![],
    };
    assert_eq!(listing_line(&person), "    Amy (npub1short)");
}

#[test]
fn cut_checks() {
    assert!(sigil::screen::cut_valid("npub1short"));
    assert!(sigil::screen::cut_valid("npub1abcdefghijklmnopqrstuvwxyz"));
    assert!(!sigil::screen::cut_valid("npub1abcdefghijklmn\u{e9}xyz"));
}

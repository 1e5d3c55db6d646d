use sigil::contacts::AddOutcome;
use sigil::contacts::{Contact, ContactBook};

fn book() -> ContactBook {
    ContactBook::default()
}

#[test]
fn add_npub_once() {
    let mut b = book();
    assert!(b.add_npub("npub1alice", "Alice"));
    assert!(!b.add_npub("npub1alice", "Other"));
    assert_eq!(b.contacts.len(), 1);
    let c = &b.contacts[0];
    assert_eq!(c.npub, "npub1alice");
    assert_eq!(c.name, "Alice");
    assert!(c.relay.is_none());
    assert!(!c.is_agent);
    assert!(c.capabilities.is_empty());
}

#[test]
fn add_from_uri_agent() {
    let mut b = book();
    let c = b
        .add_from_uri("sigil://agent?npub=npub1bot&relay=wss%3A%2F%2Fr.io&name=Helper%20Bot")
        .unwrap();
    assert_eq!(c.npub, "npub1bot");
    assert_eq!(c.name, "Helper Bot");
    assert_eq!(c.relay.as_deref(), Some("wss://r.io"));
    assert!(c.is_agent);
    assert!(c.capabilities.is_empty());
    assert_eq!(b.contacts.len(), 1);
    // the same agent again, and an invalid URI
    assert!(b
        .add_from_uri("sigil://agent?npub=npub1bot&relay=x&name=y")
        .is_none());
    assert!(b.add_from_uri("not a uri").is_none());
    assert_eq!(b.contacts.len(), 1);
}

#[test]
fn find_first_match() {
    let mut b = book();
    b.contacts.push(Contact {
        npub: "npub1a".into(),
        name: "First".into(),
        relay: None,
        is_agent: false,
        capabilities: vec![],
    });
    b.contacts.push(Contact {
        npub: "npub1a".into(),
        name: "Second".into(),
        relay: None,
        is_agent: true,
        capabilities: vec![],
    });
    assert_eq!(b.find("npub1a").map(|c| c.name.as_str()), Some("First"));
    assert!(b.find("npub1b").is_none());
}

#[test]
fn display_names() {
    let mut b = book();
    b.add_npub("npub1alice", "Alice");
    assert_eq!(b.display_name("npub1alice"), "Alice");
    assert_eq!(b.display_name("npub1short"), "npub1short");
    assert_eq!(b.display_name("npub1abcdefghijk"), "npub1abcdefghijk");
    assert_eq!(
        b.display_name("npub1abcdefghijklmnopqrstuvwxyz"),
        "npub1abcdefghijk..."
    );
}

#[test]
fn add_by_address() {
    let mut b = book();
    assert!(matches!(b.add_address("npub1carol", Some("Carol")), AddOutcome::PersonAdded));
    assert_eq!(b.contacts[0].name, "Carol");
    assert!(matches!(b.add_address("npub1carol", None), AddOutcome::PersonExists));
    assert!(matches!(b.add_address("npub1dave", None), AddOutcome::PersonAdded));
    assert_eq!(b.contacts[1].name, "Unknown");
    match b.add_address("sigil://agent?npub=npub1bot&relay=r&name=Bot", Some("ignored")) {
        AddOutcome::AgentAdded(c) => assert_eq!(c.name, "Bot"),
        other => panic!("unexpected {:?}", other),
    }
    assert!(matches!(
        b.add_address("sigil://agent?npub=npub1bot&relay=r&name=Bot", None),
        AddOutcome::AgentNotAdded
    ));
    assert!(matches!(b.add_address("sigil://bad", None), AddOutcome::AgentNotAdded));
    assert!(matches!(b.add_address("alice", None), AddOutcome::Invalid));
    assert_eq!(b.contacts.len(), 3);
}

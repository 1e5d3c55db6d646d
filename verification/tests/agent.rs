use nostr_sdk::{nips::nip04, Keys};
use sigil::agent::{encrypt_dm, inbound, nip04_shape_valid, Inbound};
use sigil::agent::{dm_protocol, AgentProfile, DmProtocol};

#[test]
fn test_agent_capabilities_default() {
    let profile = AgentProfile::for_agent("cap-bot");
    let caps = profile.capabilities.as_ref().unwrap();
    assert!(caps.skills.is_empty());
    assert!(!caps.tui);
    assert!(caps.framework.is_none());
}

#[test]
fn new_profile_fields() {
    let p = AgentProfile::for_agent("test-bot");
    assert_eq!(p.name, "test-bot");
    assert!(p.agent);
    assert!(p.about.is_none() && p.picture.is_none());
}

#[test]
fn protocols_by_kind() {
    assert_eq!(dm_protocol(1059), Some(DmProtocol::GiftWrap));
    assert_eq!(dm_protocol(4), Some(DmProtocol::Nip04));
    assert_eq!(dm_protocol(1), None);
    assert_eq!(dm_protocol(14), None);
}

#[test]
fn inbound_events() {
    let me = Keys::generate();
    let them = Keys::generate();
    let secret = me.secret_key().to_secret_bytes();
    let sender = them.public_key().to_bytes();
    let sealed = nip04::encrypt(them.secret_key(), &me.public_key(), "hello agent").unwrap();
    match inbound(4, &secret, &sender, &sealed) {
        Inbound::Message(m) => assert_eq!(m, "hello agent"),
        other => panic!("unexpected {:?}", other),
    }
    assert!(matches!(inbound(4, &secret, &sender, "garbage"), Inbound::Ignore));
    assert!(matches!(inbound(1059, &secret, &sender, "x"), Inbound::Unwrap));
    assert!(matches!(inbound(1, &secret, &sender, &sealed), Inbound::Ignore));
}

#[test]
fn inbound_ignores_content_with_a_bad_iv() {
    let me = Keys::generate();
    let them = Keys::generate();
    let secret = me.secret_key().to_secret_bytes();
    let sender = them.public_key().to_bytes();
    // an IV that decodes to 0 or 3 bytes, or holds two markers
    for c in ["AAAA?iv=", "AAAA?iv=AAAA", "AAAA?iv=AAAAAAAAAAAAAAAAAAAAAA==?iv=AAAAAAAAAAAAAAAAAAAAAA=="] {
        assert!(!nip04_shape_valid(c));
        assert!(matches!(inbound(4, &secret, &sender, c), Inbound::Ignore));
    }
    assert!(nip04_shape_valid("no marker at all"));
    assert!(nip04_shape_valid("AAAAAAAAAAAAAAAAAAAAAA==?iv=AAAAAAAAAAAAAAAAAAAAAA=="));
}

#[test]
fn encrypted_dm_round_trip() {
    let me = Keys::generate();
    let them = Keys::generate();
    let my_secret = me.secret_key().to_secret_bytes();
    let their_secret = them.secret_key().to_secret_bytes();
    let my_pub = me.public_key().to_bytes();
    let their_pub = them.public_key().to_bytes();
    let sealed = encrypt_dm(&my_secret, &their_pub, "hi there").unwrap();
    assert!(sealed.contains("?iv="));
    assert!(nip04_shape_valid(&sealed));
    // the receiver reads it with its secret and the sender's key
    match inbound(4, &their_secret, &my_pub, &sealed) {
        Inbound::Message(m) => assert_eq!(m, "hi there"),
        other => panic!("unexpected {:?}", other),
    }
    // and so does the sender, with the same two keys
    match inbound(4, &my_secret, &their_pub, &sealed) {
        Inbound::Message(m) => assert_eq!(m, "hi there"),
        other => panic!("unexpected {:?}", other),
    }
    // an invalid key gives nothing
    assert_eq!(encrypt_dm(&[0u8; 3], &their_pub, "x"), None);
}

use sigil::qr::{urldecoding, urlencoding_name, urlencoding_relay, AgentQrData, QrFailure};

fn chars(s: &str) -> Vec<char> {
    s.chars().collect()
}

fn text(v: Vec<char>) -> String {
    v.into_iter().collect()
}

#[test]
fn test_qr_roundtrip() {
    let data = AgentQrData {
        npub: "npub1abc123".to_string(),
        relay: "wss://relay.damus.io".to_string(),
        name: "Test Agent".to_string(),
        capabilities: vec!["chat".to_string()],
    };

    let uri = data.to_uri();
    assert!(uri.starts_with("sigil://agent?"));

    let parsed = AgentQrData::from_uri(&uri).unwrap();
    assert_eq!(parsed.npub, "npub1abc123");
    assert_eq!(parsed.relay, "wss://relay.damus.io");
    assert_eq!(parsed.name, "Test Agent");
}

#[test]
fn uri_exact_text() {
    let data = AgentQrData {
        npub: "npub1x".into(),
        relay: "wss://r.io/path".into(),
        name: "My Bot 2".into(),
        capabilities: vec![],
    };
    assert_eq!(
        data.to_uri(),
        "sigil://agent?npub=npub1x&relay=wss%3A%2F%2Fr.io%2Fpath&name=My%20Bot%202"
    );
}

#[test]
fn encodings() {
    assert_eq!(text(urlencoding_relay(&chars("wss://a/b"))), "wss%3A%2F%2Fa%2Fb");
    assert_eq!(text(urlencoding_name(&chars("a b c"))), "a%20b%20c");
    assert_eq!(text(urldecoding(&chars("wss%3A%2F%2Fa%2Fb%20c"))), "wss://a/b c");
    assert_eq!(text(urldecoding(&chars("plain"))), "plain");
}

#[test]
fn from_uri_errors() {
    // wrong prefix
    assert!(AgentQrData::from_uri("sigil://user?npub=a&relay=b&name=c").is_none());
    // a piece without '='
    assert!(AgentQrData::from_uri("sigil://agent?npub=a&relay=b&name=c&flag").is_none());
    // a missing field
    assert!(AgentQrData::from_uri("sigil://agent?npub=a&relay=b").is_none());
    // an empty query has a piece without '='
    assert!(AgentQrData::from_uri("sigil://agent?").is_none());
}

#[test]
fn from_uri_details() {
    // unknown keys are skipped, the last value wins, '=' may appear in a value,
    // and the capabilities come back empty
    let d = AgentQrData::from_uri("sigil://agent?x=1&npub=a&npub=b=c&relay=r%2F&name=n%20m").unwrap();
    assert_eq!(d.npub, "b=c");
    assert_eq!(d.relay, "r/");
    assert_eq!(d.name, "n m");
    assert!(d.capabilities.is_empty());
}

#[test]
fn qr_svg_image() {
    let data = AgentQrData {
        npub: "npub1abc123".to_string(),
        relay: "wss://relay.damus.io".to_string(),
        name: "Test Agent".to_string(),
        capabilities: vec![],
    };
    let svg = data.to_qr_svg().unwrap();
    assert!(svg.contains("<svg"));
    assert!(svg.contains("</svg>"));
    assert!(!svg.contains("sigil://"));
    // too much data for any QR code
    let huge = AgentQrData {
        npub: "n".repeat(8000),
        relay: String::new(),
        name: String::new(),
        capabilities: vec![],
    };
    assert_eq!(huge.to_qr_svg(), Err(QrFailure::DataTooLong));
}

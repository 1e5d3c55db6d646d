use sigil::discovery::{discover_agents, discover_agents_from, discovered_agent, FoundProfile, JsonText, ProfileFields};

fn fields(agent: Option<bool>, name: JsonText, display: JsonText) -> ProfileFields {
    ProfileFields {
        agent,
        name,
        display_name: display,
        about: Some("about".into()),
        picture: None,
        skills: Some(vec![Some("chat".into()), None, Some("maps".into())]),
    }
}

fn found(npub: &str, f: Option<ProfileFields>) -> FoundProfile {
    FoundProfile { npub: npub.into(), fields: f }
}

#[test]
fn reads_an_agent() {
    let p = found("npub1a", Some(fields(Some(true), JsonText::Text("Ava".into()), JsonText::Missing)));
    let a = discovered_agent(&p).unwrap();
    assert_eq!(a.npub, "npub1a");
    assert_eq!(a.name, "Ava");
    assert_eq!(a.about.as_deref(), Some("about"));
    assert!(a.picture.is_none());
    assert_eq!(a.capabilities, vec!["chat".to_string(), "maps".to_string()]);
}

#[test]
fn name_fallbacks() {
    let d = found("n", Some(fields(Some(true), JsonText::Missing, JsonText::Text("Disp".into()))));
    assert_eq!(discovered_agent(&d).unwrap().name, "Disp");
    let n = found("n", Some(fields(Some(true), JsonText::NotText, JsonText::Text("Disp".into()))));
    assert_eq!(discovered_agent(&n).unwrap().name, "Unknown Agent");
    let m = found("n", Some(fields(Some(true), JsonText::Missing, JsonText::NotText)));
    assert_eq!(discovered_agent(&m).unwrap().name, "Unknown Agent");
}

#[test]
fn non_agents_skipped() {
    assert!(discovered_agent(&found("n", None)).is_none());
    assert!(discovered_agent(&found("n", Some(fields(None, JsonText::Missing, JsonText::Missing)))).is_none());
    assert!(discovered_agent(&found("n", Some(fields(Some(false), JsonText::Missing, JsonText::Missing)))).is_none());
}

#[test]
fn limit_applies() {
    let agent = |n: &str| found(n, Some(fields(Some(true), JsonText::Text(n.into()), JsonText::Missing)));
    let ps = vec![agent("a"), found("x", None), agent("b"), agent("c")];
    let names = |v: Vec<sigil::discovery::DiscoveredAgent>| v.into_iter().map(|a| a.npub).collect::<Vec<_>>();
    assert_eq!(names(discover_agents(&ps, 10)), vec!["a", "b", "c"]);
    assert_eq!(names(discover_agents(&ps, 2)), vec!["a", "b"]);
    // never more than the limit
    assert!(discover_agents(&ps, 0).is_empty());
    assert!(discover_agents(&vec![], 5).is_empty());
}

#[test]
fn agents_from_raw_profiles() {
    let ev = |n: &str, c: &str| (n.to_string(), c.to_string());
    let events = vec![
        ev("npub1a", r#"{"agent":true,"name":"Ava","about":"helps","capabilities":{"skills":["chat",3,"maps"]}}"#),
        ev("npub1b", r#"{"agent":false,"name":"Bob"}"#),
        ev("npub1c", "not json"),
        ev("npub1d", r#"{"agent":true,"display_name":"Dee","picture":"p.png"}"#),
        ev("npub1e", r#"{"agent":"true","name":"Eve"}"#),
        ev("npub1f", r#"{"agent":true,"name":7,"display_name":"F"}"#),
    ];
    let found = discover_agents_from(&events, 10);
    assert_eq!(found.len(), 3);
    assert_eq!(found[0].name, "Ava");
    assert_eq!(found[0].about.as_deref(), Some("helps"));
    assert_eq!(found[0].capabilities, vec!["chat".to_string(), "maps".to_string()]);
    assert_eq!(found[1].npub, "npub1d");
    assert_eq!(found[1].name, "Dee");
    assert_eq!(found[1].picture.as_deref(), Some("p.png"));
    assert!(found[1].capabilities.is_empty());
    assert_eq!(found[2].name, "Unknown Agent");
    assert_eq!(discover_agents_from(&events, 1).len(), 1);
}

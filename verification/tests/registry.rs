use sigil::registry::{
    definition_content, definition_tags_of, parse_nip_ae_event, read_registry_event,
    search_results, AgentRegistryEntry, RegistryEvent, AGENT_DEFINITION_KIND, LEGACY_REGISTRY_KIND,
};

fn tag(parts: &[&str]) -> Vec<String> {
    parts.iter().map(|s| s.to_string()).collect()
}

fn entry() -> AgentRegistryEntry {
    AgentRegistryEntry {
        name: "Weather Bot".into(),
        about: Some("Forecasts".into()),
        picture: None,
        framework: Some("sigil".into()),
        skills: vec!["Weather".into(), "maps".into()],
        tui: true,
        relay: None,
        version: Some("1.0".into()),
    }
}

#[test]
fn kinds() {
    assert_eq!(AGENT_DEFINITION_KIND, 4199);
    assert_eq!(LEGACY_REGISTRY_KIND, 31990);
}

#[test]
fn definition_tags() {
    let tags = definition_tags_of(&entry());
    assert_eq!(
        tags,
        vec![
            tag(&["d", "weather-bot"]),
            tag(&["title", "Weather Bot"]),
            tag(&["t", "agent"]),
            tag(&["description", "Forecasts"]),
            tag(&["framework", "sigil"]),
            tag(&["ver", "1.0"]),
            tag(&["tool", "tui"]),
            tag(&["t", "weather"]),
            tag(&["t", "maps"]),
        ]
    );
    assert_eq!(definition_content(&entry()), "Forecasts");
    let mut bare = entry();
    bare.about = None;
    bare.framework = None;
    bare.version = None;
    bare.tui = false;
    bare.skills = vec![];
    assert_eq!(
        definition_tags_of(&bare),
        vec![tag(&["d", "weather-bot"]), tag(&["title", "Weather Bot"]), tag(&["t", "agent"])]
    );
    assert_eq!(definition_content(&bare), "");
}

#[test]
fn parse_definition_roundtrip() {
    let e = entry();
    let tags = definition_tags_of(&e);
    let parsed = parse_nip_ae_event(&definition_content(&e), &tags).unwrap();
    assert_eq!(parsed.name, "Weather Bot");
    assert_eq!(parsed.about.as_deref(), Some("Forecasts"));
    assert!(parsed.picture.is_none());
    assert_eq!(parsed.framework.as_deref(), Some("sigil"));
    assert_eq!(parsed.skills, vec!["weather".to_string(), "maps".to_string()]);
    assert!(parsed.tui);
    assert!(parsed.relay.is_none());
    assert_eq!(parsed.version.as_deref(), Some("1.0"));
}

#[test]
fn parse_defaults_and_fallbacks() {
    let tags = vec![
        tag(&["description", "From tag"]),
        tag(&["t"]),
        tag(&["t", "agent"]),
        tag(&["t", "chat"]),
        tag(&["tool", "web"]),
        tag(&["title"]),
        tag(&["title", "Second"]),
    ];
    let p = parse_nip_ae_event("", &tags).unwrap();
    // the first title tag has no content: no name is taken from the tags
    assert_eq!(p.name, "Unknown Agent");
    assert_eq!(p.about.as_deref(), Some("From tag"));
    assert_eq!(p.skills, vec!["chat".to_string()]);
    assert!(!p.tui);
    assert!(p.framework.is_none() && p.version.is_none());
    let q = parse_nip_ae_event("Markdown body", &tags).unwrap();
    assert_eq!(q.about.as_deref(), Some("Markdown body"));
}

#[test]
fn read_events_by_kind() {
    let tags = vec![tag(&["title", "X"])];
    let legacy = AgentRegistryEntry {
        name: "Old".into(),
        about: None,
        picture: None,
        framework: None,
        skills: vec![],
        tui: false,
        relay: Some("wss://r".into()),
        version: None,
    };
    let a = read_registry_event(AGENT_DEFINITION_KIND, "", &tags, Some(legacy.clone())).unwrap();
    assert_eq!(a.name, "X");
    let b = read_registry_event(LEGACY_REGISTRY_KIND, "{}", &tags, Some(legacy)).unwrap();
    assert_eq!(b.name, "Old");
    assert!(read_registry_event(LEGACY_REGISTRY_KIND, "not json", &tags, None).is_none());
}

#[test]
fn search_results_keep_event_order() {
    let def_tags = vec![tag(&["d", "x"]), tag(&["title", "X"]), tag(&["t", "agent"])];
    let old = AgentRegistryEntry {
        name: "Old".into(),
        about: None,
        picture: None,
        framework: None,
        skills: vec![],
        tui: false,
        relay: None,
        version: None,
    };
    let events = vec![
        RegistryEvent { kind: LEGACY_REGISTRY_KIND, content: "not json".into(), tags: vec![], legacy: None },
        RegistryEvent { kind: AGENT_DEFINITION_KIND, content: "".into(), tags: def_tags, legacy: None },
        RegistryEvent { kind: LEGACY_REGISTRY_KIND, content: "{}".into(), tags: vec![], legacy: Some(old) },
    ];
    let found = search_results(events);
    assert_eq!(found.len(), 2);
    assert_eq!(found[0].0, 1);
    assert_eq!(found[0].1.name, "X");
    assert_eq!(found[1].0, 2);
    assert_eq!(found[1].1.name, "Old");
    assert!(search_results(vec![]).is_empty());
}

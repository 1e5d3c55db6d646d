use sigil::channel::message_channel;
use sigil::channel::{channel_message_tags, sort_by_timestamp, ChannelInfo, ChannelMsg};

fn msg(sender: &str, content: &str, ts: u64) -> ChannelMsg {
    ChannelMsg {
        channel_id: "c0ffee".into(),
        sender: sender.into(),
        content: content.into(),
        timestamp: ts,
    }
}

#[test]
fn history_sorted_stably() {
    let msgs = vec![
        msg("a", "third", 30),
        msg("b", "first", 10),
        msg("c", "second-a", 20),
        msg("d", "second-b", 20),
        msg("e", "first-b", 10),
    ];
    let sorted = sort_by_timestamp(msgs);
    let contents: Vec<&str> = sorted.iter().map(|m| m.content.as_str()).collect();
    assert_eq!(contents, vec!["first", "first-b", "second-a", "second-b", "third"]);
    assert!(sort_by_timestamp(vec![]).is_empty());
}

#[test]
fn message_tags() {
    let t = channel_message_tags("c0ffee", None);
    assert_eq!(
        t,
        vec![
            vec!["e".to_string(), "c0ffee".to_string()],
            vec!["marker".to_string(), "root".to_string()],
        ]
    );
    let r = channel_message_tags("c0ffee", Some("wss://relay"));
    assert_eq!(r.len(), 3);
    assert_eq!(r[2], vec!["relay".to_string(), "wss://relay".to_string()]);
}

#[test]
fn channel_info_fields() {
    let info = ChannelInfo { name: "sigil-dev".into(), about: Some("Development discussion".into()), picture: None };
    assert_eq!(info.name, "sigil-dev");
    assert_eq!(info.about.as_deref(), Some("Development discussion"));
    assert!(info.picture.is_none());
}

#[test]
fn channel_of_a_message() {
    let t = |v: &[&str]| v.iter().map(|s| s.to_string()).collect::<Vec<String>>();
    assert_eq!(message_channel(&vec![t(&["p", "x"]), t(&["e", "c0ffee"]), t(&["e", "other"])]).as_deref(), Some("c0ffee"));
    // an `e` tag without content is passed over
    assert_eq!(message_channel(&vec![t(&["e"]), t(&["e", "abc"])]).as_deref(), Some("abc"));
    assert!(message_channel(&vec![t(&["p", "x"])]).is_none());
    assert!(message_channel(&vec![]).is_none());
}

use sigil::access::{default_reject_message, AccessControl, AgentMode};

const REJECT: &str = "This is a personal agent. You are not authorized to interact with it. Contact the owner to request access.";

#[test]
fn personal_agent_defaults() {
    let ac = AccessControl::personal("npub1owner");
    assert_eq!(ac.mode, AgentMode::Personal);
    assert_eq!(ac.owner, "npub1owner");
    assert!(ac.authorized.is_empty());
    assert_eq!(ac.reject_message, REJECT);
    assert_eq!(default_reject_message(), REJECT);
}

#[test]
fn service_agent_defaults() {
    let ac = AccessControl::service("npub1owner");
    assert_eq!(ac.mode, AgentMode::Service);
    assert_eq!(ac.owner, "npub1owner");
    assert!(ac.authorized.is_empty());
    assert_eq!(ac.reject_message, "");
}

#[test]
fn owner_always_authorized() {
    let ac = AccessControl::personal("npub1owner");
    assert!(ac.is_authorized("npub1owner"));
    assert!(!ac.is_authorized("npub1stranger"));
}

#[test]
fn service_is_open() {
    let ac = AccessControl::service("npub1owner");
    assert!(ac.is_authorized("npub1stranger"));
    assert!(ac.is_authorized(""));
}

#[test]
fn authorize_then_revoke() {
    let mut ac = AccessControl::personal("npub1owner");
    ac.authorize("npub1friend");
    assert!(ac.is_authorized("npub1friend"));
    ac.authorize("npub1friend");
    assert_eq!(ac.authorized, vec!["npub1friend".to_string()]);
    ac.authorize("npub1other");
    ac.revoke("npub1friend");
    assert!(!ac.is_authorized("npub1friend"));
    assert!(ac.is_authorized("npub1other"));
    assert_eq!(ac.authorized, vec!["npub1other".to_string()]);
    // revoking the owner does not lock the owner out
    ac.revoke("npub1owner");
    assert!(ac.is_authorized("npub1owner"));
}

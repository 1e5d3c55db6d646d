use sigil::guard::{check_new_passphrase, PassphraseCheck};
use sigil::guard::{decrypt_key, encrypt_key, is_encrypted, EventDedup, RateLimiter};

#[test]
fn test_rate_limiter() {
    let mut rl = RateLimiter::new(3, 60_000);
    assert!(rl.check("user1"));
    assert!(rl.check("user1"));
    assert!(rl.check("user1"));
    assert!(!rl.check("user1")); // 4th should fail
    assert!(rl.check("user2")); // different user is fine
}

#[test]
fn test_dedup() {
    let mut dd = EventDedup::new(3);
    assert!(dd.check_new("event1"));
    assert!(!dd.check_new("event1")); // duplicate
    assert!(dd.check_new("event2"));
    assert!(dd.check_new("event3"));
    assert!(dd.check_new("event4")); // evicts event1
    assert!(dd.check_new("event1")); // event1 was evicted, so it's "new" again
}

#[test]
fn test_key_encryption() {
    let nsec = "nsec1abc123def456";
    let pass = "my-secret-passphrase";
    let encrypted = encrypt_key(nsec, pass);
    assert!(is_encrypted(&encrypted));
    let decrypted = decrypt_key(&encrypted, pass).unwrap();
    assert_eq!(decrypted, nsec);

    // Wrong passphrase
    let wrong = decrypt_key(&encrypted, "wrong-pass");
    assert_ne!(wrong.as_deref(), Some(nsec));
}

#[test]
fn rate_limit_window_slides() {
    let mut rl = RateLimiter::new(2, 1_000);
    assert!(rl.check_at("a", 0));
    assert!(rl.check_at("a", 500));
    assert!(!rl.check_at("a", 999));
    assert_eq!(rl.remaining_at("a", 999), 0);
    // the message at 0 expires at 1000 (kept only while t + window > now)
    assert_eq!(rl.remaining_at("a", 1_000), 1);
    assert!(rl.check_at("a", 1_000));
    assert!(!rl.check_at("a", 1_001));
    assert_eq!(rl.remaining_at("b", 1_001), 2);
}

#[test]
fn rate_limit_refused_message_uses_nothing() {
    let mut rl = RateLimiter::new(1, 10_000);
    assert!(rl.check_at("x", 5));
    assert!(!rl.check_at("x", 6));
    assert!(!rl.check_at("x", 7));
    assert_eq!(rl.remaining_at("x", 7), 0);
    // only the accepted message counts: it expires at 10_005
    assert!(rl.check_at("x", 10_005));
}

#[test]
fn rate_limit_zero_max_refuses_all() {
    let mut rl = RateLimiter::new(0, 60_000);
    assert!(!rl.check_at("z", 1));
    assert_eq!(rl.remaining_at("z", 1), 0);
}

#[test]
fn rate_limit_default_agent_allows_ten() {
    let mut rl = RateLimiter::default_agent();
    for i in 0..10u64 {
        assert!(rl.check_at("s", i));
    }
    assert!(!rl.check_at("s", 10));
    assert_eq!(rl.remaining_at("s", 59_999), 0);
    assert_eq!(rl.remaining_at("s", 60_000), 1);
    assert_eq!(rl.remaining("fresh"), 10);
}

#[test]
fn dedup_capacity_one_and_zero() {
    let mut one = EventDedup::new(1);
    assert!(one.check_new("a"));
    assert!(!one.check_new("a"));
    assert!(one.check_new("b"));
    assert!(one.check_new("a"));

    // a capacity of zero still remembers the last id
    let mut zero = EventDedup::new(0);
    assert!(zero.check_new("a"));
    assert!(!zero.check_new("a"));
    assert!(zero.check_new("b"));
    assert!(zero.check_new("a"));
}

#[test]
fn dedup_repeat_is_not_new() {
    let mut dd = EventDedup::default_agent();
    assert!(dd.check_new("id"));
    assert!(!dd.check_new("id"));
    assert!(!dd.check_new("id"));
}

#[test]
fn encrypted_key_format() {
    let e = encrypt_key("nsec1abc", "pw");
    assert!(e.starts_with("sigil-encrypted:"));
    // marker, then 16 salt bytes and one byte per key byte, in base64:
    // 24 bytes give 32 characters, with no padding
    assert_eq!(e.len(), "sigil-encrypted:".len() + 32);
    assert!(e["sigil-encrypted:".len()..]
        .chars()
        .all(|c| c.is_ascii_alphanumeric() || c == '+' || c == '/'));
    // the salt is the start of the passphrase's SHA-256:
    // sha256("pw") = 30c952fab122c3f9759f02a6d95c3758b246b4fee239957b2d4fee46e26170c4;
    // its first 15 bytes are the first 20 base64 characters
    assert_eq!(&e[16..36], "MMlS+rEiw/l1nwKm2Vw3");
    // the whole text, as the key derivation gives it
    assert_eq!(e, "sigil-encrypted:MMlS+rEiw/l1nwKm2Vw3WPsWa8mhguYX");
    assert_eq!(decrypt_key(&e, "pw"), Some("nsec1abc".to_string()));
}

#[test]
fn decrypt_rejects_bad_input() {
    // no marker
    assert_eq!(decrypt_key("nsec1abc", "pw"), None);
    // too short: fewer than 17 bytes
    assert_eq!(decrypt_key("sigil-encrypted:AA==", "pw"), None);
    let e = encrypt_key("", "pw");
    assert_eq!(decrypt_key(&e, "pw"), None);
    // not base64: a character outside the alphabet, a length that is not a
    // multiple of four, padding in the middle
    assert_eq!(decrypt_key("sigil-encrypted:MMlS*rEiw/l1nwKm2Vw3WPsWa8mhguYX", "pw"), None);
    assert_eq!(decrypt_key("sigil-encrypted:MMlS+rEiw/l1nwKm2Vw3WPsWa8mhguY", "pw"), None);
    assert_eq!(decrypt_key("sigil-encrypted:MM==+rEiw/l1nwKm2Vw3WPsWa8mhguYX", "pw"), None);
    // the hex form is not read
    assert_eq!(
        decrypt_key("sigil-encrypted:30c952fab122c3f9759f02a6d95c3758fb166bc9a182e61", "pw"),
        None
    );
}

#[test]
fn dedup_keeps_id_until_capacity_others() {
    let mut dd = EventDedup::new(3);
    assert!(dd.check_new("x"));
    assert!(dd.check_new("a"));
    assert!(dd.check_new("b"));
    // two other ids accepted since "x": it is still remembered
    assert!(!dd.check_new("x"));
    // the third evicts it
    assert!(dd.check_new("c"));
    assert!(dd.check_new("x"));
}

#[test]
fn rate_limit_over_a_run_of_checks() {
    let mut rl = RateLimiter::new(2, 1000);
    assert!(rl.check_at("a", 0));
    assert!(rl.check_at("a", 10));
    // two allowed messages still count: refused, and the refusal counts for nothing
    assert!(!rl.check_at("a", 20));
    // another sender is not affected
    assert!(rl.check_at("b", 20));
    // at 1000 the message sent at 0 no longer counts, the one at 10 does
    assert_eq!(rl.remaining_at("a", 1000), 1);
    assert!(rl.check_at("a", 1000));
    assert!(!rl.check_at("a", 1005));
    assert_eq!(rl.remaining_at("a", 1009), 0);
    assert_eq!(rl.remaining_at("a", 2000), 2);
    assert_eq!(rl.remaining_at("b", 1019), 1);
    assert_eq!(rl.remaining_at("b", 1020), 2);
}

//! The profile an agent advertises, and how it tells apart the direct
//! messages it answers.
//!
//! An agent listens for NIP-17 gift wraps (kind 1059) and NIP-04 encrypted
//! direct messages (kind 4), and answers each in the protocol it came in.
use crate::text::{chars_of, matches_at, occurs_at};
use vstd::prelude::*;

verus! {

/// Kind of a NIP-04 encrypted direct message.
pub const ENCRYPTED_DIRECT_MESSAGE_KIND: u16 = 4;

/// Kind of a NIP-59 gift wrap, which carries NIP-17 direct messages.
pub const GIFT_WRAP_KIND: u16 = 1059;

/// Agent capabilities advertised in profile metadata.
#[derive(Debug, Clone)]
pub struct AgentCapabilities {
    pub skills: Vec<String>,
    pub tui: bool,
    pub framework: Option<String>,
}

/// Agent profile metadata: a Nostr kind 0 profile with `agent` set.
#[derive(Debug, Clone)]
pub struct AgentProfile {
    pub name: String,
    pub about: Option<String>,
    pub picture: Option<String>,
    pub agent: bool,
    pub capabilities: Option<AgentCapabilities>,
}

/// The protocol a direct message came in, and is answered in.
#[derive(Debug, Clone, Copy, PartialEq, Eq, Structural)]
pub enum DmProtocol {
    /// NIP-17, inside a gift wrap.
    GiftWrap,
    /// NIP-04, the legacy encrypted direct message.
    Nip04,
}

/// The profile of a new agent: its name, marked as an agent, with empty
/// capabilities (no skills, no TUI, no framework) and nothing else.
pub open spec fn new_profile(name: Seq<char>, p: AgentProfile) -> bool {
    &&& p.name@ == name
    &&& p.about is None
    &&& p.picture is None
    &&& p.agent
    &&& p.capabilities matches Some(c) && c.skills@.len() == 0 && !c.tui && c.framework is None
}

/// The protocol of an event of the given kind, if the agent answers it.
pub open spec fn protocol_of(kind: u16) -> Option<DmProtocol> {
    if kind == GIFT_WRAP_KIND {
        Some(DmProtocol::GiftWrap)
    } else if kind == ENCRYPTED_DIRECT_MESSAGE_KIND {
        Some(DmProtocol::Nip04)
    } else {
        None
    }
}

impl AgentProfile {
    /// The profile a new agent starts with.
    pub fn for_agent(name: &str) -> (p: Self)
        ensures
            new_profile(name@, p),
    {
        AgentProfile {
            name: name.to_owned(),
            about: None,
            picture: None,
            agent: true,
            capabilities: Some(
                AgentCapabilities { skills: Vec::new(), tui: false, framework: None },
            ),
        }
    }
}

/// The protocol of an incoming event: gift wraps and NIP-04 messages are
/// answered, every other kind is ignored.
pub fn dm_protocol(kind: u16) -> (p: Option<DmProtocol>)
    ensures
        p == protocol_of(kind),
{
    if kind == GIFT_WRAP_KIND {
        Some(DmProtocol::GiftWrap)
    } else if kind == ENCRYPTED_DIRECT_MESSAGE_KIND {
        Some(DmProtocol::Nip04)
    } else {
        None
    }
}

/// The text of a NIP-04 message, as the `nostr` crate decrypts it with the
/// receiver's secret key and the sender's public key (32 bytes each), or
/// `None` where the keys or the content are not valid or decryption fails.
pub uninterp spec fn nip04_plain(secret: Seq<u8>, sender: Seq<u8>, content: Seq<char>) -> Option<
    Seq<char>,
>;

/// The separator between the ciphertext and the IV of NIP-04 content.
pub open spec fn iv_marker() -> Seq<char> {
    "?iv="@
}

/// NIP-04 content whose IV can be 16 bytes: every `?iv=` in it is followed
/// by exactly 24 characters, the last two `=` (the padded base64 length of
/// 16 bytes). Other content never decrypts: with two markers or none the
/// crate refuses it, and with one its IV decodes to another length, or not
/// at all.
pub open spec fn nip04_shape_ok(content: Seq<char>) -> bool {
    forall|i: int|
        #[trigger] occurs_at(content, iv_marker(), i) ==> content.len() == i + 28 && content[content.len()
            - 1] == '=' && content[content.len() - 2] == '='
}

/// Whether NIP-04 content has the shape of `nip04_shape_ok`.
pub fn nip04_shape_valid(content: &str) -> (b: bool)
    ensures
        b == nip04_shape_ok(content@),
{
    proof {
        reveal_strlit("?iv=");
    }
    let cs = chars_of(content);
    let marker = chars_of("?iv=");
    let n = cs.len();
    let mut i: usize = 0;
    while i < n
        invariant
            i <= n,
            n == cs.len(),
            cs@ == content@,
            marker@ == iv_marker(),
            marker@.len() == 4,
            forall|j: int|
                0 <= j < i && #[trigger] occurs_at(content@, iv_marker(), j) ==> content@.len() == j
                    + 28 && content@[content@.len() - 1] == '=' && content@[content@.len() - 2]
                    == '=',
        decreases n - i,
    {
        if matches_at(cs.as_slice(), marker.as_slice(), i) {
            if !(n - i == 28 && cs[n - 1] == '=' && cs[n - 2] == '=') {
                return false;
            }
        }
        i += 1;
    }
    true
}

/// `nip04::decrypt`, with the keys rebuilt from their bytes by
/// `SecretKey::from_slice` and `PublicKey::from_slice`. Content outside
/// `nip04_shape_ok` is excluded: there the crate hands an IV of another
/// length than 16 bytes to the cipher, which panics. The contract claims
/// only that the result is the one named `nip04_plain` for these arguments.
#[verifier::external_body]
fn nip04_decrypt(secret: &[u8], sender: &[u8], content: &str) -> (r: Option<String>)
    requires
        nip04_shape_ok(content@),
    ensures
        match r {
            Some(p) => nip04_plain(secret@, sender@, content@) == Some(p@),
            None => nip04_plain(secret@, sender@, content@) is None,
        },
{
    let sk = nostr_sdk::SecretKey::from_slice(secret).ok()?;
    let pk = nostr_sdk::PublicKey::from_slice(sender).ok()?;
    nostr_sdk::nips::nip04::decrypt(&sk, &pk, content).ok()
}

/// `nip04::encrypt` of `plain` with the secret key `secret` and the peer's
/// public key `peer` (rebuilt from their bytes), under a random IV. The
/// contract claims, of every outcome, that the content it gives is
/// `base64(ciphertext)?iv=base64(iv)` with a 16-byte IV, so of the shape
/// `nip04_shape_ok`, and that decrypting it with the same two keys gives
/// `plain` back: both directions use the same shared key
/// (`generate_shared_key(secret, peer)`) and AES-256-CBC with PKCS#7
/// padding, and `plain` is valid UTF-8.
#[verifier::external_body]
fn nip04_encrypt(secret: &[u8], peer: &[u8], plain: &str) -> (r: Option<String>)
    ensures
        r matches Some(c) ==> nip04_shape_ok(c@) && nip04_plain(secret@, peer@, c@) == Some(plain@),
{
    let sk = nostr_sdk::SecretKey::from_slice(secret).ok()?;
    let pk = nostr_sdk::PublicKey::from_slice(peer).ok()?;
    nostr_sdk::nips::nip04::encrypt(&sk, &pk, plain).ok()
}

/// The NIP-04 content of a direct message `plain` from the holder of
/// `secret` to the owner of the public key `peer`, or `None` where the keys
/// are not valid. Whatever IV was drawn, the content decrypts with the same
/// two keys to `plain`.
pub fn encrypt_dm(secret: &[u8], peer: &[u8], plain: &str) -> (r: Option<String>)
    ensures
        r matches Some(c) ==> nip04_shape_ok(c@) && nip04_plain(secret@, peer@, c@) == Some(plain@),
{
    nip04_encrypt(secret, peer, plain)
}

/// What to do with an incoming event.
#[derive(Debug, Clone)]
pub enum Inbound {
    /// A gift wrap: unwrap it (NIP-17), then handle the message inside.
    Unwrap,
    /// A direct message with this text.
    Message(String),
    /// Nothing: another kind, or a NIP-04 message that does not decrypt.
    Ignore,
}

/// What to do with an event of the given protocol, `plain` being what its
/// NIP-04 content decrypts to.
pub open spec fn inbound_spec(protocol: Option<DmProtocol>, plain: Option<Seq<char>>, r: Inbound) -> bool {
    match protocol {
        Some(DmProtocol::GiftWrap) => r is Unwrap,
        Some(DmProtocol::Nip04) => match plain {
            Some(p) => r matches Inbound::Message(m) && m@ == p,
            None => r is Ignore,
        },
        None => r is Ignore,
    }
}

/// What to do with an event of the given protocol, given what its NIP-04
/// content decrypts to.
pub fn inbound_action(protocol: Option<DmProtocol>, plain: Option<String>) -> (r: Inbound)
    ensures
        inbound_spec(
            protocol,
            match plain {
                Some(p) => Some(p@),
                None => None,
            },
            r,
        ),
{
    match protocol {
        Some(DmProtocol::GiftWrap) => Inbound::Unwrap,
        Some(DmProtocol::Nip04) => match plain {
            Some(p) => Inbound::Message(p),
            None => Inbound::Ignore,
        },
        None => Inbound::Ignore,
    }
}

/// What to do with an incoming event of kind `kind` from `sender` (its
/// public key's bytes), received with the secret key `secret`: gift wraps
/// are unwrapped, NIP-04 messages decrypted, everything else ignored. NIP-04
/// content outside `nip04_shape_ok` is ignored without decrypting: it never
/// decrypts, and the crate would panic on some of it.
pub fn inbound(kind: u16, secret: &[u8], sender: &[u8], content: &str) -> (r: Inbound)
    ensures
        inbound_spec(
            protocol_of(kind),
            if protocol_of(kind) == Some(DmProtocol::Nip04) && nip04_shape_ok(content@) {
                nip04_plain(secret@, sender@, content@)
            } else {
                None
            },
            r,
        ),
{
    let protocol = dm_protocol(kind);
    let plain = match protocol {
        Some(DmProtocol::Nip04) => if nip04_shape_valid(content) {
            nip04_decrypt(secret, sender, content)
        } else {
            None
        },
        _ => None,
    };
    inbound_action(protocol, plain)
}

} // verus!

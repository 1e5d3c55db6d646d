//! Agent security guard: per-sender rate limiting, event deduplication and
//! passphrase protection of a stored secret key.
use crate::table::{assoc, find_key, lemma_assoc_dom, lemma_assoc_index, lemma_assoc_push, lemma_assoc_update, str_views};
use crate::base64::{b64_decode, b64_encode, decode_base64, lemma_b64_roundtrip, push_base64};
use crate::text::{
    chars_of, push_str, starts_with, str_eq, str_starts_with, string_from_chars, string_from_utf8, sub_chars, trim,
    trim_chars,
};
use sha2::Digest;
use std::time::Duration;
use std::time::Instant;
use vstd::prelude::*;
use vstd::utf8::*;

verus! {

broadcast use vstd::string::group_string_axioms;

// ===========================================================================
// Key encryption
// ===========================================================================

/// The SHA-256 digest of `data`, as the `sha2` crate computes it.
pub uninterp spec fn sha256(data: Seq<u8>) -> Seq<u8>;

/// `sha2::Sha256::digest`: the contract claims that the result is the digest
/// named `sha256` of the input, and that it is 32 bytes long (the output size
/// of SHA-256).
#[verifier::external_body]
fn simple_hash(data: &[u8]) -> (out: Vec<u8>)
    ensures
        out@ == sha256(data@),
        out@.len() == 32,
{
    sha2::Sha256::digest(data).to_vec()
}

/// The marker that starts an encrypted key.
pub open spec fn encrypted_prefix() -> Seq<char> {
    "sigil-encrypted:"@
}

/// The salt mixed into the hashed passphrase: byte `i` of the salt is
/// xor-ed into byte `i % 32` of the block, in order.
pub open spec fn mix_salt(block: Seq<u8>, salt: Seq<u8>) -> Seq<u8>
    decreases salt.len(),
{
    if salt.len() == 0 {
        block
    } else {
        let b = mix_salt(block, salt.drop_last());
        let i = (salt.len() - 1) % 32;
        b.update(i, b[i] ^ salt.last())
    }
}

/// `n` rounds of SHA-256 applied to `block`.
pub open spec fn stretch(block: Seq<u8>, n: nat) -> Seq<u8>
    decreases n,
{
    if n == 0 {
        block
    } else {
        sha256(stretch(block, (n - 1) as nat))
    }
}

/// The number of hashing rounds of the key derivation.
pub open spec fn stretch_rounds() -> nat {
    10000
}

/// The 64-byte key derived from a passphrase and a salt: the salted hash of
/// the passphrase is hashed 10000 more times, and the key is that block
/// followed by its own hash.
pub open spec fn derive_key_spec(passphrase: Seq<u8>, salt: Seq<u8>) -> Seq<u8> {
    let b = stretch(mix_salt(sha256(passphrase), salt), stretch_rounds());
    b + sha256(b)
}

/// Each byte of `data` xor-ed with the key byte at the same position, the key
/// repeating as often as needed.
pub open spec fn xor_stream(data: Seq<u8>, key: Seq<u8>) -> Seq<u8> {
    Seq::new(data.len(), |i: int| data[i] ^ key[i % (key.len() as int)])
}

/// The salt of a passphrase: the first 16 bytes of its SHA-256 digest.
pub open spec fn salt_of(passphrase: Seq<char>) -> Seq<u8> {
    sha256(encode_utf8(passphrase)).take(16)
}

/// What `encrypt_key` returns: the marker, then in base64 the salt and the
/// UTF-8 bytes of the key xor-ed with the derived key stream.
pub open spec fn encrypt_key_spec(nsec: Seq<char>, passphrase: Seq<char>) -> Seq<char> {
    let salt = salt_of(passphrase);
    let key = derive_key_spec(encode_utf8(passphrase), salt);
    encrypted_prefix() + b64_encode(salt + xor_stream(encode_utf8(nsec), key))
}

/// What `decrypt_key` returns: `None` without the marker, for a body that is
/// not base64, or for fewer than 17 bytes; else the first 16 bytes are the
/// salt, the rest is xor-ed with the key stream and read as UTF-8.
pub open spec fn decrypt_key_spec(encrypted: Seq<char>, passphrase: Seq<char>) -> Option<
    Seq<char>,
> {
    if !encrypted_prefix().is_prefix_of(encrypted) {
        None
    } else {
        match b64_decode(encrypted.skip(encrypted_prefix().len() as int)) {
            None => None,
            Some(bytes) => if bytes.len() < 17 {
                None
            } else {
                let key = derive_key_spec(encode_utf8(passphrase), bytes.take(16));
                let plain = xor_stream(bytes.skip(16), key);
                if valid_utf8(plain) {
                    Some(decode_utf8(plain))
                } else {
                    None
                }
            },
        }
    }
}

/// Whether a stored key is encrypted: its trimmed text starts with the marker.
pub open spec fn is_encrypted_spec(content: Seq<char>) -> bool {
    encrypted_prefix().is_prefix_of(trim(content))
}

// ---------------------------------------------------------------------------
// Lemmas
// ---------------------------------------------------------------------------

/// UTF-8 encoding distributes over concatenation.
pub proof fn lemma_encode_utf8_concat(a: Seq<char>, b: Seq<char>)
    ensures
        encode_utf8(a + b) == encode_utf8(a) + encode_utf8(b),
    decreases a.len(),
{
    if a.len() == 0 {
        assert(a + b =~= b);
        assert(encode_utf8(a) =~= Seq::<u8>::empty());
        assert(encode_utf8(a) + encode_utf8(b) =~= encode_utf8(b));
    } else {
        lemma_encode_utf8_concat(a.drop_first(), b);
        assert((a + b).drop_first() =~= a.drop_first() + b);
        assert((a + b)[0] == a[0]);
        assert(encode_utf8(a + b) =~= encode_utf8(a) + encode_utf8(b));
    }
}

/// The marker is 16 ASCII characters, encoded as 16 bytes.
pub proof fn lemma_prefix_ascii()
    ensures
        encrypted_prefix().len() == 16,
        is_ascii_chars(encrypted_prefix()),
        encode_utf8(encrypted_prefix()).len() == 16,
{
    reveal_strlit("sigil-encrypted:");
    assert(is_ascii_chars(encrypted_prefix()));
    is_ascii_chars_encode_utf8(encrypted_prefix());
}

/// Xor-ing twice with the same key stream gives the data back.
pub proof fn lemma_xor_stream_involutive(data: Seq<u8>, key: Seq<u8>)
    ensures
        xor_stream(xor_stream(data, key), key) == data,
{
    let once = xor_stream(data, key);
    assert forall|i: int| 0 <= i < data.len() implies #[trigger] xor_stream(once, key)[i]
        == data[i] by {
        let k = key[i % (key.len() as int)];
        let d = data[i];
        assert((d ^ k) ^ k == d) by (bit_vector);
    }
    assert(xor_stream(once, key) =~= data);
}

/// Decrypting an encrypted key with the same passphrase gives the key back
/// (for a salt of full length, which the digest always provides).
proof fn lemma_decrypt_encrypt(nsec: Seq<char>, passphrase: Seq<char>)
    requires
        nsec.len() > 0,
        salt_of(passphrase).len() == 16,
    ensures
        decrypt_key_spec(encrypt_key_spec(nsec, passphrase), passphrase) == Some(nsec),
{
    broadcast use encode_utf8_valid_utf8, encode_utf8_decode_utf8;

    let salt = salt_of(passphrase);
    let key = derive_key_spec(encode_utf8(passphrase), salt);
    let plain = encode_utf8(nsec);
    let body = salt + xor_stream(plain, key);
    let enc = encrypt_key_spec(nsec, passphrase);
    lemma_prefix_ascii();
    assert(encrypted_prefix().is_prefix_of(enc)) by {
        assert(enc.take(16) =~= encrypted_prefix());
    }
    assert(enc.skip(16) =~= b64_encode(body));
    lemma_b64_roundtrip(body);
    assert(plain.len() > 0) by {
        assert(encode_utf8(nsec) =~= encode_scalar(nsec[0] as u32) + encode_utf8(
            nsec.drop_first(),
        ));
    }
    assert(body.take(16) =~= salt);
    assert(body.skip(16) =~= xor_stream(plain, key));
    lemma_xor_stream_involutive(plain, key);
}

// ---------------------------------------------------------------------------
// Executable functions
// ---------------------------------------------------------------------------

/// Derives the 64-byte key stream from a passphrase and a salt.
fn derive_key(passphrase: &[u8], salt: &[u8]) -> (key: Vec<u8>)
    ensures
        key@ == derive_key_spec(passphrase@, salt@),
        key@.len() == 64,
{
    let mut block = simple_hash(passphrase);
    let ghost start = block@;
    let mut i: usize = 0;
    assert(salt@.take(0) =~= Seq::<u8>::empty());
    while i < salt.len()
        invariant
            i <= salt.len(),
            start == sha256(passphrase@),
            block@.len() == 32,
            block@ == mix_salt(start, salt@.take(i as int)),
        decreases salt.len() - i,
    {
        let j = i % 32;
        let v = block[j] ^ salt[i];
        block.set(j, v);
        assert(salt@.take(i + 1).drop_last() =~= salt@.take(i as int));
        i += 1;
    }
    assert(salt@.take(salt.len() as int) =~= salt@);
    let ghost mixed = block@;
    let mut n: usize = 0;
    while n < 10000
        invariant
            n <= 10000,
            block@.len() == 32,
            block@ == stretch(mixed, n as nat),
        decreases 10000 - n,
    {
        block = simple_hash(block.as_slice());
        n += 1;
    }
    let tail = simple_hash(block.as_slice());
    let mut key = block;
    let ghost head = key@;
    let mut k: usize = 0;
    while k < tail.len()
        invariant
            k <= tail.len(),
            tail@.len() == 32,
            key@ == head + tail@.take(k as int),
        decreases tail.len() - k,
    {
        key.push(tail[k]);
        k += 1;
        assert(key@ =~= head + tail@.take(k as int));
    }
    assert(tail@.take(32) =~= tail@);
    key
}

/// Encrypts a secret key with a passphrase. The result is the marker
/// `sigil-encrypted:` followed by the base64 encoding of the salt and of the
/// key xor-ed with a stream derived from the passphrase; decrypting it with
/// the same passphrase gives the key back.
pub fn encrypt_key(nsec: &str, passphrase: &str) -> (res: String)
    ensures
        res@ == encrypt_key_spec(nsec@, passphrase@),
        salt_of(passphrase@).len() == 16,
        nsec@.len() > 0 ==> decrypt_key_spec(res@, passphrase@) == Some(nsec@),
{
    let pass = passphrase.as_bytes();
    let hash = simple_hash(pass);
    let mut body: Vec<u8> = Vec::new();
    let mut i: usize = 0;
    while i < 16
        invariant
            i <= 16,
            hash@.len() == 32,
            body@ == hash@.take(i as int),
        decreases 16 - i,
    {
        body.push(hash[i]);
        i += 1;
        assert(body@ =~= hash@.take(i as int));
    }
    let ghost salt = body@;
    let key = derive_key(pass, body.as_slice());
    let plain = nsec.as_bytes();
    let mut j: usize = 0;
    while j < plain.len()
        invariant
            j <= plain.len(),
            key@.len() == 64,
            salt.len() == 16,
            body@ == salt + xor_stream(plain@, key@).take(j as int),
        decreases plain.len() - j,
    {
        body.push(plain[j] ^ key[j % 64]);
        j += 1;
        assert(body@ =~= salt + xor_stream(plain@, key@).take(j as int));
    }
    assert(xor_stream(plain@, key@).take(plain.len() as int) =~= xor_stream(plain@, key@));
    let mut out: Vec<char> = Vec::new();
    push_str(&mut out, "sigil-encrypted:");
    push_base64(&mut out, body.as_slice());
    proof {
        if nsec@.len() > 0 {
            lemma_decrypt_encrypt(nsec@, passphrase@);
        }
    }
    string_from_chars(out.as_slice())
}

/// Decrypts a key produced by `encrypt_key`. Returns `None` when the text does
/// not start with the marker, when the rest is not base64 or holds fewer
/// than 17 bytes, or when the decrypted bytes are not valid UTF-8.
pub fn decrypt_key(encrypted: &str, passphrase: &str) -> (res: Option<String>)
    ensures
        match res {
            Some(s) => decrypt_key_spec(encrypted@, passphrase@) == Some(s@),
            None => decrypt_key_spec(encrypted@, passphrase@) is None,
        },
{
    if !str_starts_with(encrypted, "sigil-encrypted:") {
        return None;
    }
    proof {
        lemma_prefix_ascii();
    }
    let all = chars_of(encrypted);
    let rest = sub_chars(all.as_slice(), 16, all.len());
    assert(rest@ =~= encrypted@.skip(16));
    let bytes = match decode_base64(rest.as_slice()) {
        Some(b) => b,
        None => {
            return None;
        },
    };
    if bytes.len() < 17 {
        return None;
    }
    let mut salt: Vec<u8> = Vec::new();
    let mut k: usize = 0;
    while k < 16
        invariant
            k <= 16,
            bytes@.len() >= 17,
            salt@ == bytes@.take(k as int),
        decreases 16 - k,
    {
        salt.push(bytes[k]);
        k += 1;
        assert(salt@ =~= bytes@.take(k as int));
    }
    let key = derive_key(passphrase.as_bytes(), salt.as_slice());
    let mut plain: Vec<u8> = Vec::new();
    let mut j: usize = 16;
    while j < bytes.len()
        invariant
            16 <= j <= bytes.len(),
            key@.len() == 64,
            plain@ == xor_stream(bytes@.skip(16), key@).take(j - 16),
        decreases bytes.len() - j,
    {
        plain.push(bytes[j] ^ key[(j - 16) % 64]);
        j += 1;
        assert(plain@ =~= xor_stream(bytes@.skip(16), key@).take(j - 16));
    }
    assert(plain@ =~= xor_stream(bytes@.skip(16), key@));
    string_from_utf8(plain)
}

/// Whether a passphrase typed twice may be used to encrypt a key.
#[derive(Debug, Clone, Copy, PartialEq, Eq, Structural)]
pub enum PassphraseCheck {
    /// The two entries agree and are not empty.
    Accepted,
    /// The two entries differ.
    Mismatch,
    /// The passphrase is empty.
    Empty,
}

/// Checks a new passphrase and its confirmation: they must agree, and then
/// must not be empty.
pub fn check_new_passphrase(first: &str, second: &str) -> (c: PassphraseCheck)
    ensures
        c == (if first@ != second@ {
            PassphraseCheck::Mismatch
        } else if first@.len() == 0 {
            PassphraseCheck::Empty
        } else {
            PassphraseCheck::Accepted
        }),
{
    if !str_eq(first, second) {
        PassphraseCheck::Mismatch
    } else if chars_of(first).len() == 0 {
        PassphraseCheck::Empty
    } else {
        PassphraseCheck::Accepted
    }
}

/// Whether a stored key is encrypted (its trimmed text starts with the marker).
pub fn is_encrypted(content: &str) -> (b: bool)
    ensures
        b == is_encrypted_spec(content@),
{
    let cs = chars_of(content);
    let t = trim_chars(cs.as_slice());
    let p = chars_of("sigil-encrypted:");
    starts_with(t.as_slice(), p.as_slice())
}


// ===========================================================================
// Rate limiting
// ===========================================================================

/// The monotonic clock type of `std`; its values are opaque here.
#[verifier::external_type_specification]
#[verifier::external_body]
pub struct ExInstant(Instant);

/// `Instant::now`: a reading of the monotonic clock; nothing is claimed of it.
#[verifier::external_body]
fn instant_now() -> Instant {
    Instant::now()
}

/// `Instant::elapsed`: the time since `origin`; nothing is claimed of it.
#[verifier::external_body]
fn instant_elapsed(origin: &Instant) -> Duration {
    origin.elapsed()
}

/// `Duration::as_millis`: nothing is claimed of the number, since a
/// `Duration` is opaque here.
#[verifier::external_body]
fn duration_as_millis(d: &Duration) -> u128 {
    d.as_millis()
}

/// A message sent at `t` still counts at time `now` when it is less than
/// `window` old (`t > now - window`).
pub open spec fn is_live(t: u64, now: u64, window: u64) -> bool {
    t + window > now
}

/// The timestamps that still count at time `now`.
pub open spec fn live(stamps: Seq<u64>, now: u64, window: u64) -> Seq<u64> {
    stamps.filter(|t: u64| is_live(t, now, window))
}

/// The timestamps recorded for `sender` (none for an unknown sender).
pub open spec fn stamps_of(log: Map<Seq<char>, Seq<u64>>, sender: Seq<char>) -> Seq<u64> {
    if log.dom().contains(sender) {
        log[sender]
    } else {
        Seq::empty()
    }
}

/// A message from `sender` at `now` is allowed: fewer than `max` of its
/// messages still count.
pub open spec fn check_allows(
    log: Map<Seq<char>, Seq<u64>>,
    max: nat,
    window: u64,
    sender: Seq<char>,
    now: u64,
) -> bool {
    live(stamps_of(log, sender), now, window).len() < max
}

/// The log after a check of `sender` at `now`: its expired timestamps are
/// dropped, and `now` is recorded when the message is allowed.
pub open spec fn after_check(
    log: Map<Seq<char>, Seq<u64>>,
    max: nat,
    window: u64,
    sender: Seq<char>,
    now: u64,
) -> Map<Seq<char>, Seq<u64>> {
    let kept = live(stamps_of(log, sender), now, window);
    if kept.len() < max {
        log.insert(sender, kept.push(now))
    } else {
        log.insert(sender, kept)
    }
}

/// How many more messages `sender` may send at `now`.
pub open spec fn remaining_spec(
    log: Map<Seq<char>, Seq<u64>>,
    max: nat,
    window: u64,
    sender: Seq<char>,
    now: u64,
) -> nat {
    let n = live(stamps_of(log, sender), now, window).len();
    if n >= max {
        0
    } else {
        (max - n) as nat
    }
}

/// No sender holds more than `max` timestamps.
pub open spec fn bounded(log: Map<Seq<char>, Seq<u64>>, max: nat) -> bool {
    forall|s: Seq<char>| log.dom().contains(s) ==> #[trigger] log[s].len() <= max
}

/// Rate limiter: at most `max_messages` messages per sender within a sliding
/// window of `window_ms` milliseconds.
pub struct RateLimiter {
    max_messages: usize,
    window_ms: u64,
    origin: Instant,
    senders: Vec<String>,
    stamps: Vec<Vec<u64>>,
    last_ms: u64,
    calls: Ghost<Seq<(Seq<char>, u64)>>,
}

/// The views of a sequence of timestamp vectors.
pub open spec fn stamp_views(v: Seq<Vec<u64>>) -> Seq<Seq<u64>> {
    v.map_values(|x: Vec<u64>| x@)
}

impl RateLimiter {
    #[verifier::type_invariant]
    spec fn inv(self) -> bool {
        &&& self.senders.len() == self.stamps.len()
        &&& str_views(self.senders@).no_duplicates()
        &&& forall|i: int| 0 <= i < self.stamps.len() ==> #[trigger] self.stamps@[i]@.len()
            <= self.max_messages
        &&& self.log() == rate_run(self.max_messages as nat, self.window_ms, self.calls@)
        &&& times_ordered(self.calls@)
        &&& self.calls@.len() > 0 ==> self.calls@.last().1 <= self.last_ms
    }

    /// The checks made so far, each with its sender and time, in order.
    pub closed spec fn calls(self) -> Seq<(Seq<char>, u64)> {
        self.calls@
    }

    /// The time of the latest check (0 before any).
    pub closed spec fn last_time(self) -> u64 {
        self.last_ms
    }

    /// The timestamps recorded for each sender, in milliseconds since the
    /// limiter was created.
    pub closed spec fn log(self) -> Map<Seq<char>, Seq<u64>> {
        assoc(str_views(self.senders@), stamp_views(self.stamps@))
    }

    /// The number of messages allowed per window.
    pub closed spec fn max(self) -> nat {
        self.max_messages as nat
    }

    /// The length of the window in milliseconds.
    pub closed spec fn window(self) -> u64 {
        self.window_ms
    }

    /// A limiter allowing `max_messages` messages per sender in any window of
    /// `window_ms` milliseconds.
    pub fn new(max_messages: usize, window_ms: u64) -> (r: Self)
        ensures
            r.max() == max_messages,
            r.window() == window_ms,
            r.log() == Map::<Seq<char>, Seq<u64>>::empty(),
            r.calls() == Seq::<(Seq<char>, u64)>::empty(),
            r.last_time() == 0,
    {
        let r = RateLimiter {
            max_messages,
            window_ms,
            origin: instant_now(),
            senders: Vec::new(),
            stamps: Vec::new(),
            last_ms: 0,
            calls: Ghost(Seq::empty()),
        };
        assert(str_views(r.senders@) =~= Seq::<Seq<char>>::empty());
        r
    }

    /// The default for agents: 10 messages per 60 seconds per sender.
    pub fn default_agent() -> (r: Self)
        ensures
            r.max() == 10,
            r.window() == 60_000,
            r.log() == Map::<Seq<char>, Seq<u64>>::empty(),
            r.calls() == Seq::<(Seq<char>, u64)>::empty(),
            r.last_time() == 0,
    {
        Self::new(10, 60_000)
    }

    /// Proves the invariant-level facts about the log.
    proof fn lemma_log_facts(self)
        requires
            self.inv(),
        ensures
            bounded(self.log(), self.max()),
    {
        let keys = str_views(self.senders@);
        let vals = stamp_views(self.stamps@);
        assert forall|s: Seq<char>| self.log().dom().contains(s) implies #[trigger] self.log()[
            s
        ].len() <= self.max() by {
            lemma_assoc_dom(keys, vals, s);
            let i = choose|i: int| 0 <= i < keys.len() && keys[i] == s;
            lemma_assoc_index(keys, vals, i);
            assert(vals[i] == self.stamps@[i]@);
        }
    }

    /// Milliseconds since the limiter was created, by the monotonic clock,
    /// and never before the latest check.
    fn clock_ms(&self) -> (now: u64)
        ensures
            now >= self.last_time(),
    {
        let d = instant_elapsed(&self.origin);
        let ms = duration_as_millis(&d);
        let reading = if ms > 0xffff_ffff_ffff_ffff {
            0xffff_ffff_ffff_ffff
        } else {
            ms as u64
        };
        if reading < self.last_ms {
            self.last_ms
        } else {
            reading
        }
    }

    /// Checks a message from `sender` at time `now_ms` (milliseconds since
    /// the limiter was created, not before the latest check). Returns true
    /// when it is allowed, and then records it.
    pub fn check_at(&mut self, sender: &str, now_ms: u64) -> (allowed: bool)
        requires
            now_ms >= old(self).last_time(),
        ensures
            final(self).calls() == old(self).calls().push((sender@, now_ms)),
            final(self).last_time() == now_ms,
            final(self).log() == rate_run(final(self).max(), final(self).window(), final(self).calls()),
            times_ordered(final(self).calls()),
            allowed == (live(
                allowed_times(old(self).max(), old(self).window(), old(self).calls(), sender@),
                now_ms,
                old(self).window(),
            ).len() < old(self).max()),
            allowed == check_allows(old(self).log(), old(self).max(), old(self).window(), sender@, now_ms),
            final(self).log() == after_check(
                old(self).log(),
                old(self).max(),
                old(self).window(),
                sender@,
                now_ms,
            ),
            final(self).max() == old(self).max(),
            final(self).window() == old(self).window(),
            bounded(final(self).log(), final(self).max()),
    {
        proof {
            use_type_invariant(&*self);
        }
        let ghost old_calls = self.calls@;
        let mut cur = RateLimiter {
            max_messages: self.max_messages,
            window_ms: self.window_ms,
            origin: self.origin,
            senders: Vec::new(),
            stamps: Vec::new(),
            last_ms: self.last_ms,
            calls: Ghost(Seq::empty()),
        };
        proof {
            assert(str_views(cur.senders@) =~= Seq::<Seq<char>>::empty());
        }
        std::mem::swap(self, &mut cur);
        proof {
            use_type_invariant(&cur);
        }
        let ghost old_log = cur.log();
        let RateLimiter { max_messages, window_ms, origin, mut senders, mut stamps, last_ms: _, calls: _ } =
            cur;
        let ghost keys = str_views(senders@);
        let ghost vals = stamp_views(stamps@);
        let found = find_key(&senders, sender);
        let allowed;
        match found {
            Some(k) => {
                proof {
                    lemma_assoc_index(keys, vals, k as int);
                    assert(keys[k as int] == sender@);
                }
                let mut kept = live_stamps(&stamps[k], now_ms, window_ms);
                if kept.len() < max_messages {
                    kept.push(now_ms);
                    allowed = true;
                } else {
                    allowed = false;
                }
                proof {
                    lemma_live_len(stamps@[k as int]@, now_ms, window_ms);
                }
                let ghost kv = kept@;
                stamps.set(k, kept);
                proof {
                    assert(stamp_views(stamps@) =~= vals.update(k as int, kv));
                    lemma_assoc_update(keys, vals, k as int, kv);
                    assert(str_views(senders@) == keys);
                }
            },
            None => {
                proof {
                    lemma_assoc_dom(keys, vals, sender@);
                }
                let mut kept: Vec<u64> = Vec::new();
                proof {
                    reveal_with_fuel(Seq::<_>::filter, 1);
                    assert(live(Seq::<u64>::empty(), now_ms, window_ms) =~= Seq::<u64>::empty());
                }
                if 0 < max_messages {
                    kept.push(now_ms);
                    allowed = true;
                } else {
                    allowed = false;
                }
                let ghost kv = kept@;
                senders.push(sender.to_owned());
                stamps.push(kept);
                proof {
                    assert(str_views(senders@) =~= keys.push(sender@));
                    assert(stamp_views(stamps@) =~= vals.push(kv));
                    lemma_assoc_push(keys, vals, sender@, kv);
                    assert(keys.push(sender@).no_duplicates());
                }
            },
        }
        let ghost new_calls = old_calls.push((sender@, now_ms));
        proof {
            assert(new_calls.drop_last() =~= old_calls);
            assert(assoc(str_views(senders@), stamp_views(stamps@)) == after_check(
                old_log,
                max_messages as nat,
                window_ms,
                sender@,
                now_ms,
            ));
            assert(times_ordered(new_calls)) by {
                assert forall|i: int, j: int| 0 <= i < j < new_calls.len() implies #[trigger] new_calls[i].1
                    <= #[trigger] new_calls[j].1 by {
                    if j == new_calls.len() - 1 && i < old_calls.len() {
                        assert(old_calls[i].1 <= old_calls[old_calls.len() - 1].1);
                    } else {
                        assert(new_calls[i] == old_calls[i] && new_calls[j] == old_calls[j]);
                    }
                }
            }
        }
        *self = RateLimiter {
            max_messages,
            window_ms,
            origin,
            senders,
            stamps,
            last_ms: now_ms,
            calls: Ghost(new_calls),
        };
        proof {
            self.lemma_log_facts();
            lemma_rate_limit_law(max_messages as nat, window_ms, new_calls, sender@, now_ms);
        }
        allowed
    }

    /// Checks a message from `sender` now. Returns true when it is allowed,
    /// and then records it. The time is the monotonic clock's reading, taken
    /// no earlier than the latest check (the clock does not go back; should
    /// a platform's clock do so, the latest time is used). The reading itself
    /// is not known to the contract: the outcome is that of `check_at` at
    /// some time not before the latest check, so the rate-limit law holds
    /// over every run of checks.
    pub fn check(&mut self, sender: &str) -> (allowed: bool)
        ensures
            exists|now: u64|
                {
                    &&& now >= old(self).last_time()
                    &&& final(self).last_time() == now
                    &&& final(self).calls() == old(self).calls().push((sender@, now))
                    &&& allowed == (live(
                        allowed_times(old(self).max(), old(self).window(), old(self).calls(), sender@),
                        now,
                        old(self).window(),
                    ).len() < old(self).max())
                    &&& allowed == check_allows(
                        old(self).log(),
                        old(self).max(),
                        old(self).window(),
                        sender@,
                        now,
                    )
                    &&& final(self).log() == #[trigger] after_check(
                        old(self).log(),
                        old(self).max(),
                        old(self).window(),
                        sender@,
                        now,
                    )
                },
            final(self).max() == old(self).max(),
            final(self).window() == old(self).window(),
            final(self).log() == rate_run(final(self).max(), final(self).window(), final(self).calls()),
            times_ordered(final(self).calls()),
    {
        let now = self.clock_ms();
        self.check_at(sender, now)
    }

    /// How many more messages `sender` may send at time `now_ms`.
    pub fn remaining_at(&self, sender: &str, now_ms: u64) -> (r: usize)
        ensures
            r == remaining_spec(self.log(), self.max(), self.window(), sender@, now_ms),
            now_ms >= self.last_time() ==> r == if live(
                allowed_times(self.max(), self.window(), self.calls(), sender@),
                now_ms,
                self.window(),
            ).len() >= self.max() {
                0
            } else {
                (self.max() - live(
                    allowed_times(self.max(), self.window(), self.calls(), sender@),
                    now_ms,
                    self.window(),
                ).len()) as nat
            },
    {
        proof {
            use_type_invariant(self);
            if now_ms >= self.last_ms {
                lemma_rate_limit_law(self.max(), self.window(), self.calls@, sender@, now_ms);
            }
        }
        let ghost keys = str_views(self.senders@);
        let ghost vals = stamp_views(self.stamps@);
        match find_key(&self.senders, sender) {
            Some(k) => {
                proof {
                    lemma_assoc_index(keys, vals, k as int);
                }
                let n = count_live(&self.stamps[k], now_ms, self.window_ms);
                if n >= self.max_messages {
                    0
                } else {
                    self.max_messages - n
                }
            },
            None => {
                proof {
                    lemma_assoc_dom(keys, vals, sender@);
                    reveal_with_fuel(Seq::<_>::filter, 1);
                    assert(live(Seq::<u64>::empty(), now_ms, self.window_ms).len() == 0);
                }
                self.max_messages
            },
        }
    }

    /// How many more messages `sender` may send now. The time is the
    /// monotonic clock's reading, taken no earlier than the latest check; it
    /// is not known to the contract: the result is that of `remaining_at` at
    /// some time not before the latest check.
    pub fn remaining(&self, sender: &str) -> (r: usize)
        ensures
            exists|now: u64|
                {
                    &&& now >= self.last_time()
                    &&& r == #[trigger] remaining_spec(self.log(), self.max(), self.window(), sender@, now)
                    &&& r == if live(
                        allowed_times(self.max(), self.window(), self.calls(), sender@),
                        now,
                        self.window(),
                    ).len() >= self.max() {
                        0
                    } else {
                        (self.max() - live(
                            allowed_times(self.max(), self.window(), self.calls(), sender@),
                            now,
                            self.window(),
                        ).len()) as nat
                    }
                },
    {
        let now = self.clock_ms();
        self.remaining_at(sender, now)
    }
}

/// The timestamps of `stamps` that still count at `now`.
fn live_stamps(stamps: &Vec<u64>, now: u64, window: u64) -> (out: Vec<u64>)
    ensures
        out@ == live(stamps@, now, window),
{
    let mut out: Vec<u64> = Vec::new();
    let mut i: usize = 0;
    proof {
        reveal_with_fuel(Seq::<_>::filter, 1);
        assert(stamps@.take(0) =~= Seq::<u64>::empty());
    }
    while i < stamps.len()
        invariant
            i <= stamps.len(),
            out@ == live(stamps@.take(i as int), now, window),
        decreases stamps.len() - i,
    {
        let t = stamps[i];
        proof {
            reveal_with_fuel(Seq::<_>::filter, 1);
            assert(stamps@.take(i + 1).drop_last() =~= stamps@.take(i as int));
        }
        if t > now || now - t < window {
            out.push(t);
        }
        i += 1;
    }
    assert(stamps@.take(stamps.len() as int) =~= stamps@);
    out
}

/// How many timestamps of `stamps` still count at `now`.
fn count_live(stamps: &Vec<u64>, now: u64, window: u64) -> (n: usize)
    ensures
        n == live(stamps@, now, window).len(),
{
    let mut n: usize = 0;
    let mut i: usize = 0;
    proof {
        reveal_with_fuel(Seq::<_>::filter, 1);
        assert(stamps@.take(0) =~= Seq::<u64>::empty());
    }
    while i < stamps.len()
        invariant
            i <= stamps.len(),
            n == live(stamps@.take(i as int), now, window).len(),
            n <= i,
        decreases stamps.len() - i,
    {
        let t = stamps[i];
        proof {
            reveal_with_fuel(Seq::<_>::filter, 1);
            assert(stamps@.take(i + 1).drop_last() =~= stamps@.take(i as int));
        }
        if t > now || now - t < window {
            n += 1;
        }
        i += 1;
    }
    assert(stamps@.take(stamps.len() as int) =~= stamps@);
    n
}

/// Filtering never lengthens a sequence.
proof fn lemma_live_len(stamps: Seq<u64>, now: u64, window: u64)
    ensures
        live(stamps, now, window).len() <= stamps.len(),
{
    stamps.lemma_filter_len(|t: u64| is_live(t, now, window));
}

/// The live timestamps are all live.
pub proof fn lemma_live_idempotent(stamps: Seq<u64>, now: u64, window: u64)
    ensures
        live(live(stamps, now, window), now, window) == live(stamps, now, window),
    decreases stamps.len(),
{
    reveal_with_fuel(Seq::<_>::filter, 1);
    if stamps.len() > 0 {
        let init = stamps.drop_last();
        lemma_live_idempotent(init, now, window);
        let l = live(init, now, window);
        if is_live(stamps.last(), now, window) {
            assert(l.push(stamps.last()).drop_last() =~= l);
        }
    }
}

/// A check is allowed exactly when the sender has quota left.
pub proof fn lemma_check_iff_remaining(
    log: Map<Seq<char>, Seq<u64>>,
    max: nat,
    window: u64,
    sender: Seq<char>,
    now: u64,
)
    ensures
        check_allows(log, max, window, sender, now) <==> remaining_spec(
            log,
            max,
            window,
            sender,
            now,
        ) > 0,
{
}

/// An allowed message uses up exactly one unit of the sender's quota (with a
/// non-empty window, at the same time).
pub proof fn lemma_check_uses_one(
    log: Map<Seq<char>, Seq<u64>>,
    max: nat,
    window: u64,
    sender: Seq<char>,
    now: u64,
)
    requires
        window > 0,
        check_allows(log, max, window, sender, now),
    ensures
        remaining_spec(after_check(log, max, window, sender, now), max, window, sender, now)
            == remaining_spec(log, max, window, sender, now) - 1,
{
    let kept = live(stamps_of(log, sender), now, window);
    let after = after_check(log, max, window, sender, now);
    assert(stamps_of(after, sender) == kept.push(now));
    lemma_live_idempotent(stamps_of(log, sender), now, window);
    reveal_with_fuel(Seq::<_>::filter, 1);
    assert(kept.push(now).drop_last() =~= kept);
    assert(live(kept.push(now), now, window) == kept.push(now));
}

/// The log of a fresh limiter after the checks `calls` (sender and time),
/// made in order.
pub open spec fn rate_run(max: nat, window: u64, calls: Seq<(Seq<char>, u64)>) -> Map<
    Seq<char>,
    Seq<u64>,
>
    decreases calls.len(),
{
    if calls.len() == 0 {
        Map::empty()
    } else {
        after_check(
            rate_run(max, window, calls.drop_last()),
            max,
            window,
            calls.last().0,
            calls.last().1,
        )
    }
}

/// Whether the last of `calls` was allowed.
pub open spec fn rate_last_allowed(max: nat, window: u64, calls: Seq<(Seq<char>, u64)>) -> bool {
    check_allows(
        rate_run(max, window, calls.drop_last()),
        max,
        window,
        calls.last().0,
        calls.last().1,
    )
}

/// The times of the checks of `sender` among `calls` that were allowed.
pub open spec fn allowed_times(
    max: nat,
    window: u64,
    calls: Seq<(Seq<char>, u64)>,
    sender: Seq<char>,
) -> Seq<u64>
    decreases calls.len(),
{
    if calls.len() == 0 {
        Seq::empty()
    } else {
        let prev = allowed_times(max, window, calls.drop_last(), sender);
        if calls.last().0 == sender && rate_last_allowed(max, window, calls) {
            prev.push(calls.last().1)
        } else {
            prev
        }
    }
}

/// The times of the checks never go back.
pub open spec fn times_ordered(calls: Seq<(Seq<char>, u64)>) -> bool {
    forall|i: int, j: int| 0 <= i < j < calls.len() ==> #[trigger] calls[i].1 <= #[trigger] calls[j].1
}

/// A timestamp appended after a filter is kept when it is live.
proof fn lemma_live_push(stamps: Seq<u64>, t: u64, now: u64, window: u64)
    ensures
        live(stamps.push(t), now, window) == if is_live(t, now, window) {
            live(stamps, now, window).push(t)
        } else {
            live(stamps, now, window)
        },
{
    reveal_with_fuel(Seq::<_>::filter, 1);
    assert(stamps.push(t).drop_last() =~= stamps);
}

/// What is live at a later time was live at an earlier one, so pruning at
/// the earlier time loses nothing that counts later.
proof fn lemma_live_later(stamps: Seq<u64>, earlier: u64, now: u64, window: u64)
    requires
        earlier <= now,
    ensures
        live(live(stamps, earlier, window), now, window) == live(stamps, now, window),
    decreases stamps.len(),
{
    reveal_with_fuel(Seq::<_>::filter, 1);
    if stamps.len() > 0 {
        let init = stamps.drop_last();
        let t = stamps.last();
        lemma_live_later(init, earlier, now, window);
        if is_live(t, earlier, window) {
            lemma_live_push(live(init, earlier, window), t, now, window);
        }
    }
}

/// After a run of checks with ordered times, what counts of a sender's log
/// at a time not before the last check is what counts of its allowed times.
proof fn lemma_rate_run_live(
    max: nat,
    window: u64,
    calls: Seq<(Seq<char>, u64)>,
    sender: Seq<char>,
    now: u64,
)
    requires
        times_ordered(calls),
        calls.len() > 0 ==> calls.last().1 <= now,
    ensures
        live(stamps_of(rate_run(max, window, calls), sender), now, window) == live(
            allowed_times(max, window, calls, sender),
            now,
            window,
        ),
    decreases calls.len(),
{
    reveal_with_fuel(Seq::<_>::filter, 1);
    if calls.len() > 0 {
        let prev = calls.drop_last();
        let (s0, t0) = calls.last();
        assert(times_ordered(prev)) by {
            assert forall|i: int, j: int| 0 <= i < j < prev.len() implies #[trigger] prev[i].1
                <= #[trigger] prev[j].1 by {
                assert(calls[i].1 <= calls[j].1);
            }
        }
        if prev.len() > 0 {
            assert(calls[prev.len() - 1].1 <= calls[calls.len() - 1].1);
        }
        let log = rate_run(max, window, prev);
        lemma_rate_run_live(max, window, prev, sender, now);
        if sender == s0 {
            lemma_rate_run_live(max, window, prev, s0, t0);
            let old_stamps = stamps_of(log, s0);
            let kept = live(old_stamps, t0, window);
            let allowed = allowed_times(max, window, prev, s0);
            lemma_live_later(old_stamps, t0, now, window);
            lemma_live_push(kept, t0, now, window);
            lemma_live_push(allowed, t0, now, window);
        }
    }
}

/// The rate-limit law over a run of checks from a fresh limiter, with times
/// that never go back: each check is allowed exactly when fewer than `max`
/// of the sender's earlier allowed messages are less than `window` old at
/// its time (refused checks count for nothing, other senders not at all);
/// and at any time not before the last check, `remaining` for a sender is
/// `max` less that count of its allowed messages, and 0 once it reaches
/// `max`.
pub proof fn lemma_rate_limit_law(
    max: nat,
    window: u64,
    calls: Seq<(Seq<char>, u64)>,
    sender: Seq<char>,
    now: u64,
)
    requires
        times_ordered(calls),
        calls.len() > 0 ==> calls.last().1 <= now,
    ensures
        calls.len() > 0 ==> (rate_last_allowed(max, window, calls) <==> live(
            allowed_times(max, window, calls.drop_last(), calls.last().0),
            calls.last().1,
            window,
        ).len() < max),
        remaining_spec(rate_run(max, window, calls), max, window, sender, now) == if live(
            allowed_times(max, window, calls, sender),
            now,
            window,
        ).len() >= max {
            0
        } else {
            (max - live(allowed_times(max, window, calls, sender), now, window).len()) as nat
        },
{
    lemma_rate_run_live(max, window, calls, sender, now);
    if calls.len() > 0 {
        let prev = calls.drop_last();
        assert(times_ordered(prev)) by {
            assert forall|i: int, j: int| 0 <= i < j < prev.len() implies #[trigger] prev[i].1
                <= #[trigger] prev[j].1 by {
                assert(calls[i].1 <= calls[j].1);
            }
        }
        if prev.len() > 0 {
            assert(calls[prev.len() - 1].1 <= calls[calls.len() - 1].1);
        }
        lemma_rate_run_live(max, window, prev, calls.last().0, calls.last().1);
    }
}

/// A check of one sender leaves every other sender's log unchanged.
pub proof fn lemma_check_isolated(
    log: Map<Seq<char>, Seq<u64>>,
    max: nat,
    window: u64,
    sender: Seq<char>,
    other: Seq<char>,
    now: u64,
)
    requires
        other != sender,
    ensures
        stamps_of(after_check(log, max, window, sender, now), other) == stamps_of(log, other),
{
}

// ===========================================================================
// Event deduplication
// ===========================================================================

/// The remembered ids after checking `id`: a known id changes nothing; a new
/// one is appended, after the oldest is dropped when `capacity` is reached.
pub open spec fn dedup_step(seen: Seq<Seq<char>>, capacity: nat, id: Seq<char>) -> Seq<Seq<char>> {
    if seen.contains(id) {
        seen
    } else if seen.len() >= capacity && seen.len() > 0 {
        seen.drop_first().push(id)
    } else {
        seen.push(id)
    }
}

/// The number of ids kept: the capacity, but at least one.
pub open spec fn dedup_limit(capacity: nat) -> nat {
    if capacity == 0 {
        1
    } else {
        capacity
    }
}

/// Event deduplicator: remembers the most recent event ids, up to a capacity,
/// so that an event replayed by a relay is processed once.
pub struct EventDedup {
    max_capacity: usize,
    order: Vec<String>,
}

impl EventDedup {
    #[verifier::type_invariant]
    spec fn inv(self) -> bool {
        &&& str_views(self.order@).no_duplicates()
        &&& self.order.len() <= dedup_limit(self.max_capacity as nat)
    }

    /// The remembered ids, oldest first.
    pub closed spec fn seen(self) -> Seq<Seq<char>> {
        str_views(self.order@)
    }

    /// The capacity.
    pub closed spec fn capacity(self) -> nat {
        self.max_capacity as nat
    }

    /// A deduplicator that remembers up to `max_capacity` ids.
    pub fn new(max_capacity: usize) -> (r: Self)
        ensures
            r.seen() == Seq::<Seq<char>>::empty(),
            r.capacity() == max_capacity,
    {
        let r = EventDedup { max_capacity, order: Vec::new() };
        assert(str_views(r.order@) =~= Seq::<Seq<char>>::empty());
        r
    }

    /// The default for agents: the last 10000 events.
    pub fn default_agent() -> (r: Self)
        ensures
            r.seen() == Seq::<Seq<char>>::empty(),
            r.capacity() == 10_000,
    {
        Self::new(10_000)
    }

    /// Returns true when `event_id` has not been seen, and marks it as seen.
    pub fn check_new(&mut self, event_id: &str) -> (is_new: bool)
        ensures
            is_new == !old(self).seen().contains(event_id@),
            final(self).seen() == dedup_step(old(self).seen(), old(self).capacity(), event_id@),
            final(self).capacity() == old(self).capacity(),
            final(self).seen().no_duplicates(),
            final(self).seen().len() <= dedup_limit(final(self).capacity()),
    {
        proof {
            use_type_invariant(&*self);
        }
        let ghost before = str_views(self.order@);
        match find_key(&self.order, event_id) {
            Some(i) => {
                proof {
                    assert(before[i as int] == event_id@);
                }
                return false;
            },
            None => {},
        }
        let mut order: Vec<String> = Vec::new();
        std::mem::swap(&mut order, &mut self.order);
        if order.len() >= self.max_capacity && order.len() > 0 {
            order.remove(0);
            proof {
                assert(str_views(order@) =~= before.drop_first());
            }
        }
        let ghost mid = str_views(order@);
        order.push(event_id.to_owned());
        proof {
            assert(str_views(order@) =~= mid.push(event_id@));
            assert(mid.push(event_id@).no_duplicates()) by {
                assert forall|i: int, j: int|
                    0 <= i < mid.push(event_id@).len() && 0 <= j < mid.push(event_id@).len() && i
                        != j implies mid.push(event_id@)[i] != mid.push(event_id@)[j] by {
                    if i < mid.len() && j < mid.len() {
                    } else if i < mid.len() {
                        assert(mid[i] == before[i + (before.len() - mid.len())]);
                    } else {
                        assert(mid[j] == before[j + (before.len() - mid.len())]);
                    }
                }
            }
        }
        self.order = order;
        true
    }
}

/// After `id` has been checked, checking it again reports a duplicate.
pub proof fn lemma_dedup_repeat(seen: Seq<Seq<char>>, capacity: nat, id: Seq<char>)
    ensures
        dedup_step(seen, capacity, id).contains(id),
        dedup_step(dedup_step(seen, capacity, id), capacity, id) == dedup_step(seen, capacity, id),
{
    let s = dedup_step(seen, capacity, id);
    if !seen.contains(id) {
        assert(s[s.len() - 1] == id);
    }
}

/// The remembered ids after checking each of `ids` in turn.
pub open spec fn dedup_run(seen: Seq<Seq<char>>, capacity: nat, ids: Seq<Seq<char>>) -> Seq<
    Seq<char>,
>
    decreases ids.len(),
{
    if ids.len() == 0 {
        seen
    } else {
        dedup_step(dedup_run(seen, capacity, ids.drop_last()), capacity, ids.last())
    }
}

/// How many of `ids`, checked in turn, were reported new.
pub open spec fn dedup_accepted(seen: Seq<Seq<char>>, capacity: nat, ids: Seq<Seq<char>>) -> nat
    decreases ids.len(),
{
    if ids.len() == 0 {
        0
    } else {
        dedup_accepted(seen, capacity, ids.drop_last()) + if dedup_run(
            seen,
            capacity,
            ids.drop_last(),
        ).contains(ids.last()) {
            0nat
        } else {
            1nat
        }
    }
}

/// One check keeps the ids free of repeats and within the capacity.
proof fn lemma_dedup_step_bounded(seen: Seq<Seq<char>>, capacity: nat, id: Seq<char>)
    requires
        capacity >= 1,
        seen.no_duplicates(),
        seen.len() <= capacity,
    ensures
        dedup_step(seen, capacity, id).no_duplicates(),
        dedup_step(seen, capacity, id).len() <= capacity,
{
    if !seen.contains(id) {
        let mid = if seen.len() >= capacity && seen.len() > 0 {
            seen.drop_first()
        } else {
            seen
        };
        let r = mid.push(id);
        assert forall|i: int, j: int| 0 <= i < r.len() && 0 <= j < r.len() && i != j implies r[i]
            != r[j] by {
            if i < mid.len() && j < mid.len() {
                assert(mid[i] == seen[i + (seen.len() - mid.len())]);
                assert(mid[j] == seen[j + (seen.len() - mid.len())]);
            } else if i < mid.len() {
                assert(mid[i] == seen[i + (seen.len() - mid.len())]);
            } else {
                assert(mid[j] == seen[j + (seen.len() - mid.len())]);
            }
        }
    }
}

/// An id that stands `k` places from the newest end is still remembered,
/// `accepted` places further from it, after a run of checks that accepted
/// `accepted` new ids, as long as `k + accepted` stays below the capacity.
proof fn lemma_dedup_run_keeps(seen: Seq<Seq<char>>, capacity: nat, ids: Seq<Seq<char>>, x: Seq<char>, k: nat)
    requires
        capacity >= 1,
        seen.no_duplicates(),
        seen.len() <= capacity,
        k < seen.len(),
        seen[seen.len() - 1 - k] == x,
        k + dedup_accepted(seen, capacity, ids) < capacity,
    ensures
        dedup_run(seen, capacity, ids).no_duplicates(),
        dedup_run(seen, capacity, ids).len() <= capacity,
        k + dedup_accepted(seen, capacity, ids) < dedup_run(seen, capacity, ids).len(),
        dedup_run(seen, capacity, ids)[dedup_run(seen, capacity, ids).len() - 1 - (k
            + dedup_accepted(seen, capacity, ids))] == x,
    decreases ids.len(),
{
    if ids.len() > 0 {
        let prev = ids.drop_last();
        let y = ids.last();
        lemma_dedup_run_keeps(seen, capacity, prev, x, k);
        let s = dedup_run(seen, capacity, prev);
        let m = k + dedup_accepted(seen, capacity, prev);
        lemma_dedup_step_bounded(s, capacity, y);
        if !s.contains(y) {
            assert(s[s.len() - 1 - m] == x);
            if s.len() >= capacity && s.len() > 0 {
                assert(s.len() - 1 - m >= 1);
                let r = s.drop_first().push(y);
                assert(r[r.len() - 1 - (m + 1)] == s[s.len() - 1 - m]);
            } else {
                let r = s.push(y);
                assert(r[r.len() - 1 - (m + 1)] == s[s.len() - 1 - m]);
            }
        }
    }
}

/// The capacity law: starting from remembered ids within the capacity,
/// every run of checks keeps at most `capacity` ids; and an id `x` that a
/// check accepts is reported new again only after at least `capacity` other
/// ids have been accepted: while fewer were, it is still remembered.
pub proof fn lemma_dedup_capacity(
    seen: Seq<Seq<char>>,
    capacity: nat,
    x: Seq<char>,
    ids: Seq<Seq<char>>,
)
    requires
        capacity >= 1,
        seen.no_duplicates(),
        seen.len() <= capacity,
    ensures
        dedup_run(seen, capacity, ids).len() <= capacity,
        !seen.contains(x) && dedup_accepted(dedup_step(seen, capacity, x), capacity, ids)
            < capacity ==> dedup_run(dedup_step(seen, capacity, x), capacity, ids).contains(x),
{
    lemma_dedup_bounded_run(seen, capacity, ids);
    let s1 = dedup_step(seen, capacity, x);
    lemma_dedup_step_bounded(seen, capacity, x);
    if !seen.contains(x) && dedup_accepted(s1, capacity, ids) < capacity {
        assert(s1[s1.len() - 1] == x);
        lemma_dedup_run_keeps(s1, capacity, ids, x, 0);
        let r = dedup_run(s1, capacity, ids);
        let m = dedup_accepted(s1, capacity, ids);
        assert(r[r.len() - 1 - m] == x);
    }
}

/// A run of checks keeps the ids free of repeats and within the capacity.
proof fn lemma_dedup_bounded_run(seen: Seq<Seq<char>>, capacity: nat, ids: Seq<Seq<char>>)
    requires
        capacity >= 1,
        seen.no_duplicates(),
        seen.len() <= capacity,
    ensures
        dedup_run(seen, capacity, ids).no_duplicates(),
        dedup_run(seen, capacity, ids).len() <= capacity,
    decreases ids.len(),
{
    if ids.len() > 0 {
        lemma_dedup_bounded_run(seen, capacity, ids.drop_last());
        lemma_dedup_step_bounded(dedup_run(seen, capacity, ids.drop_last()), capacity, ids.last());
    }
}

} // verus!

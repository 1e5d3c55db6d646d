//! Agent onboarding data carried in a `sigil://agent?...` URI (the text of
//! the onboarding QR code).
use crate::text::{
    chars_eq, chars_of, lemma_replace_absent_first, lemma_replace_chars, lemma_replace_match,
    lemma_replace_step, lemma_split_concat, lemma_split_no_sep, lemma_split_once_known, push_all,
    push_str, replace, replace_str, split, split_chars, split_once, split_once_chars,
    starts_with, string_from_chars, sub_chars, views,
};
use vstd::prelude::*;

verus! {

broadcast use vstd::string::group_string_axioms;

/// Agent onboarding info encoded in a QR code.
#[derive(Debug, Clone)]
pub struct AgentQrData {
    /// Agent's Nostr public key (npub)
    pub npub: String,
    /// Preferred relay URL
    pub relay: String,
    /// Agent display name
    pub name: String,
    /// Agent capabilities summary (not carried by the URI)
    pub capabilities: Vec<String>,
}

// ---------------------------------------------------------------------------
// Specifications
// ---------------------------------------------------------------------------

/// How a relay URL is written in the URI: `://` becomes `%3A%2F%2F`, then
/// every `/` becomes `%2F`.
pub open spec fn relay_encoding(s: Seq<char>) -> Seq<char> {
    replace(replace(s, "://"@, "%3A%2F%2F"@), "/"@, "%2F"@)
}

/// How a name is written in the URI: every space becomes `%20`.
pub open spec fn name_encoding(s: Seq<char>) -> Seq<char> {
    replace(s, " "@, "%20"@)
}

/// How a URI value is read: `%3A%2F%2F` becomes `://`, then `%2F` becomes
/// `/`, then `%20` becomes a space.
pub open spec fn url_decoding(s: Seq<char>) -> Seq<char> {
    replace(replace(replace(s, "%3A%2F%2F"@, "://"@), "%2F"@, "/"@), "%20"@, " "@)
}

/// The URI for an agent.
pub open spec fn to_uri_spec(npub: Seq<char>, relay: Seq<char>, name: Seq<char>) -> Seq<char> {
    "sigil://agent?npub="@ + npub + "&relay="@ + relay_encoding(relay) + "&name="@
        + name_encoding(name)
}

/// The fields found so far while reading the URI's query: npub, relay, name.
pub type QueryFields = (Option<Seq<char>>, Option<Seq<char>>, Option<Seq<char>>);

/// Reads one `key=value` pair: a pair without `=` fails the whole parse; the
/// keys `npub`, `relay` and `name` set their field (relay and name decoded);
/// other keys are ignored.
pub open spec fn apply_pair(acc: Option<QueryFields>, pair: Seq<char>) -> Option<QueryFields> {
    match acc {
        None => None,
        Some((n, r, m)) => match split_once(pair, '=') {
            None => None,
            Some((k, v)) => if k == "npub"@ {
                Some((Some(v), r, m))
            } else if k == "relay"@ {
                Some((n, Some(url_decoding(v)), m))
            } else if k == "name"@ {
                Some((n, r, Some(url_decoding(v))))
            } else {
                Some((n, r, m))
            },
        },
    }
}

/// Reads the pairs in order; a later pair overrides an earlier one.
pub open spec fn scan_pairs(pairs: Seq<Seq<char>>) -> Option<QueryFields>
    decreases pairs.len(),
{
    if pairs.len() == 0 {
        Some((None, None, None))
    } else {
        apply_pair(scan_pairs(pairs.drop_last()), pairs.last())
    }
}

/// What `from_uri` returns, as (npub, relay, name): the URI must start with
/// `sigil://agent?`, every `&`-separated piece after it must hold a `=`, and
/// all three fields must be present.
pub open spec fn from_uri_spec(uri: Seq<char>) -> Option<(Seq<char>, Seq<char>, Seq<char>)> {
    if !"sigil://agent?"@.is_prefix_of(uri) {
        None
    } else {
        match scan_pairs(split(uri.skip(14), '&')) {
            Some((Some(n), Some(r), Some(m))) => Some((n, r, m)),
            _ => None,
        }
    }
}

// ---------------------------------------------------------------------------
// Lemmas
// ---------------------------------------------------------------------------

/// A pattern that differs from the text at some position does not start it.
proof fn lemma_replace_mismatch(t: Seq<char>, p: Seq<char>, r: Seq<char>, j: int)
    requires
        p.len() > 0,
        t.len() > 0,
        0 <= j < p.len(),
        j < t.len(),
        p[j] != t[j],
    ensures
        replace(t, p, r) == seq![t[0]] + replace(t.drop_first(), p, r),
{
    assert(!p.is_prefix_of(t)) by {
        if p.is_prefix_of(t) {
            assert(t.take(p.len() as int)[j] == t[j]);
        }
    }
}

/// The decoding passes over a character other than `%`.
proof fn lemma_decode_plain(c: char, y: Seq<char>)
    requires
        c != '%',
    ensures
        url_decoding(seq![c] + y) == seq![c] + url_decoding(y),
{
    reveal_strlit("%3A%2F%2F");
    reveal_strlit("%2F");
    reveal_strlit("%20");
    lemma_replace_step(c, y, "%3A%2F%2F"@, "://"@);
    let y1 = replace(y, "%3A%2F%2F"@, "://"@);
    lemma_replace_step(c, y1, "%2F"@, "/"@);
    let y2 = replace(y1, "%2F"@, "/"@);
    lemma_replace_step(c, y2, "%20"@, " "@);
}

/// The decoding passes over a text without `%`.
proof fn lemma_decode_plain_seq(a: Seq<char>, y: Seq<char>)
    requires
        !a.contains('%'),
    ensures
        url_decoding(a + y) == a + url_decoding(y),
    decreases a.len(),
{
    if a.len() == 0 {
        assert(a + y =~= y);
        assert(a + url_decoding(y) =~= url_decoding(y));
    } else {
        let rest = a.drop_first();
        assert(!rest.contains('%')) by {
            assert forall|i: int| 0 <= i < rest.len() implies rest[i] != '%' by {
                assert(rest[i] == a[i + 1]);
            }
        }
        assert(a[0] != '%') by {
            assert(a.contains(a[0])) by { assert(a[0] == a[0]); }
        }
        lemma_decode_plain_seq(rest, y);
        assert(a + y =~= seq![a[0]] + (rest + y));
        lemma_decode_plain(a[0], rest + y);
        assert(a + url_decoding(y) =~= seq![a[0]] + (rest + url_decoding(y)));
    }
}

/// `%3A%2F%2F` decodes to `://`.
proof fn lemma_decode_colon_slashes(y: Seq<char>)
    ensures
        url_decoding("%3A%2F%2F"@ + y) == "://"@ + url_decoding(y),
{
    reveal_strlit("%3A%2F%2F");
    reveal_strlit("://");
    reveal_strlit("%2F");
    reveal_strlit("%20");
    lemma_replace_match("%3A%2F%2F"@, y, "://"@);
    let y1 = replace(y, "%3A%2F%2F"@, "://"@);
    // the second and third passes step over the three plain characters
    assert(!"://"@.contains('%'));
    lemma_decode_rest_plain("://"@, y1);
}

/// After the first pass, the remaining two passes step over a text without `%`.
proof fn lemma_decode_rest_plain(a: Seq<char>, y1: Seq<char>)
    requires
        !a.contains('%'),
    ensures
        replace(replace(a + y1, "%2F"@, "/"@), "%20"@, " "@) == a + replace(
            replace(y1, "%2F"@, "/"@),
            "%20"@,
            " "@,
        ),
    decreases a.len(),
{
    reveal_strlit("%2F");
    reveal_strlit("%20");
    if a.len() == 0 {
        assert(a + y1 =~= y1);
        assert(a + replace(replace(y1, "%2F"@, "/"@), "%20"@, " "@) =~= replace(
            replace(y1, "%2F"@, "/"@),
            "%20"@,
            " "@,
        ));
    } else {
        let rest = a.drop_first();
        assert(!rest.contains('%')) by {
            assert forall|i: int| 0 <= i < rest.len() implies rest[i] != '%' by {
                assert(rest[i] == a[i + 1]);
            }
        }
        assert(a[0] != '%') by {
            assert(a.contains(a[0])) by { assert(a[0] == a[0]); }
        }
        lemma_decode_rest_plain(rest, y1);
        assert(a + y1 =~= seq![a[0]] + (rest + y1));
        lemma_replace_step(a[0], rest + y1, "%2F"@, "/"@);
        let z = replace(rest + y1, "%2F"@, "/"@);
        lemma_replace_step(a[0], z, "%20"@, " "@);
        let w = replace(replace(y1, "%2F"@, "/"@), "%20"@, " "@);
        assert(a + w =~= seq![a[0]] + (rest + w));
    }
}

/// `%2F` decodes to `/`.
proof fn lemma_decode_slash(y: Seq<char>)
    ensures
        url_decoding("%2F"@ + y) == "/"@ + url_decoding(y),
{
    reveal_strlit("%3A%2F%2F");
    reveal_strlit("%2F");
    reveal_strlit("%20");
    reveal_strlit("/");
    let b = "%2F"@;
    let t = b + y;
    // first pass: `%3A...` differs at index 1, then `2` and `F` are plain
    lemma_replace_mismatch(t, "%3A%2F%2F"@, "://"@, 1);
    assert(t.drop_first() =~= seq!['2'] + (seq!['F'] + y));
    lemma_replace_step('2', seq!['F'] + y, "%3A%2F%2F"@, "://"@);
    lemma_replace_step('F', y, "%3A%2F%2F"@, "://"@);
    let y1 = replace(y, "%3A%2F%2F"@, "://"@);
    assert(replace(t, "%3A%2F%2F"@, "://"@) =~= b + y1);
    // second pass: a match
    lemma_replace_match(b, y1, "/"@);
    let y2 = replace(y1, "%2F"@, "/"@);
    // third pass: `/` is plain
    assert("/"@ =~= seq!['/']);
    lemma_replace_step('/', y2, "%20"@, " "@);
}

/// `%20` decodes to a space.
proof fn lemma_decode_space(y: Seq<char>)
    ensures
        url_decoding("%20"@ + y) == " "@ + url_decoding(y),
{
    reveal_strlit("%3A%2F%2F");
    reveal_strlit("%2F");
    reveal_strlit("%20");
    reveal_strlit(" ");
    let c = "%20"@;
    let t = c + y;
    lemma_replace_mismatch(t, "%3A%2F%2F"@, "://"@, 1);
    assert(t.drop_first() =~= seq!['2'] + (seq!['0'] + y));
    lemma_replace_step('2', seq!['0'] + y, "%3A%2F%2F"@, "://"@);
    lemma_replace_step('0', y, "%3A%2F%2F"@, "://"@);
    let y1 = replace(y, "%3A%2F%2F"@, "://"@);
    assert(replace(t, "%3A%2F%2F"@, "://"@) =~= c + y1);
    let t1 = c + y1;
    lemma_replace_mismatch(t1, "%2F"@, "/"@, 2);
    assert(t1.drop_first() =~= seq!['2'] + (seq!['0'] + y1));
    lemma_replace_step('2', seq!['0'] + y1, "%2F"@, "/"@);
    lemma_replace_step('0', y1, "%2F"@, "/"@);
    let y2 = replace(y1, "%2F"@, "/"@);
    assert(replace(t1, "%2F"@, "/"@) =~= c + y2);
    lemma_replace_match(c, y2, " "@);
}

/// The relay encoding of a nonempty text, one step.
proof fn lemma_relay_encoding_step(r: Seq<char>)
    requires
        r.len() > 0,
    ensures
        "://"@.is_prefix_of(r) ==> relay_encoding(r) == "%3A%2F%2F"@ + relay_encoding(r.skip(3)),
        !"://"@.is_prefix_of(r) && r[0] == '/' ==> relay_encoding(r) == "%2F"@ + relay_encoding(
            r.drop_first(),
        ),
        !"://"@.is_prefix_of(r) && r[0] != '/' ==> relay_encoding(r) == seq![r[0]]
            + relay_encoding(r.drop_first()),
{
    reveal_strlit("://");
    reveal_strlit("%3A%2F%2F");
    reveal_strlit("/");
    reveal_strlit("%2F");
    let a = "%3A%2F%2F"@;
    if "://"@.is_prefix_of(r) {
        let rest = r.skip(3);
        assert(r =~= "://"@ + rest);
        lemma_replace_match("://"@, rest, a);
        let z = replace(rest, "://"@, a);
        assert("/"@ =~= seq!['/']);
        lemma_replace_single_concat(a, z, '/', "%2F"@);
        assert(!a.contains('/'));
        lemma_replace_absent_first(a, "/"@, "%2F"@);
    } else {
        assert(r =~= seq![r[0]] + r.drop_first());
        assert(replace(r, "://"@, a) == seq![r[0]] + replace(r.drop_first(), "://"@, a));
        let z = replace(r.drop_first(), "://"@, a);
        if r[0] == '/' {
            lemma_replace_match("/"@, z, "%2F"@);
            assert(seq![r[0]] =~= "/"@);
        } else {
            lemma_replace_step(r[0], z, "/"@, "%2F"@);
        }
    }
}

/// Replacing a one-character pattern acts on the two halves separately.
proof fn lemma_replace_single_concat(a: Seq<char>, z: Seq<char>, c: char, r: Seq<char>)
    ensures
        replace(a + z, seq![c], r) == replace(a, seq![c], r) + replace(z, seq![c], r),
    decreases a.len(),
{
    let p = seq![c];
    if a.len() == 0 {
        assert(a + z =~= z);
        assert(replace(a, p, r) =~= Seq::<char>::empty());
        assert(replace(a, p, r) + replace(z, p, r) =~= replace(z, p, r));
    } else {
        lemma_replace_single_concat(a.drop_first(), z, c, r);
        assert((a + z).drop_first() =~= a.drop_first() + z);
        assert((a + z)[0] == a[0]);
        if a[0] == c {
            assert(p.is_prefix_of(a + z)) by {
                assert((a + z).take(1) =~= p);
            }
            assert(p.is_prefix_of(a)) by {
                assert(a.take(1) =~= p);
            }
            assert((a + z).skip(1) =~= a.drop_first() + z);
            assert(a.skip(1) =~= a.drop_first());
            assert(replace(a + z, p, r) =~= replace(a, p, r) + replace(z, p, r));
        } else {
            assert(!p.is_prefix_of(a + z)) by {
                if p.is_prefix_of(a + z) {
                    assert((a + z).take(1)[0] == c);
                }
            }
            assert(!p.is_prefix_of(a)) by {
                if p.is_prefix_of(a) {
                    assert(a.take(1)[0] == c);
                }
            }
            assert(replace(a + z, p, r) =~= replace(a, p, r) + replace(z, p, r));
        }
    }
}

/// Decoding undoes the relay encoding of a text without `%`.
pub proof fn lemma_relay_roundtrip(r: Seq<char>)
    requires
        !r.contains('%'),
    ensures
        url_decoding(relay_encoding(r)) == r,
    decreases r.len(),
{
    reveal_strlit("://");
    reveal_strlit("%3A%2F%2F");
    reveal_strlit("/");
    reveal_strlit("%2F");
    reveal_strlit("%20");
    if r.len() == 0 {
        assert(relay_encoding(r) == r);
        assert(url_decoding(r) == r);
    } else {
        lemma_relay_encoding_step(r);
        if "://"@.is_prefix_of(r) {
            let rest = r.skip(3);
            assert(!rest.contains('%')) by {
                assert forall|i: int| 0 <= i < rest.len() implies rest[i] != '%' by {
                    assert(rest[i] == r[i + 3]);
                }
            }
            lemma_relay_roundtrip(rest);
            lemma_decode_colon_slashes(relay_encoding(rest));
            assert(r =~= "://"@ + rest);
        } else {
            let rest = r.drop_first();
            assert(!rest.contains('%')) by {
                assert forall|i: int| 0 <= i < rest.len() implies rest[i] != '%' by {
                    assert(rest[i] == r[i + 1]);
                }
            }
            lemma_relay_roundtrip(rest);
            assert(r =~= seq![r[0]] + rest);
            if r[0] == '/' {
                lemma_decode_slash(relay_encoding(rest));
                assert(seq![r[0]] =~= "/"@);
            } else {
                assert(r[0] != '%') by {
                    assert(r.contains(r[0])) by { assert(r[0] == r[0]); }
                }
                lemma_decode_plain(r[0], relay_encoding(rest));
            }
        }
    }
}

/// Decoding undoes the name encoding of a text without `%`.
pub proof fn lemma_name_roundtrip(m: Seq<char>)
    requires
        !m.contains('%'),
    ensures
        url_decoding(name_encoding(m)) == m,
    decreases m.len(),
{
    reveal_strlit(" ");
    reveal_strlit("%20");
    reveal_strlit("%2F");
    reveal_strlit("%3A%2F%2F");
    if m.len() == 0 {
        assert(name_encoding(m) == m);
        assert(url_decoding(m) == m);
    } else {
        let rest = m.drop_first();
        assert(!rest.contains('%')) by {
            assert forall|i: int| 0 <= i < rest.len() implies rest[i] != '%' by {
                assert(rest[i] == m[i + 1]);
            }
        }
        lemma_name_roundtrip(rest);
        assert(m =~= seq![m[0]] + rest);
        if m[0] == ' ' {
            assert(seq![m[0]] =~= " "@);
            lemma_replace_match(" "@, rest, "%20"@);
            lemma_decode_space(name_encoding(rest));
        } else {
            lemma_replace_step(m[0], rest, " "@, "%20"@);
            assert(m[0] != '%') by {
                assert(m.contains(m[0])) by { assert(m[0] == m[0]); }
            }
            lemma_decode_plain(m[0], name_encoding(rest));
        }
    }
}

/// A text without `c` prefixed by a literal without `c` has no `c`.
proof fn lemma_no_char_concat(a: Seq<char>, b: Seq<char>, c: char)
    requires
        !a.contains(c),
        !b.contains(c),
    ensures
        !(a + b).contains(c),
{
    assert forall|i: int| 0 <= i < (a + b).len() implies (a + b)[i] != c by {
        if i < a.len() {
            assert((a + b)[i] == a[i]);
        } else {
            assert((a + b)[i] == b[i - a.len()]);
        }
    }
}

/// Reading a URI built from an agent's data gives the data back, when no
/// field holds `&` and the relay and name survive encoding and decoding.
pub proof fn lemma_uri_roundtrip(npub: Seq<char>, relay: Seq<char>, name: Seq<char>)
    requires
        !npub.contains('&'),
        !relay.contains('&'),
        !name.contains('&'),
        url_decoding(relay_encoding(relay)) == relay,
        url_decoding(name_encoding(name)) == name,
    ensures
        from_uri_spec(to_uri_spec(npub, relay, name)) == Some((npub, relay, name)),
{
    reveal_strlit("sigil://agent?npub=");
    reveal_strlit("sigil://agent?");
    reveal_strlit("&relay=");
    reveal_strlit("&name=");
    reveal_strlit("npub");
    reveal_strlit("relay");
    reveal_strlit("name");
    reveal_strlit("://");
    reveal_strlit("%3A%2F%2F");
    reveal_strlit("/");
    reveal_strlit("%2F");
    reveal_strlit(" ");
    reveal_strlit("%20");
    let er = relay_encoding(relay);
    let en = name_encoding(name);
    let uri = to_uri_spec(npub, relay, name);
    // The relay and name encodings introduce no `&`.
    assert(!"%3A%2F%2F"@.contains('&'));
    assert(!"%2F"@.contains('&'));
    assert(!"%20"@.contains('&'));
    lemma_replace_chars(relay, "://"@, "%3A%2F%2F"@, '&');
    lemma_replace_chars(replace(relay, "://"@, "%3A%2F%2F"@), "/"@, "%2F"@, '&');
    lemma_replace_chars(name, " "@, "%20"@, '&');
    // The three pairs.
    let k1 = seq!['n', 'p', 'u', 'b'];
    let k2 = seq!['r', 'e', 'l', 'a', 'y'];
    let k3 = seq!['n', 'a', 'm', 'e'];
    let p1 = k1 + seq!['='] + npub;
    let p2 = k2 + seq!['='] + er;
    let p3 = k3 + seq!['='] + en;
    assert(uri =~= "sigil://agent?"@ + (p1 + seq!['&'] + (p2 + seq!['&'] + p3)));
    assert("sigil://agent?"@.is_prefix_of(uri)) by {
        assert(uri.take(14) =~= "sigil://agent?"@);
    }
    assert(uri.skip(14) =~= p1 + seq!['&'] + (p2 + seq!['&'] + p3));
    // Splitting on `&`.
    assert(!k1.contains('&') && !k2.contains('&') && !k3.contains('&'));
    assert(!seq!['='].contains('&'));
    lemma_no_char_concat(k1, seq!['='], '&');
    lemma_no_char_concat(k1 + seq!['='], npub, '&');
    lemma_no_char_concat(k2, seq!['='], '&');
    lemma_no_char_concat(k2 + seq!['='], er, '&');
    lemma_no_char_concat(k3, seq!['='], '&');
    lemma_no_char_concat(k3 + seq!['='], en, '&');
    lemma_split_concat(p1, '&', p2 + seq!['&'] + p3);
    lemma_split_concat(p2, '&', p3);
    lemma_split_no_sep(p1, '&');
    lemma_split_no_sep(p2, '&');
    lemma_split_no_sep(p3, '&');
    let pairs = split(uri.skip(14), '&');
    assert(pairs =~= seq![p1, p2, p3]);
    // Reading each pair.
    assert(!k1.contains('=') && !k2.contains('=') && !k3.contains('='));
    lemma_split_once_known(k1, '=', npub);
    lemma_split_once_known(k2, '=', er);
    lemma_split_once_known(k3, '=', en);
    assert(k1 =~= "npub"@);
    assert(k2 =~= "relay"@);
    assert(k3 =~= "name"@);
    assert(k2 != "npub"@) by {
        assert(k2.len() != "npub"@.len());
    }
    assert(k3 != "npub"@) by {
        assert(k3[1] != "npub"@[1]);
    }
    assert(k3 != "relay"@) by {
        assert(k3.len() != "relay"@.len());
    }
    assert(pairs.drop_last() =~= seq![p1, p2]);
    assert(pairs.drop_last().drop_last() =~= seq![p1]);
    assert(pairs.drop_last().drop_last().drop_last() =~= Seq::<Seq<char>>::empty());
    assert(seq![p1].drop_last() =~= Seq::<Seq<char>>::empty());
    assert(seq![p1].last() == p1);
    assert(scan_pairs(Seq::<Seq<char>>::empty()) == Some(
        (None::<Seq<char>>, None::<Seq<char>>, None::<Seq<char>>),
    ));
    assert(split_once(p1, '=') == Some((k1, npub)));
    assert(scan_pairs(seq![p1]) == Some((Some(npub), None::<Seq<char>>, None::<Seq<char>>)));
    assert(seq![p1, p2].drop_last() =~= seq![p1]);
    assert(seq![p1, p2].last() == p2);
    assert(scan_pairs(seq![p1, p2]) == Some((Some(npub), Some(relay), None::<Seq<char>>)));
    assert(scan_pairs(pairs) == Some((Some(npub), Some(relay), Some(name))));
}

/// A failed read of a prefix of the pairs fails the whole read.
proof fn lemma_scan_none_stays(pairs: Seq<Seq<char>>, i: int)
    requires
        0 <= i <= pairs.len(),
        scan_pairs(pairs.take(i)) is None,
    ensures
        scan_pairs(pairs) is None,
    decreases pairs.len() - i,
{
    if i < pairs.len() {
        assert(pairs.take(i + 1).drop_last() =~= pairs.take(i));
        lemma_scan_none_stays(pairs, i + 1);
    } else {
        assert(pairs.take(i) =~= pairs);
    }
}

// ---------------------------------------------------------------------------
// Executable functions
// ---------------------------------------------------------------------------

/// Writes a relay URL for the URI.
pub fn urlencoding_relay(s: &[char]) -> (out: Vec<char>)
    ensures
        out@ == relay_encoding(s@),
{
    proof {
        reveal_strlit("://");
        reveal_strlit("/");
    }
    let a = replace_str(s, "://", "%3A%2F%2F");
    replace_str(a.as_slice(), "/", "%2F")
}

/// Writes a name for the URI.
pub fn urlencoding_name(s: &[char]) -> (out: Vec<char>)
    ensures
        out@ == name_encoding(s@),
{
    proof {
        reveal_strlit(" ");
    }
    replace_str(s, " ", "%20")
}

/// Reads a URI value.
pub fn urldecoding(s: &[char]) -> (out: Vec<char>)
    ensures
        out@ == url_decoding(s@),
{
    proof {
        reveal_strlit("%3A%2F%2F");
        reveal_strlit("%2F");
        reveal_strlit("%20");
    }
    let a = replace_str(s, "%3A%2F%2F", "://");
    let b = replace_str(a.as_slice(), "%2F", "/");
    replace_str(b.as_slice(), "%20", " ")
}

/// Views of an optional character vector.
pub open spec fn opt_view(o: Option<Vec<char>>) -> Option<Seq<char>> {
    match o {
        Some(v) => Some(v@),
        None => None,
    }
}

/// Why the QR code of a text could not be made (the `qrcode` crate's
/// `QrError`, variant for variant).
#[derive(Debug, Clone, Copy, PartialEq, Eq, Structural)]
pub enum QrFailure {
    /// The data is too long for a QR code.
    DataTooLong,
    /// The version and error-correction level do not fit together.
    InvalidVersion,
    /// The version cannot hold some characters of the data.
    UnsupportedCharacterSet,
    /// The ECI designator is out of range.
    InvalidEciDesignator,
    /// A character is outside the character set.
    InvalidCharacter,
}

/// The SVG image that the `qrcode` crate draws for `text` (error-correction
/// level M, at least `min_size` pixels square), or why it cannot.
pub uninterp spec fn qr_svg(text: Seq<char>, min_size: u32) -> Result<Seq<char>, QrFailure>;

/// `QrCode::new` on the text's bytes, then the SVG rendering at `min_size`
/// pixels or more; larger sizes are refused, since the renderer's size
/// arithmetic overflows near `u32::MAX`. The contract claims only that the outcome is the one
/// named `qr_svg` for these arguments.
#[verifier::external_body]
fn render_qr_svg(text: &str, min_size: u32) -> (res: Result<String, QrFailure>)
    requires
        min_size <= 65536,
    ensures
        match res {
            Ok(svg) => qr_svg(text@, min_size) == Ok::<Seq<char>, QrFailure>(svg@),
            Err(e) => qr_svg(text@, min_size) == Err::<Seq<char>, QrFailure>(e),
        },
{
    match qrcode::QrCode::new(text) {
        Ok(code) => Ok(code.render::<qrcode::render::svg::Color>().min_dimensions(min_size, min_size).build()),
        Err(e) => Err(match e {
            qrcode::types::QrError::DataTooLong => QrFailure::DataTooLong,
            qrcode::types::QrError::InvalidVersion => QrFailure::InvalidVersion,
            qrcode::types::QrError::UnsupportedCharacterSet => QrFailure::UnsupportedCharacterSet,
            qrcode::types::QrError::InvalidEciDesignator => QrFailure::InvalidEciDesignator,
            qrcode::types::QrError::InvalidCharacter => QrFailure::InvalidCharacter,
        }),
    }
}

impl AgentQrData {
    /// The QR code of the URI, as an SVG image at least 256 pixels square.
    pub fn to_qr_svg(&self) -> (res: Result<String, QrFailure>)
        ensures
            match res {
                Ok(svg) => qr_svg(to_uri_spec(self.npub@, self.relay@, self.name@), 256) == Ok::<
                    Seq<char>,
                    QrFailure,
                >(svg@),
                Err(e) => qr_svg(to_uri_spec(self.npub@, self.relay@, self.name@), 256) == Err::<
                    Seq<char>,
                    QrFailure,
                >(e),
            },
    {
        let uri = self.to_uri();
        render_qr_svg(uri.as_str(), 256)
    }

    /// Encodes the data as a `sigil://agent?npub=..&relay=..&name=..` URI
    /// (the capabilities are not carried).
    pub fn to_uri(&self) -> (uri: String)
        ensures
            uri@ == to_uri_spec(self.npub@, self.relay@, self.name@),
    {
        let mut out: Vec<char> = Vec::new();
        push_str(&mut out, "sigil://agent?npub=");
        push_str(&mut out, self.npub.as_str());
        push_str(&mut out, "&relay=");
        let relay = chars_of(self.relay.as_str());
        let er = urlencoding_relay(relay.as_slice());
        push_all(&mut out, er.as_slice());
        push_str(&mut out, "&name=");
        let name = chars_of(self.name.as_str());
        let en = urlencoding_name(name.as_slice());
        push_all(&mut out, en.as_slice());
        string_from_chars(out.as_slice())
    }

    /// Parses a `sigil://agent?...` URI. Returns `None` when the prefix is
    /// missing, when a `&`-separated piece has no `=`, or when npub, relay or
    /// name is missing; the capabilities come back empty.
    pub fn from_uri(uri: &str) -> (res: Option<Self>)
        ensures
            match res {
                Some(d) => from_uri_spec(uri@) == Some((d.npub@, d.relay@, d.name@))
                    && d.capabilities@.len() == 0,
                None => from_uri_spec(uri@) is None,
            },
    {
        let cs = chars_of(uri);
        let prefix = chars_of("sigil://agent?");
        proof {
            reveal_strlit("sigil://agent?");
        }
        if !starts_with(cs.as_slice(), prefix.as_slice()) {
            return None;
        }
        let query = sub_chars(cs.as_slice(), 14, cs.len());
        assert(query@ == uri@.skip(14));
        let parts = split_chars(query.as_slice(), '&');
        let ghost pairs = views(parts@);
        let k_npub = chars_of("npub");
        let k_relay = chars_of("relay");
        let k_name = chars_of("name");
        let mut npub: Option<Vec<char>> = None;
        let mut relay: Option<Vec<char>> = None;
        let mut name: Option<Vec<char>> = None;
        let mut i: usize = 0;
        assert(pairs.take(0) =~= Seq::<Seq<char>>::empty());
        while i < parts.len()
            invariant
                i <= parts.len(),
                pairs == views(parts@),
                pairs == split(uri@.skip(14), '&'),
                k_npub@ == "npub"@,
                k_relay@ == "relay"@,
                k_name@ == "name"@,
                scan_pairs(pairs.take(i as int)) == Some(
                    (opt_view(npub), opt_view(relay), opt_view(name)),
                ),
            decreases parts.len() - i,
        {
            assert(pairs.take(i + 1).drop_last() =~= pairs.take(i as int));
            assert(pairs.take(i + 1).last() == parts@[i as int]@);
            match split_once_chars(parts[i].as_slice(), '=') {
                None => {
                    proof {
                        lemma_scan_none_stays(pairs, i + 1);
                    }
                    return None;
                },
                Some((k, v)) => {
                    if chars_eq(k.as_slice(), k_npub.as_slice()) {
                        npub = Some(v);
                    } else if chars_eq(k.as_slice(), k_relay.as_slice()) {
                        relay = Some(urldecoding(v.as_slice()));
                    } else if chars_eq(k.as_slice(), k_name.as_slice()) {
                        name = Some(urldecoding(v.as_slice()));
                    }
                },
            }
            i += 1;
        }
        assert(pairs.take(parts.len() as int) =~= pairs);
        match (npub, relay, name) {
            (Some(n), Some(r), Some(m)) => Some(
                AgentQrData {
                    npub: string_from_chars(n.as_slice()),
                    relay: string_from_chars(r.as_slice()),
                    name: string_from_chars(m.as_slice()),
                    capabilities: Vec::new(),
                },
            ),
            _ => None,
        }
    }
}

/// Reading the URI that `to_uri` writes gives the data back (without the
/// capabilities) exactly when no field holds `&` and the relay and the name
/// survive their encoding and decoding, which they do when they hold no `%`
/// (`lemma_relay_roundtrip`, `lemma_name_roundtrip`).
pub proof fn lemma_qr_roundtrip(d: AgentQrData)
    requires
        !d.npub@.contains('&'),
        !d.relay@.contains('&'),
        !d.name@.contains('&'),
        url_decoding(relay_encoding(d.relay@)) == d.relay@,
        url_decoding(name_encoding(d.name@)) == d.name@,
    ensures
        from_uri_spec(to_uri_spec(d.npub@, d.relay@, d.name@)) == Some((d.npub@, d.relay@, d.name@)),
{
    lemma_uri_roundtrip(d.npub@, d.relay@, d.name@);
}

} // verus!

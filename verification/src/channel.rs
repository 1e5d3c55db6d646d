//! NIP-28 public channels for group chat.
//!
//! Kind 40 creates a channel (its id is the channel's id), kind 42 is a
//! message in it. Event ids and public keys are held as their hex text.
use crate::table::str_views;
use crate::text::str_eq;
use vstd::prelude::*;

verus! {

/// Channel metadata stored in the content of the creation event.
#[derive(Debug, Clone)]
pub struct ChannelInfo {
    pub name: String,
    pub about: Option<String>,
    pub picture: Option<String>,
}

/// A message in a channel.
#[derive(Debug, Clone)]
pub struct ChannelMsg {
    /// Hex id of the channel's creation event.
    pub channel_id: String,
    /// Hex public key of the sender.
    pub sender: String,
    pub content: String,
    /// Seconds since the Unix epoch.
    pub timestamp: u64,
}

// ---------------------------------------------------------------------------
// Specifications
// ---------------------------------------------------------------------------

/// The messages sent at time `k`.
pub open spec fn at_stamp(k: u64) -> spec_fn(ChannelMsg) -> bool {
    |m: ChannelMsg| m.timestamp == k
}

/// The timestamps never decrease along `s`.
pub open spec fn stamps_ordered(s: Seq<ChannelMsg>) -> bool {
    forall|i: int, j: int| 0 <= i <= j < s.len() ==> s[i].timestamp <= s[j].timestamp
}

/// `out` is `input` ordered by timestamp, messages with the same timestamp
/// keeping their order in `input` (a stable sort).
pub open spec fn stable_by_stamp(out: Seq<ChannelMsg>, input: Seq<ChannelMsg>) -> bool {
    &&& stamps_ordered(out)
    &&& forall|k: u64| #[trigger] out.filter(at_stamp(k)) == input.filter(at_stamp(k))
}

/// The tags of a channel message: `["e", channel]`, `["marker", "root"]` and,
/// with a relay hint, `["relay", hint]`.
pub open spec fn message_tags(channel_id: Seq<char>, relay_hint: Option<Seq<char>>) -> Seq<
    Seq<Seq<char>>,
> {
    seq![seq!["e"@, channel_id], seq!["marker"@, "root"@]] + match relay_hint {
        Some(r) => seq![seq!["relay"@, r]],
        None => Seq::empty(),
    }
}

/// The content of the first `e` tag that has one: the channel that a
/// channel message belongs to.
pub open spec fn message_channel_spec(tags: Seq<Seq<Seq<char>>>) -> Option<Seq<char>>
    decreases tags.len(),
{
    if tags.len() == 0 {
        None
    } else if tags[0].len() > 1 && tags[0][0] == "e"@ {
        Some(tags[0][1])
    } else {
        message_channel_spec(tags.drop_first())
    }
}

// ---------------------------------------------------------------------------
// Lemmas
// ---------------------------------------------------------------------------

/// A sequence with no message at time `k` keeps none of them.
proof fn lemma_filter_none(s: Seq<ChannelMsg>, k: u64)
    requires
        forall|i: int| 0 <= i < s.len() ==> s[i].timestamp != k,
    ensures
        s.filter(at_stamp(k)) == Seq::<ChannelMsg>::empty(),
    decreases s.len(),
{
    reveal(Seq::filter);
    if s.len() > 0 {
        lemma_filter_none(s.drop_last(), k);
    }
}

/// Filtering one message.
proof fn lemma_filter_single(x: ChannelMsg, k: u64)
    ensures
        seq![x].filter(at_stamp(k)) == (if x.timestamp == k {
            seq![x]
        } else {
            Seq::<ChannelMsg>::empty()
        }),
{
    reveal(Seq::filter);
    let e = Seq::<ChannelMsg>::empty();
    assert(e.filter(at_stamp(k)) =~= e);
    assert(seq![x] =~= e.push(x));
    e.lemma_filter_push(x, at_stamp(k));
}

/// Inserting a message in front of every later-stamped message keeps a
/// stable order, for the input with that message in front.
proof fn lemma_insert_stable(s: Seq<ChannelMsg>, x: ChannelMsg, p: int, input: Seq<ChannelMsg>)
    requires
        stable_by_stamp(s, input),
        0 <= p <= s.len(),
        forall|i: int| 0 <= i < p ==> s[i].timestamp < x.timestamp,
        forall|i: int| p <= i < s.len() ==> s[i].timestamp >= x.timestamp,
    ensures
        stable_by_stamp(s.insert(p, x), seq![x] + input),
{
    let t = s.insert(p, x);
    let front = s.subrange(0, p);
    let back = s.subrange(p, s.len() as int);
    assert(t =~= front.push(x) + back);
    assert(s =~= front + back);
    assert forall|i: int, j: int| 0 <= i <= j < t.len() implies t[i].timestamp
        <= t[j].timestamp by {
        if i < p && j > p {
            assert(t[j] == s[j - 1]);
        } else if i > p {
            assert(t[i] == s[i - 1] && t[j] == s[j - 1]);
        }
    }
    assert forall|k: u64| #[trigger] t.filter(at_stamp(k)) == (seq![x] + input).filter(
        at_stamp(k),
    ) by {
        let pred = at_stamp(k);
        Seq::filter_distributes_over_add(front.push(x), back, pred);
        front.lemma_filter_push(x, pred);
        Seq::filter_distributes_over_add(front, back, pred);
        Seq::filter_distributes_over_add(seq![x], input, pred);
        lemma_filter_single(x, k);
        assert(s.filter(pred) == input.filter(pred));
        if x.timestamp == k {
            lemma_filter_none(front, k);
            assert(front.filter(pred).push(x) =~= seq![x]);
            assert(front.filter(pred) + back.filter(pred) =~= back.filter(pred));
        } else {
            assert(Seq::<ChannelMsg>::empty() + input.filter(pred) =~= input.filter(pred));
        }
    }
}

// ---------------------------------------------------------------------------
// Executable functions
// ---------------------------------------------------------------------------

/// Orders a channel's history by timestamp; messages sent in the same second
/// keep the order in which they came.
pub fn sort_by_timestamp(messages: Vec<ChannelMsg>) -> (out: Vec<ChannelMsg>)
    ensures
        stable_by_stamp(out@, messages@),
{
    let ghost orig = messages@;
    let mut rest = messages;
    let mut out: Vec<ChannelMsg> = Vec::new();
    proof {
        reveal(Seq::filter);
        assert(orig.take(orig.len() as int) =~= orig);
        assert(orig.skip(orig.len() as int) =~= Seq::<ChannelMsg>::empty());
        assert forall|k: u64| #[trigger] out@.filter(at_stamp(k)) == orig.skip(
            orig.len() as int,
        ).filter(at_stamp(k)) by {
            assert(out@ =~= Seq::<ChannelMsg>::empty());
        }
    }
    while rest.len() > 0
        invariant
            rest.len() <= orig.len(),
            rest@ == orig.take(rest.len() as int),
            stable_by_stamp(out@, orig.skip(rest.len() as int)),
        decreases rest.len(),
    {
        let ghost n = rest.len() as int;
        let popped = rest.pop();
        let x = match popped {
            Some(m) => m,
            None => {
                return out;
            },
        };
        assert(x == orig[n - 1]);
        let mut p: usize = 0;
        while p < out.len() && out[p].timestamp < x.timestamp
            invariant
                p <= out.len(),
                forall|i: int| 0 <= i < p ==> out@[i].timestamp < x.timestamp,
            decreases out.len() - p,
        {
            p += 1;
        }
        let ghost before = out@;
        assert forall|i: int| p <= i < before.len() implies before[i].timestamp
            >= x.timestamp by {
            assert(before[p as int].timestamp <= before[i].timestamp);
        }
        out.insert(p, x);
        proof {
            lemma_insert_stable(before, x, p as int, orig.skip(n));
            assert(seq![x] + orig.skip(n) =~= orig.skip(n - 1));
            assert(rest@ =~= orig.take(n - 1));
        }
    }
    proof {
        assert(orig.skip(0) =~= orig);
    }
    out
}

/// The channel a channel message belongs to: the content of its first `e`
/// tag that has one.
pub fn message_channel(tags: &Vec<Vec<String>>) -> (res: Option<String>)
    ensures
        match res {
            Some(c) => message_channel_spec(tags@.map_values(|t: Vec<String>| str_views(t@)))
                == Some(c@),
            None => message_channel_spec(tags@.map_values(|t: Vec<String>| str_views(t@))) is None,
        },
{
    let ghost tv = tags@.map_values(|t: Vec<String>| str_views(t@));
    let mut i: usize = 0;
    assert(tv.skip(0) =~= tv);
    while i < tags.len()
        invariant
            i <= tags.len(),
            tv == tags@.map_values(|t: Vec<String>| str_views(t@)),
            message_channel_spec(tv) == message_channel_spec(tv.skip(i as int)),
        decreases tags.len() - i,
    {
        assert(tv.skip(i as int)[0] == str_views(tags@[i as int]@));
        assert(tv.skip(i as int).drop_first() =~= tv.skip(i + 1));
        if tags[i].len() > 1 && str_eq(tags[i][0].as_str(), "e") {
            return Some(tags[i][1].clone());
        }
        i += 1;
    }
    assert(tv.skip(i as int) =~= Seq::<Seq<Seq<char>>>::empty());
    None
}

/// A tag of two strings.
fn pair_tag(k: &str, v: String) -> (t: Vec<String>)
    ensures
        str_views(t@) == seq![k@, v@],
{
    let mut t: Vec<String> = Vec::new();
    t.push(k.to_owned());
    t.push(v);
    assert(str_views(t@) =~= seq![k@, v@]);
    t
}

/// The tags of a message sent to the channel whose creation event has the
/// hex id `channel_id`, with an optional relay hint.
pub fn channel_message_tags(channel_id: &str, relay_hint: Option<&str>) -> (tags: Vec<
    Vec<String>,
>)
    ensures
        tags@.map_values(|t: Vec<String>| str_views(t@)) == message_tags(
            channel_id@,
            match relay_hint {
                Some(r) => Some(r@),
                None => None,
            },
        ),
{
    let mut tags: Vec<Vec<String>> = Vec::new();
    tags.push(pair_tag("e", channel_id.to_owned()));
    tags.push(pair_tag("marker", "root".to_owned()));
    if let Some(r) = relay_hint {
        tags.push(pair_tag("relay", r.to_owned()));
    }
    assert(tags@.map_values(|t: Vec<String>| str_views(t@)) =~= message_tags(
        channel_id@,
        match relay_hint {
            Some(r) => Some(r@),
            None => None,
        },
    ));
    tags
}

} // verus!

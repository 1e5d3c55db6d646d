//! Agent discovery: profiles (kind 0 metadata) that say `"agent": true`.
//!
//! Relays cannot filter on the JSON content of a profile, so every profile
//! found is read here. The application decodes each profile's JSON and hands
//! over, per profile, the fields that discovery reads.
use crate::discovery::JsonText::{Missing, NotText, Text};
use serde_json::Value;
use vstd::prelude::*;

verus! {

/// An agent discovered on the relay network.
#[derive(Debug, Clone)]
pub struct DiscoveredAgent {
    pub npub: String,
    pub name: String,
    pub about: Option<String>,
    pub capabilities: Vec<String>,
    pub picture: Option<String>,
}

/// What a profile holds under a key that should hold text.
#[derive(Debug, Clone)]
pub enum JsonText {
    /// The key is absent.
    Missing,
    /// The key holds this string.
    Text(String),
    /// The key holds something other than a string.
    NotText,
}

/// The fields of a profile's JSON object that discovery reads.
#[derive(Debug, Clone)]
pub struct ProfileFields {
    /// `agent`, where it is a boolean.
    pub agent: Option<bool>,
    /// `name`.
    pub name: JsonText,
    /// `display_name`.
    pub display_name: JsonText,
    /// `about`, where it is a string.
    pub about: Option<String>,
    /// `picture`, where it is a string.
    pub picture: Option<String>,
    /// `capabilities.skills`, where it is an array: each item, where it is a
    /// string.
    pub skills: Option<Vec<Option<String>>>,
}

/// A profile found on a relay: the author's npub and the profile's fields,
/// `None` where its content is not JSON.
#[derive(Debug, Clone)]
pub struct FoundProfile {
    pub npub: String,
    pub fields: Option<ProfileFields>,
}

// ---------------------------------------------------------------------------
// Specifications
// ---------------------------------------------------------------------------

/// The name of an agent: `name`; where `name` is absent, `display_name`;
/// where neither gives a string, `Unknown Agent`.
pub open spec fn agent_name(f: ProfileFields) -> Seq<char> {
    match f.name {
        JsonText::Text(s) => s@,
        JsonText::Missing => match f.display_name {
            JsonText::Text(s) => s@,
            _ => "Unknown Agent"@,
        },
        JsonText::NotText => "Unknown Agent"@,
    }
}

/// The strings among the skills, in order.
pub open spec fn text_items(items: Seq<Option<String>>) -> Seq<Seq<char>>
    decreases items.len(),
{
    if items.len() == 0 {
        Seq::empty()
    } else {
        let rest = text_items(items.drop_last());
        match items.last() {
            Some(s) => rest.push(s@),
            None => rest,
        }
    }
}

/// The skills of an agent: the string items of `capabilities.skills`.
pub open spec fn agent_skills(f: ProfileFields) -> Seq<Seq<char>> {
    match f.skills {
        Some(v) => text_items(v@),
        None => Seq::empty(),
    }
}

/// `a` is the agent read from a profile whose `agent` is `true`.
pub open spec fn agent_from(p: FoundProfile, a: DiscoveredAgent) -> bool {
    &&& p.fields matches Some(f)
    &&& a.npub@ == p.npub@
    &&& a.name@ == agent_name(f)
    &&& a.about == f.about
    &&& a.picture == f.picture
    &&& a.capabilities@.map_values(|s: String| s@) == agent_skills(f)
}

/// The profile is an agent's: its content is JSON and `agent` is `true`.
pub open spec fn is_agent_profile(p: FoundProfile) -> bool {
    p.fields matches Some(f) && f.agent == Some(true)
}

/// The agent profiles among `ps`, in order.
pub open spec fn agent_profiles(ps: Seq<FoundProfile>) -> Seq<FoundProfile>
    decreases ps.len(),
{
    if ps.len() == 0 {
        Seq::empty()
    } else {
        let rest = agent_profiles(ps.drop_last());
        if is_agent_profile(ps.last()) {
            rest.push(ps.last())
        } else {
            rest
        }
    }
}

/// The number of agents kept: at most `limit`, and no more than there are.
pub open spec fn kept(ps: Seq<FoundProfile>, limit: usize) -> int {
    if agent_profiles(ps).len() < limit {
        agent_profiles(ps).len() as int
    } else {
        limit as int
    }
}

/// `agents` are read, in order, from the first agent profiles of `ps`, up to
/// `limit` of them.
pub open spec fn discovered_from(ps: Seq<FoundProfile>, limit: usize, agents: Seq<DiscoveredAgent>) -> bool {
    &&& agents.len() == kept(ps, limit)
    &&& forall|i: int| 0 <= i < agents.len() ==> agent_from(agent_profiles(ps)[i], #[trigger] agents[i])
}

/// Every profile that `agent_profiles` keeps says `"agent": true`, and
/// every profile of `ps` that says so is kept.
pub proof fn lemma_agent_profiles(ps: Seq<FoundProfile>)
    ensures
        agent_profiles(ps).len() <= ps.len(),
        forall|k: int|
            0 <= k < agent_profiles(ps).len() ==> (#[trigger] agent_profiles(ps)[k]).fields is Some
                && agent_profiles(ps)[k].fields->0.agent == Some(true) && ps.contains(
                agent_profiles(ps)[k],
            ),
        forall|j: int|
            0 <= j < ps.len() && (#[trigger] ps[j]).fields is Some && ps[j].fields->0.agent == Some(true)
                ==> agent_profiles(ps).contains(ps[j]),
    decreases ps.len(),
{
    if ps.len() > 0 {
        let init = ps.drop_last();
        lemma_agent_profiles(init);
        let r = agent_profiles(init);
        assert forall|k: int|
            0 <= k < agent_profiles(ps).len() implies (#[trigger] agent_profiles(ps)[k]).fields is Some
                && agent_profiles(ps)[k].fields->0.agent == Some(true) && ps.contains(
                agent_profiles(ps)[k],
            ) by {
            if k < r.len() {
                assert(agent_profiles(ps)[k] == r[k]);
                let j = choose|j: int| 0 <= j < init.len() && init[j] == r[k];
                assert(ps[j] == init[j]);
            } else {
                assert(ps[ps.len() - 1] == ps.last());
            }
        }
        assert forall|j: int|
            0 <= j < ps.len() && (#[trigger] ps[j]).fields is Some && ps[j].fields->0.agent == Some(true)
                implies agent_profiles(ps).contains(ps[j]) by {
            if j < init.len() {
                assert(init[j] == ps[j]);
                let k = choose|k: int| 0 <= k < r.len() && r[k] == ps[j];
                assert(agent_profiles(ps)[k] == r[k]);
            } else {
                assert(agent_profiles(ps)[agent_profiles(ps).len() - 1] == ps.last());
            }
        }
    }
}

/// Where every item is a string, the text items are all the items, in order.
proof fn lemma_text_items_all(items: Seq<Option<String>>)
    requires
        forall|k: int| 0 <= k < items.len() ==> (#[trigger] items[k]) is Some,
    ensures
        text_items(items).len() == items.len(),
        forall|k: int| 0 <= k < items.len() ==> #[trigger] text_items(items)[k] == items[k]->0@,
    decreases items.len(),
{
    if items.len() > 0 {
        let init = items.drop_last();
        assert forall|k: int| 0 <= k < init.len() implies (#[trigger] init[k]) is Some by {
            assert(init[k] == items[k]);
        }
        lemma_text_items_all(init);
        assert(items[items.len() - 1] is Some);
        assert forall|k: int| 0 <= k < items.len() implies #[trigger] text_items(items)[k]
            == items[k]->0@ by {
            if k < init.len() {
                assert(init[k] == items[k]);
            }
        }
    }
}

/// What discovery gives: at most `limit` agents, the i-th read from the i-th
/// profile that says `"agent": true`, with the profile's npub, about,
/// picture; and its name is the profile's `name` whenever `name` is a
/// string, whatever `display_name` holds; `display_name` only when `name` is
/// absent; and `Unknown Agent` when neither gives a string.
pub proof fn lemma_discovered_agents(
    ps: Seq<FoundProfile>,
    limit: usize,
    agents: Seq<DiscoveredAgent>,
)
    requires
        discovered_from(ps, limit, agents),
    ensures
        agents.len() <= limit,
        agents.len() <= agent_profiles(ps).len(),
        agents.len() == limit || agents.len() == agent_profiles(ps).len(),
        forall|i: int|
            0 <= i < agents.len() ==> {
                let p = agent_profiles(ps)[i];
                let f = p.fields->0;
                let a = #[trigger] agents[i];
                &&& ps.contains(p)
                &&& p.fields is Some
                &&& f.agent == Some(true)
                &&& a.npub@ == p.npub@
                &&& a.about == f.about
                &&& a.picture == f.picture
                &&& (f.name is Text ==> a.name@ == f.name->0@)
                &&& (f.name is Missing && f.display_name is Text ==> a.name@ == f.display_name->0@)
                &&& (f.name is NotText || (f.name is Missing && !(f.display_name is Text)) ==> a.name@
                    == "Unknown Agent"@)
                &&& (f.skills is None ==> a.capabilities@.len() == 0)
                &&& (f.skills is Some && (forall|k: int|
                    0 <= k < f.skills->0@.len() ==> (#[trigger] f.skills->0@[k]) is Some)
                    ==> a.capabilities@.len() == f.skills->0@.len() && forall|k: int|
                    0 <= k < f.skills->0@.len() ==> (#[trigger] a.capabilities@[k])@
                    == f.skills->0@[k]->0@)
            },
{
    lemma_agent_profiles(ps);
    assert forall|i: int| 0 <= i < agents.len() implies {
        let p = agent_profiles(ps)[i];
        let f = p.fields->0;
        let a = #[trigger] agents[i];
        &&& ps.contains(p)
        &&& p.fields is Some
        &&& f.agent == Some(true)
        &&& a.npub@ == p.npub@
        &&& a.about == f.about
        &&& a.picture == f.picture
        &&& (f.name is Text ==> a.name@ == f.name->0@)
        &&& (f.name is Missing && f.display_name is Text ==> a.name@ == f.display_name->0@)
        &&& (f.name is NotText || (f.name is Missing && !(f.display_name is Text)) ==> a.name@
            == "Unknown Agent"@)
        &&& (f.skills is None ==> a.capabilities@.len() == 0)
        &&& (f.skills is Some && (forall|k: int|
            0 <= k < f.skills->0@.len() ==> (#[trigger] f.skills->0@[k]) is Some) ==> a.capabilities@.len()
            == f.skills->0@.len() && forall|k: int|
            0 <= k < f.skills->0@.len() ==> (#[trigger] a.capabilities@[k])@ == f.skills->0@[k]->0@)
    } by {
        assert(agent_from(agent_profiles(ps)[i], agents[i]));
        let f = agent_profiles(ps)[i].fields->0;
        let a = agents[i];
        assert(a.capabilities@.map_values(|s: String| s@).len() == a.capabilities@.len());
        if f.skills is Some && (forall|k: int|
            0 <= k < f.skills->0@.len() ==> (#[trigger] f.skills->0@[k]) is Some) {
            lemma_text_items_all(f.skills->0@);
            assert forall|k: int| 0 <= k < f.skills->0@.len() implies (#[trigger] a.capabilities@[k])@
                == f.skills->0@[k]->0@ by {
                assert(a.capabilities@.map_values(|s: String| s@)[k] == a.capabilities@[k]@);
            }
        }
        assert(agent_profiles(ps)[i] == agent_profiles(ps)[i]);
    }
}

/// What the `serde_json` crate reads from a profile's content: the fields
/// that discovery uses, or `None` where the content is not JSON.
pub uninterp spec fn profile_json(content: Seq<char>) -> Option<ProfileFields>;

/// The profiles read from `(npub, content)` pairs.
pub open spec fn found_of(events: Seq<(String, String)>) -> Seq<FoundProfile> {
    Seq::new(
        events.len(),
        |i: int| FoundProfile { npub: events[i].0, fields: profile_json(events[i].1@) },
    )
}

// ---------------------------------------------------------------------------
// Lemmas
// ---------------------------------------------------------------------------

/// The agent profiles of a prefix are a prefix of the agent profiles.
proof fn lemma_agents_prefix(ps: Seq<FoundProfile>, i: int)
    requires
        0 <= i <= ps.len(),
    ensures
        agent_profiles(ps.take(i)).len() <= agent_profiles(ps).len(),
        agent_profiles(ps.take(i)) == agent_profiles(ps).take(agent_profiles(ps.take(i)).len() as int),
    decreases ps.len(),
{
    if i < ps.len() {
        lemma_agents_prefix(ps.drop_last(), i);
        assert(ps.drop_last().take(i) =~= ps.take(i));
        let a = agent_profiles(ps.drop_last());
        let b = agent_profiles(ps.take(i));
        assert(a.take(b.len() as int) =~= agent_profiles(ps).take(b.len() as int));
    } else {
        assert(ps.take(i) =~= ps);
        assert(agent_profiles(ps).take(agent_profiles(ps).len() as int) =~= agent_profiles(ps));
    }
}

// ---------------------------------------------------------------------------
// Executable functions
// ---------------------------------------------------------------------------

/// The string items of a list, in order.
fn collect_text(items: &Vec<Option<String>>) -> (out: Vec<String>)
    ensures
        out@.map_values(|s: String| s@) == text_items(items@),
{
    let mut out: Vec<String> = Vec::new();
    let mut i: usize = 0;
    while i < items.len()
        invariant
            i <= items.len(),
            out@.map_values(|s: String| s@) == text_items(items@.take(i as int)),
        decreases items.len() - i,
    {
        assert(items@.take(i + 1).drop_last() =~= items@.take(i as int));
        match &items[i] {
            Some(s) => {
                out.push(s.clone());
            },
            None => {},
        }
        assert(out@.map_values(|s: String| s@) =~= text_items(items@.take(i + 1)));
        i += 1;
    }
    assert(items@.take(items.len() as int) =~= items@);
    out
}

/// The agent of a profile whose `agent` is `true`; `None` for any other.
pub fn discovered_agent(p: &FoundProfile) -> (res: Option<DiscoveredAgent>)
    ensures
        match res {
            Some(a) => is_agent_profile(*p) && agent_from(*p, a),
            None => !is_agent_profile(*p),
        },
{
    let f = match &p.fields {
        Some(f) => f,
        None => {
            return None;
        },
    };
    match f.agent {
        Some(true) => {},
        _ => {
            return None;
        },
    }
    let name = match &f.name {
        JsonText::Text(s) => s.clone(),
        JsonText::Missing => match &f.display_name {
            JsonText::Text(s) => s.clone(),
            _ => "Unknown Agent".to_owned(),
        },
        JsonText::NotText => "Unknown Agent".to_owned(),
    };
    let capabilities = match &f.skills {
        Some(v) => collect_text(v),
        None => {
            let empty: Vec<String> = Vec::new();
            assert(empty@.map_values(|s: String| s@) =~= Seq::<Seq<char>>::empty());
            empty
        },
    };
    Some(
        DiscoveredAgent {
            npub: p.npub.clone(),
            name,
            about: f.about.clone(),
            capabilities,
            picture: f.picture.clone(),
        },
    )
}

/// Reads a profile's content with `serde_json`, telling the JSON values
/// apart for the fields that discovery uses. The contract claims only that
/// the result is the one named `profile_json` for the content.
#[verifier::external_body]
fn profile_fields(content: &str) -> (r: Option<ProfileFields>)
    ensures
        r == profile_json(content@),
{
    let m: Value = serde_json::from_str(content).ok()?;
    let text = |k| match m.get(k) {
        None => Missing,
        Some(Value::String(s)) => Text(s.clone()),
        Some(_) => NotText,
    };
    let string = |k| Some(m.get(k)?.as_str()?.to_owned());
    Some(ProfileFields {
        agent: m.get("agent").and_then(Value::as_bool),
        name: text("name"), display_name: text("display_name"),
        about: string("about"), picture: string("picture"),
        skills: m.get("capabilities").and_then(|v| v.get("skills")?.as_array())
            .map(|a| a.iter().map(|v| v.as_str().map(String::from)).collect()),
    })
}

/// The agents among the profiles found, in order, up to `limit` of them.
pub fn discover_agents(profiles: &Vec<FoundProfile>, limit: usize) -> (agents: Vec<
    DiscoveredAgent,
>)
    ensures
        discovered_from(profiles@, limit, agents@),
{
    let ghost ps = profiles@;
    let mut agents: Vec<DiscoveredAgent> = Vec::new();
    let mut i: usize = 0;
    assert(ps.take(0) =~= Seq::<FoundProfile>::empty());
    while i < profiles.len() && agents.len() < limit
        invariant
            i <= profiles.len(),
            ps == profiles@,
            agents@.len() <= limit,
            agents@.len() == agent_profiles(ps.take(i as int)).len(),
            forall|k: int|
                0 <= k < agents@.len() ==> agent_from(
                    agent_profiles(ps.take(i as int))[k],
                    #[trigger] agents@[k],
                ),
        decreases profiles.len() - i,
    {
        assert(ps.take(i + 1).drop_last() =~= ps.take(i as int));
        assert(ps.take(i + 1).last() == ps[i as int]);
        let ghost before = agents@;
        let found = discovered_agent(&profiles[i]);
        match found {
            Some(a) => {
                agents.push(a);
                assert forall|k: int| 0 <= k < agents@.len() implies agent_from(
                    agent_profiles(ps.take(i + 1))[k],
                    #[trigger] agents@[k],
                ) by {
                    if k < before.len() {
                        assert(agents@[k] == before[k]);
                    }
                }
            },
            None => {},
        }
        i += 1;
    }
    proof {
        lemma_agents_prefix(ps, i as int);
        if i == profiles.len() {
            assert(ps.take(i as int) =~= ps);
        }
        assert forall|k: int| 0 <= k < agents@.len() implies agent_from(
            agent_profiles(ps)[k],
            #[trigger] agents@[k],
        ) by {
            assert(agent_profiles(ps.take(i as int))[k] == agent_profiles(ps)[k]);
        }
    }
    agents
}

/// The agents among profiles given as `(npub, content)` pairs, in order, up
/// to `limit` of them: each content is read as JSON, and the profiles that
/// say `"agent": true` give the agents.
pub fn discover_agents_from(events: &Vec<(String, String)>, limit: usize) -> (agents: Vec<
    DiscoveredAgent,
>)
    ensures
        discovered_from(found_of(events@), limit, agents@),
{
    let mut profiles: Vec<FoundProfile> = Vec::new();
    let mut i: usize = 0;
    while i < events.len()
        invariant
            i <= events.len(),
            profiles@ == found_of(events@).take(i as int),
        decreases events.len() - i,
    {
        let p = FoundProfile {
            npub: events[i].0.clone(),
            fields: profile_fields(events[i].1.as_str()),
        };
        profiles.push(p);
        i += 1;
        assert(profiles@ =~= found_of(events@).take(i as int));
    }
    assert(found_of(events@).take(events.len() as int) =~= found_of(events@));
    discover_agents(&profiles, limit)
}

} // verus!

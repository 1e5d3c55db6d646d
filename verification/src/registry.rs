//! Agent registry: NIP-AE agent definition events (kind 4199).
//!
//! An agent publishes its profile as tags, for relay-level filtering:
//! `["d", slug]`, `["title", name]`, `["t", "agent"]`, `["description", ..]`,
//! `["framework", ..]`, `["ver", ..]`, `["tool", "tui"]` and one `["t", skill]`
//! per skill. A tag is modelled as its list of strings; the first string is
//! the tag's kind and the second its content.
use crate::table::str_views;
use crate::text::{chars_of, replace, replace_chars, str_eq, string_from_chars};
use vstd::prelude::*;

verus! {

broadcast use vstd::string::group_string_axioms;

/// NIP-AE Agent Definition kind.
pub const AGENT_DEFINITION_KIND: u16 = 4199;

/// Legacy kind (read-only backwards compat).
pub const LEGACY_REGISTRY_KIND: u16 = 31990;

/// Structured agent profile for the registry.
#[derive(Debug, Clone)]
pub struct AgentRegistryEntry {
    pub name: String,
    pub about: Option<String>,
    pub picture: Option<String>,
    /// Framework used (e.g. "sigil", "langchain", "crewai")
    pub framework: Option<String>,
    /// Skills/capabilities
    pub skills: Vec<String>,
    /// Whether the agent supports TUI messages
    pub tui: bool,
    /// Preferred relay for contacting this agent
    pub relay: Option<String>,
    /// Version string
    pub version: Option<String>,
}

/// The lower-case form of a text, as `str::to_lowercase` computes it
/// (the Unicode lower-case mapping).
pub uninterp spec fn lowercase(s: Seq<char>) -> Seq<char>;

/// `str::to_lowercase`: the contract claims only that the result is the
/// lower-case form named `lowercase` of the input.
#[verifier::external_body]
fn to_lowercase(s: &str) -> (out: String)
    ensures
        out@ == lowercase(s@),
{
    s.to_lowercase()
}

// ---------------------------------------------------------------------------
// Specifications
// ---------------------------------------------------------------------------

/// The views of a list of tags.
pub open spec fn tag_views(tags: Seq<Vec<String>>) -> Seq<Seq<Seq<char>>> {
    tags.map_values(|t: Vec<String>| str_views(t@))
}

/// The replaceable identifier of an agent: its lower-cased name with spaces
/// turned into `-`.
pub open spec fn slug(name: Seq<char>) -> Seq<char> {
    replace(lowercase(name), " "@, "-"@)
}

/// A tag of two strings.
pub open spec fn tag2(k: Seq<char>, v: Seq<char>) -> Seq<Seq<char>> {
    seq![k, v]
}

/// One tag for an optional value.
pub open spec fn opt_tag(k: Seq<char>, v: Option<String>) -> Seq<Seq<Seq<char>>> {
    match v {
        Some(v) => seq![tag2(k, v@)],
        None => Seq::empty(),
    }
}

/// The hashtags of the skills (`Tag::hashtag` lower-cases them).
pub open spec fn skill_tags(skills: Seq<String>) -> Seq<Seq<Seq<char>>> {
    Seq::new(skills.len(), |i: int| tag2("t"@, lowercase(skills[i]@)))
}

/// The tags of an agent definition, in order.
pub open spec fn definition_tags(e: AgentRegistryEntry) -> Seq<Seq<Seq<char>>> {
    seq![tag2("d"@, slug(e.name@)), tag2("title"@, e.name@), tag2("t"@, "agent"@)]
        + opt_tag("description"@, e.about) + opt_tag("framework"@, e.framework) + opt_tag(
        "ver"@,
        e.version,
    ) + tui_tag(e.tui) + skill_tags(e.skills@)
}

/// The kind of a tag (its first string).
pub open spec fn tag_kind(t: Seq<Seq<char>>) -> Option<Seq<char>> {
    if t.len() > 0 {
        Some(t[0])
    } else {
        None
    }
}

/// The content of a tag (its second string).
pub open spec fn tag_content(t: Seq<Seq<char>>) -> Option<Seq<char>> {
    if t.len() > 1 {
        Some(t[1])
    } else {
        None
    }
}

/// The content of the first tag of kind `k` (`None` when there is no such
/// tag, or when it has no content).
pub open spec fn first_content(tags: Seq<Seq<Seq<char>>>, k: Seq<char>) -> Option<Seq<char>>
    decreases tags.len(),
{
    if tags.len() == 0 {
        None
    } else if tag_kind(tags[0]) == Some(k) {
        tag_content(tags[0])
    } else {
        first_content(tags.drop_first(), k)
    }
}

/// The contents of the `t` tags other than `agent`, in order.
pub open spec fn skills_of(tags: Seq<Seq<Seq<char>>>) -> Seq<Seq<char>>
    decreases tags.len(),
{
    if tags.len() == 0 {
        Seq::empty()
    } else {
        let rest = skills_of(tags.drop_first());
        match tag_content(tags[0]) {
            Some(c) => if tag_kind(tags[0]) == Some("t"@) && c != "agent"@ {
                seq![c] + rest
            } else {
                rest
            },
            None => rest,
        }
    }
}

/// Some tag is `["tool", "tui", ...]`.
pub open spec fn has_tui_tool(tags: Seq<Seq<Seq<char>>>) -> bool {
    exists|i: int|
        0 <= i < tags.len() && tag_kind(tags[i]) == Some("tool"@) && tag_content(tags[i]) == Some(
            "tui"@,
        )
}

/// An optional string holds the given optional text.
pub open spec fn opt_is(o: Option<String>, v: Option<Seq<char>>) -> bool {
    match (o, v) {
        (Some(s), Some(t)) => s@ == t,
        (None, None) => true,
        _ => false,
    }
}

/// The entry read from an agent definition event with the given content and
/// tags: the name from `title` (default `Unknown Agent`), the description
/// from the content or else from `description`, framework, version, skills
/// and the `tui` tool; no picture and no relay.
pub open spec fn parsed_entry_is(
    e: AgentRegistryEntry,
    content: Seq<char>,
    tags: Seq<Seq<Seq<char>>>,
) -> bool {
    &&& e.name@ == match first_content(tags, "title"@) {
        Some(n) => n,
        None => "Unknown Agent"@,
    }
    &&& opt_is(
        e.about,
        if content.len() == 0 {
            first_content(tags, "description"@)
        } else {
            Some(content)
        },
    )
    &&& e.picture is None
    &&& opt_is(e.framework, first_content(tags, "framework"@))
    &&& str_views(e.skills@) == skills_of(tags)
    &&& e.tui == has_tui_tool(tags)
    &&& e.relay is None
    &&& opt_is(e.version, first_content(tags, "ver"@))
}

/// The lower-cased skills other than `agent`, in order: the skills that a
/// search reads back from an agent definition.
pub open spec fn published_skills(skills: Seq<String>) -> Seq<Seq<char>>
    decreases skills.len(),
{
    if skills.len() == 0 {
        Seq::empty()
    } else {
        let rest = published_skills(skills.drop_first());
        let l = lowercase(skills[0]@);
        if l != "agent"@ {
            seq![l] + rest
        } else {
            rest
        }
    }
}

/// The content of an agent definition: the description, or nothing.
pub open spec fn definition_content_spec(e: AgentRegistryEntry) -> Seq<char> {
    match e.about {
        Some(a) => a@,
        None => Seq::empty(),
    }
}

/// The texts of an optional string.
pub open spec fn opt_view(o: Option<String>) -> Option<Seq<char>> {
    match o {
        Some(s) => Some(s@),
        None => None,
    }
}

/// No tag of `tags` has kind `k`.
pub open spec fn no_kind(tags: Seq<Seq<Seq<char>>>, k: Seq<char>) -> bool {
    forall|i: int| 0 <= i < tags.len() ==> tag_kind(#[trigger] tags[i]) != Some(k)
}

// ---------------------------------------------------------------------------
// Lemmas
// ---------------------------------------------------------------------------

/// Tags of other kinds are passed over when looking for kind `k`.
proof fn lemma_first_content_skip(a: Seq<Seq<Seq<char>>>, b: Seq<Seq<Seq<char>>>, k: Seq<char>)
    requires
        no_kind(a, k),
    ensures
        first_content(a + b, k) == first_content(b, k),
    decreases a.len(),
{
    if a.len() > 0 {
        assert((a + b)[0] == a[0]);
        assert((a + b).drop_first() =~= a.drop_first() + b);
        lemma_first_content_skip(a.drop_first(), b, k);
    } else {
        assert(a + b =~= b);
    }
}

/// The skills read from two runs of tags are those of each, in order.
proof fn lemma_skills_concat(a: Seq<Seq<Seq<char>>>, b: Seq<Seq<Seq<char>>>)
    ensures
        skills_of(a + b) == skills_of(a) + skills_of(b),
    decreases a.len(),
{
    if a.len() > 0 {
        assert((a + b)[0] == a[0]);
        assert((a + b).drop_first() =~= a.drop_first() + b);
        lemma_skills_concat(a.drop_first(), b);
        let r = skills_of(a.drop_first());
        match tag_content(a[0]) {
            Some(c) => {
                if tag_kind(a[0]) == Some("t"@) && c != "agent"@ {
                    assert(seq![c] + r + skills_of(b) =~= seq![c] + (r + skills_of(b)));
                }
            },
            None => {},
        }
    } else {
        assert(a + b =~= b);
        assert(Seq::<Seq<char>>::empty() + skills_of(b) =~= skills_of(b));
    }
}

/// Tags of other kinds than `t` give no skills.
proof fn lemma_skills_none(a: Seq<Seq<Seq<char>>>)
    requires
        no_kind(a, "t"@),
    ensures
        skills_of(a) == Seq::<Seq<char>>::empty(),
    decreases a.len(),
{
    if a.len() > 0 {
        assert(a[0] == a[0]);
        assert(no_kind(a.drop_first(), "t"@)) by {
            assert forall|i: int| 0 <= i < a.drop_first().len() implies tag_kind(
                #[trigger] a.drop_first()[i],
            ) != Some("t"@) by {
                assert(a.drop_first()[i] == a[i + 1]);
            }
        }
        lemma_skills_none(a.drop_first());
    }
}

/// The skill tags read back as the published skills.
proof fn lemma_skill_tags(skills: Seq<String>)
    ensures
        skills_of(skill_tags(skills)) == published_skills(skills),
    decreases skills.len(),
{
    reveal_strlit("t");
    if skills.len() > 0 {
        let st = skill_tags(skills);
        assert(st.drop_first() =~= skill_tags(skills.drop_first()));
        lemma_skill_tags(skills.drop_first());
        assert(st[0] == tag2("t"@, lowercase(skills[0]@)));
    } else {
        assert(skill_tags(skills) =~= Seq::<Seq<Seq<char>>>::empty());
    }
}

/// The tag kinds of an agent definition differ from one another.
proof fn lemma_kind_names()
    ensures
        "d"@ != "title"@,
        "d"@ != "t"@,
        "d"@ != "description"@,
        "d"@ != "framework"@,
        "d"@ != "ver"@,
        "d"@ != "tool"@,
        "title"@ != "t"@,
        "title"@ != "description"@,
        "title"@ != "framework"@,
        "title"@ != "ver"@,
        "title"@ != "tool"@,
        "t"@ != "description"@,
        "t"@ != "framework"@,
        "t"@ != "ver"@,
        "t"@ != "tool"@,
        "description"@ != "framework"@,
        "description"@ != "ver"@,
        "description"@ != "tool"@,
        "framework"@ != "ver"@,
        "framework"@ != "tool"@,
        "ver"@ != "tool"@,
        "agent"@.len() == 5,
{
    reveal_strlit("d");
    reveal_strlit("t");
    reveal_strlit("title");
    reveal_strlit("description");
    reveal_strlit("framework");
    reveal_strlit("ver");
    reveal_strlit("tool");
    reveal_strlit("agent");
    assert("d"@.len() == 1);
    assert("t"@.len() == 1);
    assert("title"@.len() == 5);
    assert("description"@.len() == 11);
    assert("framework"@.len() == 9);
    assert("ver"@.len() == 3);
    assert("tool"@.len() == 4);
    assert("d"@[0] != "t"@[0]);
}

/// A tag of kind `k1` is not of another kind.
proof fn lemma_one_kind(k1: Seq<char>, v: Seq<char>, k: Seq<char>)
    requires
        k1 != k,
    ensures
        no_kind(seq![tag2(k1, v)], k),
{
    assert forall|i: int| 0 <= i < 1 implies tag_kind(#[trigger] seq![tag2(k1, v)][i]) != Some(
        k,
    ) by {
        assert(seq![tag2(k1, v)][i] == tag2(k1, v));
    }
}

/// An optional tag of kind `k1` is not of another kind.
proof fn lemma_opt_kind(k1: Seq<char>, v: Option<String>, k: Seq<char>)
    requires
        k1 != k,
    ensures
        no_kind(opt_tag(k1, v), k),
{
    match v {
        Some(s) => lemma_one_kind(k1, s@, k),
        None => {},
    }
}

/// Two runs of tags without kind `k` make one.
proof fn lemma_no_kind_concat(a: Seq<Seq<Seq<char>>>, b: Seq<Seq<Seq<char>>>, k: Seq<char>)
    requires
        no_kind(a, k),
        no_kind(b, k),
    ensures
        no_kind(a + b, k),
{
    assert forall|i: int| 0 <= i < (a + b).len() implies tag_kind(#[trigger] (a + b)[i]) != Some(
        k,
    ) by {
        if i < a.len() {
            assert((a + b)[i] == a[i]);
        } else {
            assert((a + b)[i] == b[i - a.len()]);
        }
    }
}

/// Skill tags are all of kind `t`.
proof fn lemma_skill_kinds(skills: Seq<String>, k: Seq<char>)
    requires
        k != "t"@,
    ensures
        no_kind(skill_tags(skills), k),
{
    assert forall|i: int| 0 <= i < skill_tags(skills).len() implies tag_kind(
        #[trigger] skill_tags(skills)[i],
    ) != Some(k) by {
        assert(skill_tags(skills)[i] == tag2("t"@, lowercase(skills[i]@)));
    }
}

/// An optional tag of kind `k` is found after tags of other kinds, and
/// nothing is found when it is absent.
proof fn lemma_first_of_opt(
    pre: Seq<Seq<Seq<char>>>,
    v: Option<String>,
    post: Seq<Seq<Seq<char>>>,
    k: Seq<char>,
)
    requires
        no_kind(pre, k),
        no_kind(post, k),
    ensures
        first_content(pre + (opt_tag(k, v) + post), k) == opt_view(v),
{
    lemma_first_content_skip(pre, opt_tag(k, v) + post, k);
    match v {
        Some(s) => {
            assert((opt_tag(k, v) + post)[0] == tag2(k, s@));
        },
        None => {
            assert(opt_tag(k, v) + post =~= post);
            lemma_first_content_skip(post, Seq::empty(), k);
            assert(post + Seq::<Seq<Seq<char>>>::empty() =~= post);
        },
    }
}

/// The TUI tool tag of an agent definition.
pub open spec fn tui_tag(tui: bool) -> Seq<Seq<Seq<char>>> {
    if tui {
        seq![tag2("tool"@, "tui"@)]
    } else {
        Seq::empty()
    }
}

/// The parts of an agent definition's tags.
proof fn lemma_definition_parts(e: AgentRegistryEntry)
    ensures
        definition_tags(e) == seq![tag2("d"@, slug(e.name@))] + (seq![tag2("title"@, e.name@)] + (
        seq![tag2("t"@, "agent"@)] + (opt_tag("description"@, e.about) + (opt_tag(
            "framework"@,
            e.framework,
        ) + (opt_tag("ver"@, e.version) + (tui_tag(e.tui) + skill_tags(e.skills@))))))),
{
    assert(definition_tags(e) =~= seq![tag2("d"@, slug(e.name@))] + (seq![tag2("title"@, e.name@)]
        + (seq![tag2("t"@, "agent"@)] + (opt_tag("description"@, e.about) + (opt_tag(
        "framework"@,
        e.framework,
    ) + (opt_tag("ver"@, e.version) + (tui_tag(e.tui) + skill_tags(e.skills@))))))));
}

/// The name, description, framework and version read back.
proof fn lemma_definition_fields(e: AgentRegistryEntry)
    ensures
        first_content(definition_tags(e), "title"@) == Some(e.name@),
        first_content(definition_tags(e), "description"@) == opt_view(e.about),
        first_content(definition_tags(e), "framework"@) == opt_view(e.framework),
        first_content(definition_tags(e), "ver"@) == opt_view(e.version),
{
    lemma_kind_names();
    lemma_definition_parts(e);
    let p0 = seq![tag2("d"@, slug(e.name@))];
    let p1 = seq![tag2("title"@, e.name@)];
    let p2 = seq![tag2("t"@, "agent"@)];
    let dd = opt_tag("description"@, e.about);
    let ff = opt_tag("framework"@, e.framework);
    let vv = opt_tag("ver"@, e.version);
    let uu = tui_tag(e.tui);
    let ss = skill_tags(e.skills@);
    let tags = definition_tags(e);
    // title
    lemma_one_kind("d"@, slug(e.name@), "title"@);
    lemma_first_content_skip(p0, p1 + (p2 + (dd + (ff + (vv + (uu + ss))))), "title"@);
    assert((p1 + (p2 + (dd + (ff + (vv + (uu + ss))))))[0] == tag2("title"@, e.name@));
    // description
    lemma_one_kind("d"@, slug(e.name@), "description"@);
    lemma_one_kind("title"@, e.name@, "description"@);
    lemma_one_kind("t"@, "agent"@, "description"@);
    lemma_no_kind_concat(p1, p2, "description"@);
    lemma_no_kind_concat(p0, p1 + p2, "description"@);
    lemma_opt_kind("framework"@, e.framework, "description"@);
    lemma_opt_kind("ver"@, e.version, "description"@);
    lemma_one_kind("tool"@, "tui"@, "description"@);
    lemma_skill_kinds(e.skills@, "description"@);
    lemma_no_kind_concat(uu, ss, "description"@);
    lemma_no_kind_concat(vv, uu + ss, "description"@);
    lemma_no_kind_concat(ff, vv + (uu + ss), "description"@);
    assert(tags =~= (p0 + (p1 + p2)) + (dd + (ff + (vv + (uu + ss)))));
    lemma_first_of_opt(p0 + (p1 + p2), e.about, ff + (vv + (uu + ss)), "description"@);
    // framework
    lemma_one_kind("d"@, slug(e.name@), "framework"@);
    lemma_one_kind("title"@, e.name@, "framework"@);
    lemma_one_kind("t"@, "agent"@, "framework"@);
    lemma_opt_kind("description"@, e.about, "framework"@);
    lemma_no_kind_concat(p2, dd, "framework"@);
    lemma_no_kind_concat(p1, p2 + dd, "framework"@);
    lemma_no_kind_concat(p0, p1 + (p2 + dd), "framework"@);
    lemma_opt_kind("ver"@, e.version, "framework"@);
    lemma_one_kind("tool"@, "tui"@, "framework"@);
    lemma_skill_kinds(e.skills@, "framework"@);
    lemma_no_kind_concat(uu, ss, "framework"@);
    lemma_no_kind_concat(vv, uu + ss, "framework"@);
    assert(tags =~= (p0 + (p1 + (p2 + dd))) + (ff + (vv + (uu + ss))));
    lemma_first_of_opt(p0 + (p1 + (p2 + dd)), e.framework, vv + (uu + ss), "framework"@);
    // version
    lemma_one_kind("d"@, slug(e.name@), "ver"@);
    lemma_one_kind("title"@, e.name@, "ver"@);
    lemma_one_kind("t"@, "agent"@, "ver"@);
    lemma_opt_kind("description"@, e.about, "ver"@);
    lemma_opt_kind("framework"@, e.framework, "ver"@);
    lemma_no_kind_concat(dd, ff, "ver"@);
    lemma_no_kind_concat(p2, dd + ff, "ver"@);
    lemma_no_kind_concat(p1, p2 + (dd + ff), "ver"@);
    lemma_no_kind_concat(p0, p1 + (p2 + (dd + ff)), "ver"@);
    lemma_one_kind("tool"@, "tui"@, "ver"@);
    lemma_skill_kinds(e.skills@, "ver"@);
    lemma_no_kind_concat(uu, ss, "ver"@);
    assert(tags =~= (p0 + (p1 + (p2 + (dd + ff)))) + (vv + (uu + ss)));
    lemma_first_of_opt(p0 + (p1 + (p2 + (dd + ff))), e.version, uu + ss, "ver"@);
}

/// The skills read back.
proof fn lemma_definition_skills(e: AgentRegistryEntry)
    ensures
        skills_of(definition_tags(e)) == published_skills(e.skills@),
{
    lemma_kind_names();
    lemma_definition_parts(e);
    let p0 = seq![tag2("d"@, slug(e.name@))];
    let p1 = seq![tag2("title"@, e.name@)];
    let p2 = seq![tag2("t"@, "agent"@)];
    let dd = opt_tag("description"@, e.about);
    let ff = opt_tag("framework"@, e.framework);
    let vv = opt_tag("ver"@, e.version);
    let uu = tui_tag(e.tui);
    let ss = skill_tags(e.skills@);
    let mid = dd + (ff + (vv + uu));
    assert(definition_tags(e) =~= (p0 + p1) + (p2 + (mid + ss)));
    lemma_one_kind("d"@, slug(e.name@), "t"@);
    lemma_one_kind("title"@, e.name@, "t"@);
    lemma_no_kind_concat(p0, p1, "t"@);
    lemma_opt_kind("description"@, e.about, "t"@);
    lemma_opt_kind("framework"@, e.framework, "t"@);
    lemma_opt_kind("ver"@, e.version, "t"@);
    lemma_one_kind("tool"@, "tui"@, "t"@);
    lemma_no_kind_concat(vv, uu, "t"@);
    lemma_no_kind_concat(ff, vv + uu, "t"@);
    lemma_no_kind_concat(dd, ff + (vv + uu), "t"@);
    lemma_skills_none(p0 + p1);
    lemma_skills_none(mid);
    lemma_skills_concat(p0 + p1, p2 + (mid + ss));
    lemma_skills_concat(p2, mid + ss);
    lemma_skills_concat(mid, ss);
    lemma_skill_tags(e.skills@);
    assert(p2.drop_first() =~= Seq::<Seq<Seq<char>>>::empty());
    assert(skills_of(Seq::<Seq<Seq<char>>>::empty()) =~= Seq::<Seq<char>>::empty());
    assert(p2[0] == tag2("t"@, "agent"@));
    assert(tag_content(p2[0]) == Some("agent"@));
    assert(skills_of(p2) == Seq::<Seq<char>>::empty());
    assert(Seq::<Seq<char>>::empty() + (Seq::<Seq<char>>::empty() + (Seq::<Seq<char>>::empty()
        + published_skills(e.skills@))) =~= published_skills(e.skills@));
}

/// TUI support read back.
proof fn lemma_definition_tui(e: AgentRegistryEntry)
    ensures
        has_tui_tool(definition_tags(e)) == e.tui,
{
    lemma_kind_names();
    lemma_definition_parts(e);
    let head = seq![tag2("d"@, slug(e.name@))] + (seq![tag2("title"@, e.name@)] + (seq![
        tag2("t"@, "agent"@),
    ] + (opt_tag("description"@, e.about) + (opt_tag("framework"@, e.framework) + opt_tag(
        "ver"@,
        e.version,
    )))));
    let uu = tui_tag(e.tui);
    let ss = skill_tags(e.skills@);
    let tags = definition_tags(e);
    assert(tags =~= head + (uu + ss));
    lemma_one_kind("d"@, slug(e.name@), "tool"@);
    lemma_one_kind("title"@, e.name@, "tool"@);
    lemma_one_kind("t"@, "agent"@, "tool"@);
    lemma_opt_kind("description"@, e.about, "tool"@);
    lemma_opt_kind("framework"@, e.framework, "tool"@);
    lemma_opt_kind("ver"@, e.version, "tool"@);
    lemma_no_kind_concat(opt_tag("framework"@, e.framework), opt_tag("ver"@, e.version), "tool"@);
    lemma_no_kind_concat(
        opt_tag("description"@, e.about),
        opt_tag("framework"@, e.framework) + opt_tag("ver"@, e.version),
        "tool"@,
    );
    lemma_no_kind_concat(
        seq![tag2("t"@, "agent"@)],
        opt_tag("description"@, e.about) + (opt_tag("framework"@, e.framework) + opt_tag(
            "ver"@,
            e.version,
        )),
        "tool"@,
    );
    lemma_no_kind_concat(
        seq![tag2("title"@, e.name@)],
        seq![tag2("t"@, "agent"@)] + (opt_tag("description"@, e.about) + (opt_tag(
            "framework"@,
            e.framework,
        ) + opt_tag("ver"@, e.version))),
        "tool"@,
    );
    lemma_no_kind_concat(
        seq![tag2("d"@, slug(e.name@))],
        seq![tag2("title"@, e.name@)] + (seq![tag2("t"@, "agent"@)] + (opt_tag(
            "description"@,
            e.about,
        ) + (opt_tag("framework"@, e.framework) + opt_tag("ver"@, e.version)))),
        "tool"@,
    );
    lemma_skill_kinds(e.skills@, "tool"@);
    if e.tui {
        assert(tags[head.len() as int] == tag2("tool"@, "tui"@));
    } else {
        assert(uu + ss =~= ss);
        assert forall|i: int| 0 <= i < tags.len() implies !(tag_kind(tags[i]) == Some("tool"@)
            && tag_content(tags[i]) == Some("tui"@)) by {
            if i < head.len() {
                assert(tags[i] == head[i]);
            } else {
                assert(tags[i] == ss[i - head.len()]);
            }
        }
    }
}

/// Replacing each occurrence of one character by another maps the text
/// character by character.
proof fn lemma_replace_char_map(s: Seq<char>, a: char, b: char)
    ensures
        replace(s, seq![a], seq![b]).len() == s.len(),
        forall|i: int|
            0 <= i < s.len() ==> #[trigger] replace(s, seq![a], seq![b])[i] == if s[i] == a {
                b
            } else {
                s[i]
            },
    decreases s.len(),
{
    if s.len() > 0 {
        let t = s.drop_first();
        lemma_replace_char_map(t, a, b);
        assert(s.skip(1) =~= t);
        let r = replace(s, seq![a], seq![b]);
        if s[0] == a {
            assert(seq![a].is_prefix_of(s)) by {
                assert(s.take(1) =~= seq![a]);
            }
        } else {
            assert(!seq![a].is_prefix_of(s)) by {
                if seq![a].is_prefix_of(s) {
                    assert(s.take(1)[0] == a);
                }
            }
        }
        assert forall|i: int| 0 <= i < s.len() implies #[trigger] r[i] == if s[i] == a {
            b
        } else {
            s[i]
        } by {
            if i > 0 {
                assert(s[i] == t[i - 1]);
            }
        }
    }
}

/// The first three tags of an agent definition: the `d` tag, whose content
/// is the lower-cased name with every space, and only a space, turned into
/// `-` (so it is as long as the lower-cased name, holds no space, and agrees
/// with it everywhere else); then the title, the name itself; then
/// `["t", "agent"]`.
pub proof fn lemma_definition_head(e: AgentRegistryEntry)
    ensures
        definition_tags(e).len() >= 3,
        definition_tags(e)[0].len() == 2,
        definition_tags(e)[0][0] == "d"@,
        definition_tags(e)[0][1].len() == lowercase(e.name@).len(),
        forall|i: int|
            0 <= i < lowercase(e.name@).len() ==> #[trigger] definition_tags(e)[0][1][i] == if lowercase(
                e.name@,
            )[i] == ' ' {
                '-'
            } else {
                lowercase(e.name@)[i]
            },
        !definition_tags(e)[0][1].contains(' '),
        definition_tags(e)[1] == seq!["title"@, e.name@],
        definition_tags(e)[2] == seq!["t"@, "agent"@],
{
    reveal_strlit(" ");
    reveal_strlit("-");
    assert(" "@ =~= seq![' ']);
    assert("-"@ =~= seq!['-']);
    let lc = lowercase(e.name@);
    lemma_replace_char_map(lc, ' ', '-');
    let t = definition_tags(e);
    assert(t[0] == tag2("d"@, slug(e.name@)));
    let d = t[0][1];
    assert(d == replace(lc, seq![' '], seq!['-']));
    assert(!d.contains(' ')) by {
        if d.contains(' ') {
            let i = choose|i: int| 0 <= i < d.len() && d[i] == ' ';
            assert(d[i] == if lc[i] == ' ' { '-' } else { lc[i] });
        }
    }
}

/// The number of optional values present.
pub open spec fn count_some(a: Option<String>) -> nat {
    if a is Some {
        1
    } else {
        0
    }
}

/// The tags of an agent definition hold, beside the first three, exactly one
/// tag per value given: `["description", about]`, `["framework", ..]` and
/// `["ver", ..]` where these are present, `["tool", "tui"]` when it supports
/// TUI messages (and no `tool` tag otherwise), and one `["t", skill]` per
/// skill, lower-cased, in the order of the skills, at the end.
pub proof fn lemma_definition_members(e: AgentRegistryEntry)
    ensures
        definition_tags(e).len() == 3 + count_some(e.about) + count_some(e.framework) + count_some(
            e.version,
        ) + (if e.tui {
            1int
        } else {
            0int
        }) + e.skills@.len(),
        e.about is Some ==> definition_tags(e).contains(seq!["description"@, e.about->0@]),
        e.framework is Some ==> definition_tags(e).contains(seq!["framework"@, e.framework->0@]),
        e.version is Some ==> definition_tags(e).contains(seq!["ver"@, e.version->0@]),
        e.tui ==> definition_tags(e).contains(seq!["tool"@, "tui"@]),
        !e.tui ==> forall|k: int|
            0 <= k < definition_tags(e).len() ==> (#[trigger] definition_tags(e)[k])[0] != "tool"@,
        forall|k: int|
            0 <= k < e.skills@.len() ==> #[trigger] definition_tags(e)[definition_tags(e).len()
                - e.skills@.len() + k] == seq!["t"@, lowercase(e.skills@[k]@)],
{
    lemma_kind_names();
    let p0 = seq![tag2("d"@, slug(e.name@)), tag2("title"@, e.name@), tag2("t"@, "agent"@)];
    let dd = opt_tag("description"@, e.about);
    let ff = opt_tag("framework"@, e.framework);
    let vv = opt_tag("ver"@, e.version);
    let uu = tui_tag(e.tui);
    let ss = skill_tags(e.skills@);
    let t = definition_tags(e);
    assert(t == p0 + dd + ff + vv + uu + ss);
    let n0 = p0.len();
    let n1 = n0 + dd.len();
    let n2 = n1 + ff.len();
    let n3 = n2 + vv.len();
    let n4 = n3 + uu.len();
    if e.about is Some {
        assert(t[n0 as int] == dd[0]);
    }
    if e.framework is Some {
        assert(t[n1 as int] == ff[0]);
    }
    if e.version is Some {
        assert(t[n2 as int] == vv[0]);
    }
    if e.tui {
        assert(t[n3 as int] == uu[0]);
    } else {
        assert forall|k: int| 0 <= k < t.len() implies (#[trigger] t[k])[0] != "tool"@ by {
            if k < n0 {
                assert(t[k] == p0[k]);
            } else if k < n1 {
                assert(t[k] == dd[k - n0]);
            } else if k < n2 {
                assert(t[k] == ff[k - n1]);
            } else if k < n3 {
                assert(t[k] == vv[k - n2]);
            } else {
                assert(t[k] == ss[k - n4]);
            }
        }
    }
    assert forall|k: int| 0 <= k < e.skills@.len() implies #[trigger] t[t.len() - e.skills@.len()
        + k] == seq!["t"@, lowercase(e.skills@[k]@)] by {
        assert(t[t.len() - e.skills@.len() + k] == ss[k]);
    }
}

/// A search reads back what `publish_agent` wrote: the name, description,
/// framework, version and TUI support of the entry, and its skills lower-cased
/// without `agent`; no picture and no relay.
pub proof fn lemma_definition_roundtrip(e: AgentRegistryEntry, parsed: AgentRegistryEntry)
    requires
        parsed_entry_is(parsed, definition_content_spec(e), definition_tags(e)),
    ensures
        parsed.name@ == e.name@,
        opt_is(parsed.about, opt_view(e.about)),
        opt_is(parsed.framework, opt_view(e.framework)),
        opt_is(parsed.version, opt_view(e.version)),
        parsed.tui == e.tui,
        str_views(parsed.skills@) == published_skills(e.skills@),
        parsed.picture is None,
        parsed.relay is None,
{
    lemma_definition_fields(e);
    lemma_definition_skills(e);
    lemma_definition_tui(e);
}

// ---------------------------------------------------------------------------
// Executable functions
// ---------------------------------------------------------------------------

/// A tag of two strings.
fn make_tag(k: &str, v: String) -> (t: Vec<String>)
    ensures
        str_views(t@) == tag2(k@, v@),
{
    let mut t: Vec<String> = Vec::new();
    t.push(k.to_owned());
    t.push(v);
    assert(str_views(t@) =~= tag2(k@, v@));
    t
}

/// The content of an agent definition: the description, or nothing.
pub fn definition_content(entry: &AgentRegistryEntry) -> (c: String)
    ensures
        c@ == match entry.about {
            Some(a) => a@,
            None => Seq::<char>::empty(),
        },
{
    match &entry.about {
        Some(a) => a.clone(),
        None => String::new(),
    }
}

/// The tags of the agent definition of `entry` (what `publish_agent` sends).
pub fn definition_tags_of(entry: &AgentRegistryEntry) -> (tags: Vec<Vec<String>>)
    ensures
        tag_views(tags@) == definition_tags(*entry),
{
    let lower = to_lowercase(entry.name.as_str());
    let lc = chars_of(lower.as_str());
    let sp = chars_of(" ");
    let dash = chars_of("-");
    proof {
        reveal_strlit(" ");
    }
    let slug_cs = replace_chars(lc.as_slice(), sp.as_slice(), dash.as_slice());
    let mut tags: Vec<Vec<String>> = Vec::new();
    tags.push(make_tag("d", string_from_chars(slug_cs.as_slice())));
    tags.push(make_tag("title", entry.name.clone()));
    tags.push(make_tag("t", "agent".to_owned()));
    let ghost t0 = tag_views(tags@);
    assert(t0 =~= seq![
        tag2("d"@, slug(entry.name@)),
        tag2("title"@, entry.name@),
        tag2("t"@, "agent"@),
    ]);
    if let Some(about) = &entry.about {
        tags.push(make_tag("description", about.clone()));
    }
    let ghost t1 = tag_views(tags@);
    assert(t1 =~= t0 + opt_tag("description"@, entry.about));
    if let Some(fw) = &entry.framework {
        tags.push(make_tag("framework", fw.clone()));
    }
    let ghost t2 = tag_views(tags@);
    assert(t2 =~= t1 + opt_tag("framework"@, entry.framework));
    if let Some(ver) = &entry.version {
        tags.push(make_tag("ver", ver.clone()));
    }
    let ghost t3 = tag_views(tags@);
    assert(t3 =~= t2 + opt_tag("ver"@, entry.version));
    if entry.tui {
        tags.push(make_tag("tool", "tui".to_owned()));
    }
    let ghost t4 = tag_views(tags@);
    assert(t4 =~= t3 + (if entry.tui {
        seq![tag2("tool"@, "tui"@)]
    } else {
        Seq::empty()
    }));
    let mut i: usize = 0;
    while i < entry.skills.len()
        invariant
            i <= entry.skills.len(),
            tag_views(tags@) == t4 + skill_tags(entry.skills@).take(i as int),
        decreases entry.skills.len() - i,
    {
        let ghost before = tag_views(tags@);
        tags.push(make_tag("t", to_lowercase(entry.skills[i].as_str())));
        assert(tag_views(tags@) =~= before.push(tag2("t"@, lowercase(entry.skills@[i as int]@))));
        assert(skill_tags(entry.skills@).take(i + 1) =~= skill_tags(entry.skills@).take(
            i as int,
        ).push(tag2("t"@, lowercase(entry.skills@[i as int]@))));
        i += 1;
    }
    assert(skill_tags(entry.skills@).take(entry.skills.len() as int) =~= skill_tags(
        entry.skills@,
    ));
    tags
}

/// Whether the tag's kind is `k`.
fn kind_is(tag: &Vec<String>, k: &str) -> (b: bool)
    ensures
        b == (tag_kind(str_views(tag@)) == Some(k@)),
{
    tag.len() > 0 && str_eq(tag[0].as_str(), k)
}

/// The content of the first tag of kind `k`.
fn find_content(tags: &Vec<Vec<String>>, k: &str) -> (res: Option<String>)
    ensures
        opt_is(res, first_content(tag_views(tags@), k@)),
{
    let ghost tv = tag_views(tags@);
    let mut i: usize = 0;
    assert(tv.skip(0) =~= tv);
    while i < tags.len()
        invariant
            i <= tags.len(),
            tv == tag_views(tags@),
            first_content(tv, k@) == first_content(tv.skip(i as int), k@),
        decreases tags.len() - i,
    {
        assert(tv.skip(i as int)[0] == str_views(tags@[i as int]@));
        if kind_is(&tags[i], k) {
            if tags[i].len() > 1 {
                return Some(tags[i][1].clone());
            } else {
                return None;
            }
        }
        assert(tv.skip(i as int).drop_first() =~= tv.skip(i + 1));
        i += 1;
    }
    None
}

/// Reads an agent definition event from its content and tags.
pub fn parse_nip_ae_event(content: &str, tags: &Vec<Vec<String>>) -> (res: Option<
    AgentRegistryEntry,
>)
    ensures
        res is Some,
        res matches Some(e) ==> parsed_entry_is(e, content@, tag_views(tags@)),
{
    let ghost tv = tag_views(tags@);
    let name = match find_content(tags, "title") {
        Some(n) => n,
        None => "Unknown Agent".to_owned(),
    };
    let about = if content.is_empty() {
        find_content(tags, "description")
    } else {
        Some(content.to_owned())
    };
    let framework = find_content(tags, "framework");
    let version = find_content(tags, "ver");
    let mut skills: Vec<String> = Vec::new();
    let mut i: usize = 0;
    assert(tv.skip(0) =~= tv);
    assert(str_views(skills@) + skills_of(tv.skip(0)) =~= skills_of(tv));
    while i < tags.len()
        invariant
            i <= tags.len(),
            tv == tag_views(tags@),
            skills_of(tv) == str_views(skills@) + skills_of(tv.skip(i as int)),
        decreases tags.len() - i,
    {
        assert(tv.skip(i as int)[0] == str_views(tags@[i as int]@));
        assert(tv.skip(i as int).drop_first() =~= tv.skip(i + 1));
        if kind_is(&tags[i], "t") && tags[i].len() > 1 && !str_eq(tags[i][1].as_str(), "agent") {
            let ghost before = str_views(skills@);
            skills.push(tags[i][1].clone());
            assert(str_views(skills@) =~= before.push(tags@[i as int]@[1]@));
            assert(before + skills_of(tv.skip(i as int)) =~= str_views(skills@) + skills_of(
                tv.skip(i + 1),
            ));
        }
        i += 1;
    }
    assert(tv.skip(tags.len() as int) =~= Seq::<Seq<Seq<char>>>::empty());
    assert(str_views(skills@) + Seq::<Seq<char>>::empty() =~= str_views(skills@));
    let mut tui = false;
    let mut j: usize = 0;
    while j < tags.len()
        invariant
            j <= tags.len(),
            tv == tag_views(tags@),
            tui == exists|k: int|
                0 <= k < j && tag_kind(tv[k]) == Some("tool"@) && tag_content(tv[k]) == Some(
                    "tui"@,
                ),
        decreases tags.len() - j,
    {
        assert(tv[j as int] == str_views(tags@[j as int]@));
        if kind_is(&tags[j], "tool") && tags[j].len() > 1 && str_eq(tags[j][1].as_str(), "tui") {
            tui = true;
        }
        assert(tui == exists|k: int|
            0 <= k < j + 1 && tag_kind(tv[k]) == Some("tool"@) && tag_content(tv[k]) == Some(
                "tui"@,
            ));
        j += 1;
    }
    Some(
        AgentRegistryEntry {
            name,
            about,
            picture: None,
            framework,
            skills,
            tui,
            relay: None,
            version,
        },
    )
}

/// Reads an agent from an event that a registry search returned. An agent
/// definition (kind 4199) is read from its content and tags; an event of the
/// legacy kind carries the entry as JSON in its content, and `legacy` is that
/// content decoded (`None` where it does not decode).
pub fn read_registry_event(
    kind: u16,
    content: &str,
    tags: &Vec<Vec<String>>,
    legacy: Option<AgentRegistryEntry>,
) -> (res: Option<AgentRegistryEntry>)
    ensures
        kind == AGENT_DEFINITION_KIND ==> (res matches Some(e) && parsed_entry_is(
            e,
            content@,
            tag_views(tags@),
        )),
        kind != AGENT_DEFINITION_KIND ==> res == legacy,
{
    if kind == AGENT_DEFINITION_KIND {
        parse_nip_ae_event(content, tags)
    } else {
        legacy
    }
}

/// An event that a registry search returned, with what the search reads of
/// it: its kind, content and tags, and for the legacy kind its content
/// decoded as an entry (`None` where it does not decode).
#[derive(Debug)]
pub struct RegistryEvent {
    pub kind: u16,
    pub content: String,
    pub tags: Vec<Vec<String>>,
    pub legacy: Option<AgentRegistryEntry>,
}

/// `r` is what `read_registry_event` gives for `ev`: an agent definition
/// read from its content and tags, or for another kind the decoded legacy
/// entry.
pub open spec fn reads_event(ev: RegistryEvent, r: Option<AgentRegistryEntry>) -> bool {
    if ev.kind == AGENT_DEFINITION_KIND {
        r matches Some(e) && parsed_entry_is(e, ev.content@, tag_views(ev.tags@))
    } else {
        r == ev.legacy
    }
}

/// The entries of `reads` that are present, in order, each with its index.
pub open spec fn indexed_entries(reads: Seq<Option<AgentRegistryEntry>>) -> Seq<
    (usize, AgentRegistryEntry),
>
    decreases reads.len(),
{
    if reads.len() == 0 {
        Seq::empty()
    } else {
        let rest = indexed_entries(reads.drop_last());
        match reads.last() {
            Some(e) => rest.push(((reads.len() - 1) as usize, e)),
            None => rest,
        }
    }
}

/// The present entries, with their indices: each index points at its
/// entry, the indices rise, and every present entry is listed.
pub proof fn lemma_indexed_entries(reads: Seq<Option<AgentRegistryEntry>>)
    requires
        reads.len() <= usize::MAX,
    ensures
        indexed_entries(reads).len() <= reads.len(),
        forall|k: int|
            0 <= k < indexed_entries(reads).len() ==> (#[trigger] indexed_entries(reads)[k]).0
                < reads.len() && reads[indexed_entries(reads)[k].0 as int] == Some(
                indexed_entries(reads)[k].1,
            ),
        forall|k1: int, k2: int|
            0 <= k1 < k2 < indexed_entries(reads).len() ==> (#[trigger] indexed_entries(reads)[k1]).0
                < (#[trigger] indexed_entries(reads)[k2]).0,
        forall|i: int|
            0 <= i < reads.len() && (#[trigger] reads[i]) is Some ==> exists|k: int|
                0 <= k < indexed_entries(reads).len() && indexed_entries(reads)[k].0 == i,
    decreases reads.len(),
{
    if reads.len() > 0 {
        let init = reads.drop_last();
        lemma_indexed_entries(init);
        let r = indexed_entries(init);
        let out = indexed_entries(reads);
        assert forall|k: int| 0 <= k < out.len() implies (#[trigger] out[k]).0 < reads.len()
            && reads[out[k].0 as int] == Some(out[k].1) by {
            if k < r.len() {
                assert(out[k] == r[k]);
                assert(reads[r[k].0 as int] == init[r[k].0 as int]);
            } else {
                assert(out[k] == ((reads.len() - 1) as usize, reads.last()->0));
            }
        }
        assert forall|k1: int, k2: int| 0 <= k1 < k2 < out.len() implies (#[trigger] out[k1]).0
            < (#[trigger] out[k2]).0 by {
            assert(out[k1] == r[k1]);
            if k2 < r.len() {
                assert(out[k2] == r[k2]);
            } else {
                assert(out[k2].0 == reads.len() - 1);
            }
        }
        assert forall|i: int| 0 <= i < reads.len() && (#[trigger] reads[i]) is Some implies exists|
            k: int,
        | 0 <= k < out.len() && out[k].0 == i by {
            if i < init.len() {
                assert(init[i] == reads[i]);
                let k = choose|k: int| 0 <= k < r.len() && r[k].0 == i;
                assert(out[k] == r[k]);
            } else {
                assert(out[out.len() - 1].0 == i);
            }
        }
    }
}

/// The agents that a registry search finds among the events it fetched, in
/// the order of the events: each event that reads as an entry gives that
/// entry, with the index of the event (so that the caller can pair it with
/// the event's author); the others are skipped.
pub fn search_results(events: Vec<RegistryEvent>) -> (agents: Vec<(usize, AgentRegistryEntry)>)
    ensures
        exists|reads: Seq<Option<AgentRegistryEntry>>|
            {
                &&& reads.len() == events@.len()
                &&& forall|i: int| 0 <= i < reads.len() ==> reads_event(events@[i], #[trigger] reads[i])
                &&& agents@ == indexed_entries(reads)
            },
{
    let ghost all = events@;
    let n = events.len();
    let mut rest = events;
    let mut agents: Vec<(usize, AgentRegistryEntry)> = Vec::new();
    let ghost mut reads: Seq<Option<AgentRegistryEntry>> = Seq::empty();
    let mut i: usize = 0;
    while rest.len() > 0
        invariant
            i + rest@.len() == all.len(),
            all.len() == n,
            rest@ == all.skip(i as int),
            reads.len() == i,
            forall|k: int| 0 <= k < i ==> reads_event(all[k], #[trigger] reads[k]),
            agents@ == indexed_entries(reads),
        decreases rest@.len(),
    {
        let ev = rest.remove(0);
        assert(ev == all[i as int]);
        let r = read_registry_event(ev.kind, ev.content.as_str(), &ev.tags, ev.legacy);
        let ghost before = reads;
        proof {
            reads = reads.push(r);
            assert(reads.drop_last() =~= before);
        }
        match r {
            Some(e) => {
                agents.push((i, e));
            },
            None => {},
        }
        assert(rest@ =~= all.skip(i + 1));
        i += 1;
    }
    agents
}

} // verus!

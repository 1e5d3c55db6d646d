//! Agent access control: who can talk to this agent?
//!
//! Two agent modes:
//! - Personal: only the owner and explicitly authorized npubs
//! - Service: open to anyone
use crate::table::{find_key, str_views};
use crate::text::str_eq;
use vstd::prelude::*;

verus! {

broadcast use vstd::string::group_string_axioms;

/// Agent access mode.
#[derive(Debug, Clone, Copy, PartialEq, Eq, Structural)]
pub enum AgentMode {
    /// Only owner + authorized npubs can interact
    Personal,
    /// Anyone can interact
    Service,
}

/// Access control configuration for an agent.
#[derive(Debug, Clone)]
pub struct AccessControl {
    /// Agent operating mode
    pub mode: AgentMode,
    /// Owner's npub: always has full access
    pub owner: String,
    /// Additional authorized npubs (personal mode), as a set: each at most once
    pub authorized: Vec<String>,
    /// Message shown to unauthorized users
    pub reject_message: String,
}

/// The set of authorized npubs.
pub open spec fn authorized_set(ac: AccessControl) -> Set<Seq<char>> {
    str_views(ac.authorized@).to_set()
}

/// Whether `sender` may interact: anyone in service mode; the owner and the
/// authorized npubs in personal mode.
pub open spec fn authorized_spec(ac: AccessControl, sender: Seq<char>) -> bool {
    match ac.mode {
        AgentMode::Service => true,
        AgentMode::Personal => sender == ac.owner@ || authorized_set(ac).contains(sender),
    }
}

/// The message shown to unauthorized users of a personal agent.
pub open spec fn default_reject_spec() -> Seq<char> {
    "This is a personal agent. You are not authorized to interact with it. Contact the owner to request access."@
}

/// The message shown to unauthorized users of a personal agent.
pub fn default_reject_message() -> (s: String)
    ensures
        s@ == default_reject_spec(),
{
    "This is a personal agent. You are not authorized to interact with it. Contact the owner to request access.".to_owned()
}

/// The entries of `v` other than `x`, in order.
pub open spec fn without(v: Seq<Seq<char>>, x: Seq<char>) -> Seq<Seq<char>> {
    v.filter(|y: Seq<char>| y != x)
}

impl AccessControl {
    /// A personal agent of `owner_npub` with nobody else authorized.
    pub fn personal(owner_npub: &str) -> (ac: Self)
        ensures
            ac.mode == AgentMode::Personal,
            ac.owner@ == owner_npub@,
            ac.authorized@.len() == 0,
            ac.reject_message@ == default_reject_spec(),
    {
        AccessControl {
            mode: AgentMode::Personal,
            owner: owner_npub.to_owned(),
            authorized: Vec::new(),
            reject_message: default_reject_message(),
        }
    }

    /// A service agent of `owner_npub`, open to all.
    pub fn service(owner_npub: &str) -> (ac: Self)
        ensures
            ac.mode == AgentMode::Service,
            ac.owner@ == owner_npub@,
            ac.authorized@.len() == 0,
            ac.reject_message@.len() == 0,
    {
        AccessControl {
            mode: AgentMode::Service,
            owner: owner_npub.to_owned(),
            authorized: Vec::new(),
            reject_message: String::new(),
        }
    }

    /// Whether `sender_npub` may interact with the agent.
    pub fn is_authorized(&self, sender_npub: &str) -> (b: bool)
        ensures
            b == authorized_spec(*self, sender_npub@),
    {
        match self.mode {
            AgentMode::Service => true,
            AgentMode::Personal => {
                if str_eq(sender_npub, self.owner.as_str()) {
                    return true;
                }
                match find_key(&self.authorized, sender_npub) {
                    Some(i) => {
                        assert(str_views(self.authorized@)[i as int] == sender_npub@);
                        true
                    },
                    None => false,
                }
            },
        }
    }

    /// Authorizes `npub`: adds it to the set (once).
    pub fn authorize(&mut self, npub: &str)
        ensures
            authorized_set(*final(self)) == authorized_set(*old(self)).insert(npub@),
            str_views(old(self).authorized@).contains(npub@) ==> final(self).authorized@
                == old(self).authorized@,
            !str_views(old(self).authorized@).contains(npub@) ==> str_views(
                final(self).authorized@,
            ) == str_views(old(self).authorized@).push(npub@),
            final(self).mode == old(self).mode,
            final(self).owner == old(self).owner,
            final(self).reject_message == old(self).reject_message,
    {
        let ghost before = str_views(self.authorized@);
        match find_key(&self.authorized, npub) {
            Some(i) => {
                assert(before[i as int] == npub@);
                assert(before.to_set().insert(npub@) =~= before.to_set());
            },
            None => {
                self.authorized.push(npub.to_owned());
                assert(str_views(self.authorized@) =~= before.push(npub@));
                assert(before.push(npub@).to_set() =~= before.to_set().insert(npub@)) by {
                    broadcast use vstd::seq_lib::lemma_seq_contains_after_push;

                }
            },
        }
    }

    /// Revokes access for `npub`: removes it from the set.
    pub fn revoke(&mut self, npub: &str)
        ensures
            authorized_set(*final(self)) == authorized_set(*old(self)).remove(npub@),
            str_views(final(self).authorized@) == without(str_views(old(self).authorized@), npub@),
            final(self).mode == old(self).mode,
            final(self).owner == old(self).owner,
            final(self).reject_message == old(self).reject_message,
    {
        let ghost before = str_views(self.authorized@);
        let mut kept: Vec<String> = Vec::new();
        let mut i: usize = 0;
        proof {
            reveal_with_fuel(Seq::<_>::filter, 1);
            assert(before.take(0) =~= Seq::<Seq<char>>::empty());
        }
        while i < self.authorized.len()
            invariant
                i <= self.authorized.len(),
                before == str_views(self.authorized@),
                str_views(kept@) == without(before.take(i as int), npub@),
            decreases self.authorized.len() - i,
        {
            proof {
                reveal_with_fuel(Seq::<_>::filter, 1);
                assert(before.take(i + 1).drop_last() =~= before.take(i as int));
            }
            if !str_eq(self.authorized[i].as_str(), npub) {
                let ghost k0 = str_views(kept@);
                kept.push(self.authorized[i].clone());
                assert(str_views(kept@) =~= k0.push(before[i as int]));
            }
            i += 1;
        }
        proof {
            assert(before.take(before.len() as int) =~= before);
            let after = without(before, npub@);
            assert forall|x: Seq<char>| after.to_set().contains(x) <==> before.to_set().remove(
                npub@,
            ).contains(x) by {
                lemma_without_contains(before, npub@, x);
            }
            assert(after.to_set() =~= before.to_set().remove(npub@));
        }
        self.authorized = kept;
    }
}

/// An entry is kept exactly when it is present and differs from `y`.
pub proof fn lemma_without_contains(v: Seq<Seq<char>>, y: Seq<char>, x: Seq<char>)
    ensures
        without(v, y).contains(x) <==> (v.contains(x) && x != y),
    decreases v.len(),
{
    reveal_with_fuel(Seq::<_>::filter, 1);
    broadcast use vstd::seq_lib::lemma_seq_contains_after_push;

    if v.len() > 0 {
        let init = v.drop_last();
        lemma_without_contains(init, y, x);
        assert(v =~= init.push(v.last()));
    }
}

/// The owner may always interact with the agent.
pub proof fn lemma_owner_authorized(ac: AccessControl)
    ensures
        authorized_spec(ac, ac.owner@),
{
}

/// A service agent accepts everyone.
pub proof fn lemma_service_open(ac: AccessControl, sender: Seq<char>)
    requires
        ac.mode == AgentMode::Service,
    ensures
        authorized_spec(ac, sender),
{
}

/// Once authorized, an npub may interact.
pub proof fn lemma_authorize_grants(before: AccessControl, after: AccessControl, npub: Seq<char>)
    requires
        after.mode == before.mode,
        authorized_set(after) == authorized_set(before).insert(npub),
    ensures
        authorized_spec(after, npub),
{
}

/// Once revoked, a personal agent's npub other than the owner may not
/// interact.
pub proof fn lemma_revoke_denies(before: AccessControl, after: AccessControl, npub: Seq<char>)
    requires
        after.mode == AgentMode::Personal,
        after.owner == before.owner,
        npub != before.owner@,
        authorized_set(after) == authorized_set(before).remove(npub),
    ensures
        !authorized_spec(after, npub),
{
}

/// A personal agent admits exactly its owner and the npubs in its
/// authorized list; a service agent admits everyone.
pub proof fn lemma_authorized_exact(ac: AccessControl, sender: Seq<char>)
    ensures
        ac.mode == AgentMode::Service ==> authorized_spec(ac, sender),
        ac.mode == AgentMode::Personal ==> (authorized_spec(ac, sender) <==> (sender == ac.owner@
            || exists|i: int| 0 <= i < ac.authorized@.len() && #[trigger] ac.authorized@[i]@ == sender)),
{
    if ac.mode == AgentMode::Personal {
        if exists|i: int| 0 <= i < ac.authorized@.len() && #[trigger] ac.authorized@[i]@ == sender {
            let i = choose|i: int| 0 <= i < ac.authorized@.len() && #[trigger] ac.authorized@[i]@ == sender;
            assert(str_views(ac.authorized@)[i] == sender);
        }
        if authorized_set(ac).contains(sender) {
            let i = choose|i: int| 0 <= i < str_views(ac.authorized@).len() && str_views(ac.authorized@)[i] == sender;
            assert(ac.authorized@[i]@ == sender);
        }
    }
}

} // verus!

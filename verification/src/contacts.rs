//! The user's contact book.
//!
//! The book lives in memory here; reading and writing `contacts.json` is
//! done by the application, which saves the book after a change.
use crate::qr::{from_uri_spec, AgentQrData};
use crate::text::{chars_of, push_str, str_eq, str_starts_with, string_from_chars, string_from_utf8};
use vstd::prelude::*;
use vstd::utf8::{decode_utf8, encode_utf8, is_char_boundary, valid_utf8};

verus! {

broadcast use vstd::string::group_string_axioms;

/// A contact.
#[derive(Debug, Clone)]
pub struct Contact {
    /// Nostr npub (bech32)
    pub npub: String,
    /// Display name
    pub name: String,
    /// Preferred relay
    pub relay: Option<String>,
    /// Whether this contact is a known agent
    pub is_agent: bool,
    /// Agent capabilities (if known)
    pub capabilities: Vec<String>,
}

/// The contact book.
#[derive(Debug, Clone)]
pub struct ContactBook {
    pub contacts: Vec<Contact>,
}

/// The npubs of the contacts, in order.
pub open spec fn npubs(contacts: Seq<Contact>) -> Seq<Seq<char>> {
    contacts.map_values(|c: Contact| c.npub@)
}

/// `i` is the first contact with npub `npub`.
pub open spec fn is_first_contact(contacts: Seq<Contact>, npub: Seq<char>, i: int) -> bool {
    0 <= i < contacts.len() && contacts[i].npub@ == npub && forall|j: int|
        0 <= j < i ==> contacts[j].npub@ != npub
}

/// The name shown for an npub: the name of the first contact with that npub,
/// else the npub itself, cut to its first 16 bytes followed by `...` when it
/// is longer than that.
pub open spec fn display_name_spec(contacts: Seq<Contact>, npub: Seq<char>) -> Seq<char> {
    if npubs(contacts).contains(npub) {
        contacts[choose|i: int| is_first_contact(contacts, npub, i)].name@
    } else if encode_utf8(npub).len() > 16 {
        decode_utf8(encode_utf8(npub).take(16)) + "..."@
    } else {
        npub
    }
}

/// The inputs on which `display_name` does not panic: an npub of another
/// person, when cut, is cut at a character boundary.
pub open spec fn display_name_ok(contacts: Seq<Contact>, npub: Seq<char>) -> bool {
    !npubs(contacts).contains(npub) && encode_utf8(npub).len() > 16 ==> is_char_boundary(
        encode_utf8(npub),
        16,
    )
}

/// A contact holds the given fields.
pub open spec fn contact_is(
    c: Contact,
    npub: Seq<char>,
    name: Seq<char>,
    relay: Option<Seq<char>>,
    is_agent: bool,
) -> bool {
    &&& c.npub@ == npub
    &&& c.name@ == name
    &&& match (c.relay, relay) {
        (Some(r), Some(s)) => r@ == s,
        (None, None) => true,
        _ => false,
    }
    &&& c.is_agent == is_agent
    &&& c.capabilities@.len() == 0
}

/// The book after `add_npub(npub, name)` returned `added`.
pub open spec fn add_npub_rel(
    before: Seq<Contact>,
    after: Seq<Contact>,
    npub: Seq<char>,
    name: Seq<char>,
    added: bool,
) -> bool {
    &&& added == !npubs(before).contains(npub)
    &&& !added ==> after == before
    &&& added ==> {
        &&& after.len() == before.len() + 1
        &&& after.drop_last() == before
        &&& contact_is(after.last(), npub, name, None, false)
    }
}

/// The book after `add_from_uri(uri)` returned `res`.
pub open spec fn add_uri_rel(
    before: Seq<Contact>,
    after: Seq<Contact>,
    uri: Seq<char>,
    res: Option<Contact>,
) -> bool {
    match from_uri_spec(uri) {
        None => res is None && after == before,
        Some((n, r, m)) => if npubs(before).contains(n) {
            res is None && after == before
        } else {
            &&& res is Some
            &&& contact_is(res->0, n, m, Some(r), true)
            &&& after.len() == before.len() + 1
            &&& after.drop_last() == before
            &&& contact_is(after.last(), n, m, Some(r), true)
        },
    }
}

/// What adding an address did.
#[derive(Debug, Clone)]
pub enum AddOutcome {
    /// The agent of a `sigil://` URI was added.
    AgentAdded(Contact),
    /// The `sigil://` URI did not parse, or its agent is already a contact.
    AgentNotAdded,
    /// The npub was added.
    PersonAdded,
    /// The npub is already a contact.
    PersonExists,
    /// The address is neither a `sigil://` URI nor an npub.
    Invalid,
}

/// The book after adding `address` (with an optional display name) gave
/// `out`: a `sigil://` URI adds its agent, an npub adds a person under the
/// name (`Unknown` without one), and anything else changes nothing.
pub open spec fn add_address_rel(
    before: Seq<Contact>,
    after: Seq<Contact>,
    address: Seq<char>,
    name: Option<Seq<char>>,
    out: AddOutcome,
) -> bool {
    if "sigil://"@.is_prefix_of(address) {
        match out {
            AddOutcome::AgentAdded(c) => add_uri_rel(before, after, address, Some(c)),
            AddOutcome::AgentNotAdded => add_uri_rel(before, after, address, None),
            _ => false,
        }
    } else if "npub"@.is_prefix_of(address) {
        let display = match name {
            Some(n) => n,
            None => "Unknown"@,
        };
        match out {
            AddOutcome::PersonAdded => add_npub_rel(before, after, address, display, true),
            AddOutcome::PersonExists => add_npub_rel(before, after, address, display, false),
            _ => false,
        }
    } else {
        out is Invalid && after == before
    }
}

/// The name shown for an npub: the name of the earliest contact with that
/// npub; for anyone else, the npub itself when it is at most 16 bytes long,
/// else its first 16 bytes followed by `...`.
pub proof fn lemma_display_name_laws(contacts: Seq<Contact>, npub: Seq<char>)
    ensures
        forall|j: int|
            0 <= j < contacts.len() && #[trigger] contacts[j].npub@ == npub && (forall|k: int|
                0 <= k < j ==> contacts[k].npub@ != npub) ==> display_name_spec(contacts, npub)
                == contacts[j].name@,
        (forall|j: int| 0 <= j < contacts.len() ==> #[trigger] contacts[j].npub@ != npub)
            && encode_utf8(npub).len() <= 16 ==> display_name_spec(contacts, npub) == npub,
        (forall|j: int| 0 <= j < contacts.len() ==> #[trigger] contacts[j].npub@ != npub)
            && encode_utf8(npub).len() > 16 ==> display_name_spec(contacts, npub) == decode_utf8(
            encode_utf8(npub).take(16),
        ) + "..."@,
{
    assert forall|j: int|
        0 <= j < contacts.len() && #[trigger] contacts[j].npub@ == npub && (forall|k: int|
            0 <= k < j ==> contacts[k].npub@ != npub) implies display_name_spec(contacts, npub)
        == contacts[j].name@ by {
        assert(npubs(contacts)[j] == npub);
        assert(is_first_contact(contacts, npub, j));
        let i = choose|i: int| is_first_contact(contacts, npub, i);
        if i < j {
            assert(contacts[i].npub@ != npub);
        }
        if j < i {
            assert(contacts[j].npub@ != npub);
        }
    }
    if forall|j: int| 0 <= j < contacts.len() ==> #[trigger] contacts[j].npub@ != npub {
        assert(!npubs(contacts).contains(npub)) by {
            if npubs(contacts).contains(npub) {
                let j = choose|j: int| 0 <= j < npubs(contacts).len() && npubs(contacts)[j] == npub;
                assert(contacts[j].npub@ == npub);
            }
        }
    }
}

/// A contact that `add_npub` added is found, and shown under the name it was
/// added with.
pub proof fn lemma_added_contact_shown(
    before: Seq<Contact>,
    after: Seq<Contact>,
    npub: Seq<char>,
    name: Seq<char>,
)
    requires
        add_npub_rel(before, after, npub, name, true),
    ensures
        npubs(after).contains(npub),
        display_name_spec(after, npub) == name,
{
    let last = before.len() as int;
    assert(after[last] == after.last());
    assert(npubs(after)[last] == npub);
    assert forall|j: int| 0 <= j < last implies after[j].npub@ != npub by {
        assert(after[j] == before[j]);
        if after[j].npub@ == npub {
            assert(npubs(before)[j] == npub);
        }
    }
    assert(is_first_contact(after, npub, last));
    let k = choose|k: int| is_first_contact(after, npub, k);
    assert(k == last);
}

impl Default for ContactBook {
    fn default() -> (b: Self)
        ensures
            b.contacts@.len() == 0,
    {
        ContactBook { contacts: Vec::new() }
    }
}

impl ContactBook {
    /// The position of the first contact with `npub`.
    fn position(&self, npub: &str) -> (res: Option<usize>)
        ensures
            match res {
                Some(i) => is_first_contact(self.contacts@, npub@, i as int),
                None => !npubs(self.contacts@).contains(npub@),
            },
    {
        let mut i: usize = 0;
        while i < self.contacts.len()
            invariant
                i <= self.contacts.len(),
                forall|j: int| 0 <= j < i ==> self.contacts@[j].npub@ != npub@,
            decreases self.contacts.len() - i,
        {
            if str_eq(self.contacts[i].npub.as_str(), npub) {
                return Some(i);
            }
            i += 1;
        }
        proof {
            if npubs(self.contacts@).contains(npub@) {
                let j = choose|j: int|
                    0 <= j < npubs(self.contacts@).len() && npubs(self.contacts@)[j] == npub@;
                assert(self.contacts@[j].npub@ == npub@);
            }
        }
        None
    }

    /// Adds a contact with `npub` and display name `name`, unless a contact
    /// with that npub exists. Returns true when the contact is new.
    pub fn add_npub(&mut self, npub: &str, name: &str) -> (added: bool)
        ensures
            add_npub_rel(old(self).contacts@, final(self).contacts@, npub@, name@, added),
    {
        match self.position(npub) {
            Some(i) => {
                assert(npubs(self.contacts@)[i as int] == npub@);
                return false;
            },
            None => {},
        }
        self.contacts.push(
            Contact {
                npub: npub.to_owned(),
                name: name.to_owned(),
                relay: None,
                is_agent: false,
                capabilities: Vec::new(),
            },
        );
        assert(self.contacts@.drop_last() =~= old(self).contacts@);
        true
    }

    /// Adds the agent of a `sigil://` URI, unless the URI does not parse or a
    /// contact with its npub exists. Returns the new contact.
    pub fn add_from_uri(&mut self, uri: &str) -> (res: Option<Contact>)
        ensures
            add_uri_rel(old(self).contacts@, final(self).contacts@, uri@, res),
    {
        let data = match AgentQrData::from_uri(uri) {
            Some(d) => d,
            None => return None,
        };
        match self.position(data.npub.as_str()) {
            Some(i) => {
                assert(npubs(self.contacts@)[i as int] == data.npub@);
                return None;
            },
            None => {},
        }
        let kept = Contact {
            npub: data.npub.clone(),
            name: data.name.clone(),
            relay: Some(data.relay.clone()),
            is_agent: true,
            capabilities: Vec::new(),
        };
        self.contacts.push(kept);
        assert(self.contacts@.drop_last() =~= old(self).contacts@);
        Some(
            Contact {
                npub: data.npub,
                name: data.name,
                relay: Some(data.relay),
                is_agent: true,
                capabilities: Vec::new(),
            },
        )
    }

    /// Adds a contact by address: a `sigil://` URI or an npub (with an
    /// optional display name).
    pub fn add_address(&mut self, address: &str, name: Option<&str>) -> (out: AddOutcome)
        ensures
            add_address_rel(
                old(self).contacts@,
                final(self).contacts@,
                address@,
                match name {
                    Some(n) => Some(n@),
                    None => None,
                },
                out,
            ),
    {
        if str_starts_with(address, "sigil://") {
            match self.add_from_uri(address) {
                Some(c) => AddOutcome::AgentAdded(c),
                None => AddOutcome::AgentNotAdded,
            }
        } else if str_starts_with(address, "npub") {
            let display = match name {
                Some(n) => n,
                None => "Unknown",
            };
            if self.add_npub(address, display) {
                AddOutcome::PersonAdded
            } else {
                AddOutcome::PersonExists
            }
        } else {
            AddOutcome::Invalid
        }
    }

    /// Whether `display_name` accepts `npub`: a known npub, or one that is
    /// cut, if at all, at a character boundary.
    pub fn display_name_valid(&self, npub: &str) -> (b: bool)
        ensures
            b == display_name_ok(self.contacts@, npub@),
    {
        match self.position(npub) {
            Some(i) => {
                assert(npubs(self.contacts@)[i as int] == npub@);
                true
            },
            None => npub.as_bytes().len() <= 16 || npub.is_char_boundary(16),
        }
    }

    /// The first contact with `npub`.
    pub fn find(&self, npub: &str) -> (res: Option<&Contact>)
        ensures
            match res {
                Some(c) => exists|i: int|
                    is_first_contact(self.contacts@, npub@, i) && *c == self.contacts@[i],
                None => !npubs(self.contacts@).contains(npub@),
            },
    {
        match self.position(npub) {
            Some(i) => Some(&self.contacts[i]),
            None => None,
        }
    }

    /// The name shown for an npub: the contact's name, else the npub cut to
    /// 16 bytes with `...` when it is longer.
    pub fn display_name(&self, npub: &str) -> (name: String)
        requires
            display_name_ok(self.contacts@, npub@),
        ensures
            name@ == display_name_spec(self.contacts@, npub@),
    {
        match self.position(npub) {
            Some(i) => {
                proof {
                    let k = choose|k: int| is_first_contact(self.contacts@, npub@, k);
                    assert(k == i);
                    assert(npubs(self.contacts@)[i as int] == npub@);
                }
                self.contacts[i].name.clone()
            },
            None => {
                let bytes = npub.as_bytes();
                if bytes.len() > 16 {
                    let mut head: Vec<u8> = Vec::new();
                    let mut k: usize = 0;
                    while k < 16
                        invariant
                            k <= 16,
                            bytes@.len() > 16,
                            head@ == bytes@.take(k as int),
                        decreases 16 - k,
                    {
                        head.push(bytes[k]);
                        k += 1;
                        assert(head@ =~= bytes@.take(k as int));
                    }
                    proof {
                        broadcast use vstd::utf8::encode_utf8_valid_utf8;
                        broadcast use vstd::utf8::valid_utf8_split;

                        assert(valid_utf8(bytes@));
                        assert(bytes@.subrange(0, 16) =~= bytes@.take(16));
                        assert(valid_utf8(bytes@.subrange(0, 16)));
                    }
                    let cut = string_from_utf8(head);
                    match cut {
                        Some(s) => {
                            let mut out = chars_of(s.as_str());
                            push_str(&mut out, "...");
                            string_from_chars(out.as_slice())
                        },
                        None => npub.to_owned(),
                    }
                } else {
                    npub.to_owned()
                }
            },
        }
    }
}

} // verus!

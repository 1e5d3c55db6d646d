//! State of the terminal messenger: the peer list, the selection, the input
//! line and its modes, and the in-app commands. Drawing and the event loop
//! are done by the application around this library.
use crate::chat::{is_recency_order, messages_of, ChatEntry, ChatHistory};
use crate::message::SigilMessage;
use crate::contacts::{
    add_npub_rel, add_uri_rel, display_name_ok, display_name_spec, npubs, Contact, ContactBook,
};
use crate::table::{find_key, str_views};
use crate::text::{
    chars_of, push_str, split_once, split_once_chars, starts_with, str_eq, str_starts_with,
    string_from_chars, sub_chars, trim, trim_chars, lemma_split_once_known,
};
use nostr_sdk::FromBech32;
use vstd::prelude::*;
use vstd::utf8::{decode_utf8, encode_utf8, is_char_boundary, valid_utf8};

verus! {

broadcast use vstd::string::group_string_axioms;

/// What the input line is for.
#[derive(Debug, Clone, Copy, PartialEq, Eq, Structural)]
pub enum InputMode {
    /// Normal mode: navigate contacts
    Normal,
    /// Typing a message
    Editing,
    /// Command mode (`/` prefix)
    Command,
}

/// A channel the user has joined.
#[derive(Debug, Clone)]
pub struct JoinedChannel {
    /// hex event ID
    pub id: String,
    pub name: String,
}

/// The messenger state.
pub struct App {
    pub contacts: ContactBook,
    pub history: ChatHistory,
    pub channels: Vec<JoinedChannel>,
    pub input: String,
    pub input_mode: InputMode,
    pub selected_contact: usize,
    pub scroll_offset: u16,
    pub my_npub: String,
    pub status_line: String,
    pub should_quit: bool,
}

// ---------------------------------------------------------------------------
// Specifications
// ---------------------------------------------------------------------------

/// The peer keys of the channels: `ch:` and the channel id.
pub open spec fn channel_keys(chs: Seq<JoinedChannel>) -> Seq<Seq<char>> {
    chs.map_values(|c: JoinedChannel| "ch:"@ + c.id@)
}

/// `list` followed by the entries of `extra` that are not yet listed, in order.
pub open spec fn add_missing(list: Seq<Seq<char>>, extra: Seq<Seq<char>>) -> Seq<Seq<char>>
    decreases extra.len(),
{
    if extra.len() == 0 {
        list
    } else {
        let l = add_missing(list, extra.drop_last());
        if l.contains(extra.last()) {
            l
        } else {
            l.push(extra.last())
        }
    }
}

/// Channels first, then contacts.
pub open spec fn base_peers(app: App) -> Seq<Seq<char>> {
    channel_keys(app.channels@) + npubs(app.contacts.contacts@)
}

/// `l` is the peer list: channels, contacts, then the other conversation
/// partners, the most recent first.
pub open spec fn is_peer_list(app: App, l: Seq<Seq<char>>) -> bool {
    exists|a: Seq<Seq<char>>| is_recency_order(app.history.log(), a) && l == add_missing(
        base_peers(app),
        a,
    )
}

/// The number of entries of `a` that `base` does not hold.
pub open spec fn count_new(base: Seq<Seq<char>>, a: Seq<Seq<char>>) -> nat
    decreases a.len(),
{
    if a.len() == 0 {
        0
    } else {
        count_new(base, a.drop_last()) + if base.contains(a.last()) {
            0nat
        } else {
            1nat
        }
    }
}

/// The length of the peer list: the channels and contacts, and the
/// conversation partners that are neither.
pub open spec fn peer_count(app: App) -> nat {
    base_peers(app).len() + app.history.log().dom().difference(base_peers(app).to_set()).len()
}

/// The selection is the first entry or lies within the peer list.
pub open spec fn selection_in_list(app: App) -> bool {
    app.selected_contact == 0 || app.selected_contact < peer_count(app)
}

/// Adding entries without repeats: the length grows by the new ones, and
/// the result holds exactly what either part holds.
proof fn lemma_add_missing(base: Seq<Seq<char>>, a: Seq<Seq<char>>)
    requires
        a.no_duplicates(),
    ensures
        add_missing(base, a).len() == base.len() + count_new(base, a),
        forall|x: Seq<char>|
            #[trigger] add_missing(base, a).contains(x) <==> (base.contains(x) || a.contains(x)),
    decreases a.len(),
{
    broadcast use vstd::seq_lib::lemma_seq_contains_after_push;

    if a.len() > 0 {
        let p = a.drop_last();
        let y = a.last();
        assert(a =~= p.push(y));
        assert(p.no_duplicates()) by {
            assert forall|i: int, j: int| 0 <= i < p.len() && 0 <= j < p.len() && i != j implies p[i]
                != p[j] by {
                assert(a[i] == p[i] && a[j] == p[j]);
            }
        }
        assert(!p.contains(y)) by {
            if p.contains(y) {
                let i = choose|i: int| 0 <= i < p.len() && p[i] == y;
                assert(a[i] == a[a.len() - 1]);
            }
        }
        lemma_add_missing(base, p);
    }
}

/// `count_new` counts the entries of a repeat-free sequence that are not in
/// `base`, as a set.
proof fn lemma_count_new_set(base: Seq<Seq<char>>, a: Seq<Seq<char>>)
    requires
        a.no_duplicates(),
    ensures
        count_new(base, a) == a.to_set().difference(base.to_set()).len(),
        a.to_set().difference(base.to_set()).finite(),
    decreases a.len(),
{
    broadcast use vstd::set::group_set_axioms, vstd::seq_lib::seq_to_set_is_finite;
    broadcast use vstd::seq_lib::lemma_seq_contains_after_push;

    let d = a.to_set().difference(base.to_set());
    if a.len() == 0 {
        assert(d =~= Set::<Seq<char>>::empty());
    } else {
        let p = a.drop_last();
        let y = a.last();
        assert(a =~= p.push(y));
        assert(p.no_duplicates()) by {
            assert forall|i: int, j: int| 0 <= i < p.len() && 0 <= j < p.len() && i != j implies p[i]
                != p[j] by {
                assert(a[i] == p[i] && a[j] == p[j]);
            }
        }
        assert(!p.contains(y)) by {
            if p.contains(y) {
                let i = choose|i: int| 0 <= i < p.len() && p[i] == y;
                assert(a[i] == a[a.len() - 1]);
            }
        }
        lemma_count_new_set(base, p);
        let dp = p.to_set().difference(base.to_set());
        if base.contains(y) {
            assert(d =~= dp);
        } else {
            assert(d =~= dp.insert(y));
            assert(!dp.contains(y));
        }
    }
}

/// Adding entries keeps what was listed first, in place.
proof fn lemma_add_missing_prefix(base: Seq<Seq<char>>, a: Seq<Seq<char>>)
    ensures
        add_missing(base, a).len() >= base.len(),
        forall|i: int| 0 <= i < base.len() ==> #[trigger] add_missing(base, a)[i] == base[i],
    decreases a.len(),
{
    if a.len() > 0 {
        lemma_add_missing_prefix(base, a.drop_last());
    }
}

/// The peer list starts with the channels, as `ch:` and the id, in order,
/// then the contacts' npubs, in order; every conversation partner is in it,
/// and it holds nothing else.
pub proof fn lemma_peer_list_laws(app: App, l: Seq<Seq<char>>)
    requires
        is_peer_list(app, l),
    ensures
        l.len() >= app.channels@.len() + app.contacts.contacts@.len(),
        forall|i: int|
            0 <= i < app.channels@.len() ==> #[trigger] l[i] == "ch:"@ + app.channels@[i].id@,
        forall|j: int|
            0 <= j < app.contacts.contacts@.len() ==> #[trigger] l[app.channels@.len() + j]
                == app.contacts.contacts@[j].npub@,
        forall|k: Seq<char>| #[trigger] app.history.log().dom().contains(k) ==> l.contains(k),
        forall|x: Seq<char>|
            #[trigger] l.contains(x) ==> app.history.log().dom().contains(x) || (exists|i: int|
                0 <= i < app.channels@.len() && x == "ch:"@ + app.channels@[i].id@) || (exists|
                j: int,
            |
                0 <= j < app.contacts.contacts@.len() && x == app.contacts.contacts@[j].npub@),
{
    broadcast use vstd::seq_lib::lemma_seq_contains_after_push;

    let a = choose|a: Seq<Seq<char>>|
        is_recency_order(app.history.log(), a) && l == add_missing(base_peers(app), a);
    let base = base_peers(app);
    let nc = app.channels@.len();
    lemma_add_missing(base, a);
    lemma_add_missing_prefix(base, a);
    assert forall|i: int| 0 <= i < nc implies #[trigger] l[i] == "ch:"@ + app.channels@[i].id@ by {
        assert(l[i] == base[i]);
    }
    assert forall|j: int| 0 <= j < app.contacts.contacts@.len() implies #[trigger] l[nc + j]
        == app.contacts.contacts@[j].npub@ by {
        assert(l[nc + j] == base[nc + j]);
    }
    assert forall|k: Seq<char>| #[trigger] app.history.log().dom().contains(k) implies l.contains(
        k,
    ) by {
        assert(a.contains(k));
    }
    assert forall|x: Seq<char>| #[trigger] l.contains(x) implies app.history.log().dom().contains(x)
        || (exists|i: int| 0 <= i < app.channels@.len() && x == "ch:"@ + app.channels@[i].id@) || (
    exists|j: int| 0 <= j < app.contacts.contacts@.len() && x == app.contacts.contacts@[j].npub@) by {
        if a.contains(x) {
            let i = choose|i: int| 0 <= i < a.len() && a[i] == x;
        } else {
            assert(base.contains(x));
            let i = choose|i: int| 0 <= i < base.len() && base[i] == x;
            if i < nc {
                assert(base[i] == "ch:"@ + app.channels@[i].id@);
            } else {
                assert(base[i] == app.contacts.contacts@[i - nc].npub@);
            }
        }
    }
}

/// Every peer list has `peer_count` entries.
pub proof fn lemma_peer_list_len(app: App, l: Seq<Seq<char>>)
    requires
        is_peer_list(app, l),
    ensures
        l.len() == peer_count(app),
{
    let a = choose|a: Seq<Seq<char>>|
        is_recency_order(app.history.log(), a) && l == add_missing(base_peers(app), a);
    lemma_add_missing(base_peers(app), a);
    lemma_count_new_set(base_peers(app), a);
    assert(a.to_set() =~= app.history.log().dom());
}

/// The peer list does not shrink when the channels stay, a contact may be
/// appended, and conversations may be added.
proof fn lemma_peer_count_grows(before: App, after: App)
    requires
        after.channels == before.channels,
        after.contacts.contacts@ == before.contacts.contacts@ || after.contacts.contacts@.drop_last()
            == before.contacts.contacts@ && after.contacts.contacts@.len() == before.contacts.contacts@.len() + 1,
        before.history.log().dom().subset_of(after.history.log().dom()),
    ensures
        peer_count(after) >= peer_count(before),
{
    broadcast use vstd::set::group_set_axioms;

    after.history.lemma_log_finite();
    before.history.lemma_log_finite();
    let b0 = base_peers(before);
    let b1 = base_peers(after);
    let d0 = before.history.log().dom();
    let d1 = after.history.log().dom();
    let s0 = d0.difference(b0.to_set());
    let s1 = d1.difference(b1.to_set());
    if after.contacts.contacts@ == before.contacts.contacts@ {
        assert(b1 == b0);
        vstd::set_lib::lemma_len_subset(s0, s1);
    } else {
        let c = after.contacts.contacts@.last();
        assert(npubs(after.contacts.contacts@) =~= npubs(before.contacts.contacts@).push(c.npub@)) by {
            assert(after.contacts.contacts@ =~= before.contacts.contacts@.push(c));
        }
        assert(b1 =~= b0.push(c.npub@));
        assert(s0.subset_of(s1.insert(c.npub@)));
        vstd::set_lib::lemma_len_subset(s0, s1.insert(c.npub@));
    }
}

/// `i` is the first channel with id `id`.
pub open spec fn is_first_channel(chs: Seq<JoinedChannel>, id: Seq<char>, i: int) -> bool {
    0 <= i < chs.len() && chs[i].id@ == id && forall|j: int| 0 <= j < i ==> chs[j].id@ != id
}

/// Some channel has id `id`.
pub open spec fn has_channel(chs: Seq<JoinedChannel>, id: Seq<char>) -> bool {
    exists|i: int| 0 <= i < chs.len() && chs[i].id@ == id
}

/// At most the first 8 bytes of a channel id.
pub open spec fn short_id(id: Seq<char>) -> Seq<char> {
    if encode_utf8(id).len() <= 8 {
        id
    } else {
        decode_utf8(encode_utf8(id).take(8))
    }
}

/// The name shown for a peer key: a joined channel's name, `#` and the start
/// of an unknown channel's id, or a contact's display name.
pub open spec fn peer_display_spec(app: App, key: Seq<char>) -> Seq<char> {
    if "ch:"@.is_prefix_of(key) {
        let id = key.skip(3);
        if has_channel(app.channels@, id) {
            app.channels@[choose|i: int| is_first_channel(app.channels@, id, i)].name@
        } else {
            "#"@ + short_id(id) + "..."@
        }
    } else {
        display_name_spec(app.contacts.contacts@, key)
    }
}

/// The inputs on which `peer_display_name` does not panic: texts are cut at
/// character boundaries.
pub open spec fn peer_display_ok(app: App, key: Seq<char>) -> bool {
    if "ch:"@.is_prefix_of(key) {
        let id = key.skip(3);
        !has_channel(app.channels@, id) && encode_utf8(id).len() > 8 ==> is_char_boundary(
            encode_utf8(id),
            8,
        )
    } else {
        display_name_ok(app.contacts.contacts@, key)
    }
}

/// `splitn(3, ' ')`: the text before the first space, the text before the
/// next space, and the rest.
pub open spec fn splitn3(s: Seq<char>) -> Seq<Seq<char>> {
    match split_once(s, ' ') {
        None => seq![s],
        Some((a, r)) => match split_once(r, ' ') {
            None => seq![a, r],
            Some((b, c)) => seq![a, b, c],
        },
    }
}

/// The usage message of `/add`.
pub open spec fn usage_text() -> Seq<char> {
    "Usage: /add <npub|sigil://...> [name]"@
}

/// The help message.
pub open spec fn help_text() -> Seq<char> {
    "/add <addr> [name] | /whoami | /quit | j/k=nav | i=type | q=quit"@
}

/// The fields that a command leaves alone.
pub open spec fn same_view(a: App, b: App) -> bool {
    &&& a.history == b.history
    &&& a.channels == b.channels
    &&& a.input == b.input
    &&& a.input_mode == b.input_mode
    &&& a.selected_contact == b.selected_contact
    &&& a.scroll_offset == b.scroll_offset
    &&& a.my_npub == b.my_npub
}

/// The effect of `/add <address> [name]` (the address is `parts[1]`).
pub open spec fn add_command_rel(
    before: App,
    after: App,
    parts: Seq<Seq<char>>,
    save: bool,
) -> bool {
    let addr = parts[1];
    if "sigil://"@.is_prefix_of(addr) {
        exists|res: Option<Contact>|
            {
                &&& add_uri_rel(before.contacts.contacts@, after.contacts.contacts@, addr, res)
                &&& save == res is Some
                &&& after.status_line@ == match res {
                    Some(c) => "Added agent: "@ + c.name@,
                    None => "Already exists or invalid URI"@,
                }
            }
    } else if "npub"@.is_prefix_of(addr) {
        let name = if parts.len() >= 3 {
            parts[2]
        } else {
            "Unknown"@
        };
        exists|added: bool|
            {
                &&& add_npub_rel(
                    before.contacts.contacts@,
                    after.contacts.contacts@,
                    addr,
                    name,
                    added,
                )
                &&& save == added
                &&& after.status_line@ == if added {
                    "Added: "@ + name
                } else {
                    "Already exists."@
                }
            }
    } else {
        &&& after.contacts == before.contacts
        &&& !save
        &&& after.status_line@ == usage_text()
    }
}

/// The effect of a command line `cmd`; `save` tells whether the contacts
/// changed and must be saved.
pub open spec fn command_rel(before: App, after: App, cmd: Seq<char>, save: bool) -> bool {
    let parts = splitn3(trim(cmd));
    let head = parts[0];
    &&& same_view(before, after)
    &&& if head == "/add"@ && parts.len() >= 2 {
        &&& add_command_rel(before, after, parts, save)
        &&& after.should_quit == before.should_quit
    } else {
        &&& after.contacts == before.contacts
        &&& !save
        &&& if head == "/add"@ {
            after.status_line@ == usage_text() && after.should_quit == before.should_quit
        } else if head == "/whoami"@ {
            after.status_line@ == "npub: "@ + before.my_npub@ && after.should_quit
                == before.should_quit
        } else if head == "/quit"@ || head == "/q"@ {
            after.status_line == before.status_line && after.should_quit
        } else if head == "/help"@ {
            after.status_line@ == help_text() && after.should_quit == before.should_quit
        } else {
            after.status_line@ == "Unknown command: "@ + cmd && after.should_quit
                == before.should_quit
        }
    }
}

// ---------------------------------------------------------------------------
// Executable functions
// ---------------------------------------------------------------------------

/// A key press, as the event loop reports it.
#[derive(Debug, Clone, Copy, PartialEq, Eq, Structural)]
pub enum KeyInput {
    /// A character key; `ctrl` tells whether Control was held
    Char { c: char, ctrl: bool },
    Enter,
    Esc,
    Backspace,
    Up,
    Down,
    /// Any other key
    Other,
}

/// What the event loop must do after a key press.
pub enum KeyAction {
    /// Nothing more
    Nothing,
    /// The contacts changed: save them
    SaveContacts,
    /// Send `content` as a direct message to the peer with key `peer`
    SendDm { peer: String, content: String },
}

/// The fields that key presses leave alone outside of commands.
pub open spec fn fixed_fields(a: App, b: App) -> bool {
    &&& a.contacts == b.contacts
    &&& a.history == b.history
    &&& a.channels == b.channels
    &&& a.scroll_offset == b.scroll_offset
    &&& a.my_npub == b.my_npub
    &&& a.status_line == b.status_line
}

/// `after` is `before` with the given input text, mode, selection and quit flag.
pub open spec fn moved_to(
    before: App,
    after: App,
    input: Seq<char>,
    mode: InputMode,
    selected: int,
    quit: bool,
) -> bool {
    &&& fixed_fields(before, after)
    &&& after.input@ == input
    &&& after.input_mode == mode
    &&& after.selected_contact == selected
    &&& after.should_quit == quit
}

/// `after` is `before` unchanged.
pub open spec fn unchanged(before: App, after: App) -> bool {
    moved_to(
        before,
        after,
        before.input@,
        before.input_mode,
        before.selected_contact as int,
        before.should_quit,
    )
}

/// The text without its last character, if any (`String::pop`).
pub open spec fn pop_char(s: Seq<char>) -> Seq<char> {
    if s.len() == 0 {
        s
    } else {
        s.drop_last()
    }
}

/// A key in normal mode: `q` or Ctrl-C quits, `i` or Enter starts typing,
/// `/` starts a command, Up/`k` and Down/`j` move the selection within the
/// peer list.
pub open spec fn normal_key_rel(before: App, after: App, key: KeyInput) -> bool {
    let sel = before.selected_contact as int;
    let input = before.input@;
    let quit = before.should_quit;
    match key {
        KeyInput::Char { c, ctrl } => if c == 'q' || (c == 'c' && ctrl) {
            moved_to(before, after, input, InputMode::Normal, sel, true)
        } else if c == 'i' {
            moved_to(before, after, input, InputMode::Editing, sel, quit)
        } else if c == '/' {
            moved_to(before, after, "/"@, InputMode::Command, sel, quit)
        } else if c == 'k' {
            moved_to(before, after, input, InputMode::Normal, if sel > 0 { sel - 1 } else { sel }, quit)
        } else if c == 'j' {
            exists|l: Seq<Seq<char>>|
                #[trigger] is_peer_list(before, l) && moved_to(
                    before,
                    after,
                    input,
                    InputMode::Normal,
                    if sel < l.len() - 1 { sel + 1 } else { sel },
                    quit,
                )
        } else {
            unchanged(before, after)
        },
        KeyInput::Enter => moved_to(before, after, input, InputMode::Editing, sel, quit),
        KeyInput::Up => moved_to(before, after, input, InputMode::Normal, if sel > 0 { sel - 1 } else { sel }, quit),
        KeyInput::Down => exists|l: Seq<Seq<char>>|
            #[trigger] is_peer_list(before, l) && moved_to(
                before,
                after,
                input,
                InputMode::Normal,
                if sel < l.len() - 1 { sel + 1 } else { sel },
                quit,
            ),
        _ => unchanged(before, after),
    }
}

/// A key while typing a message: Enter sends a non-empty message to the
/// selected peer and clears the line, Esc clears it and leaves typing,
/// Backspace deletes a character and other characters are typed.
pub open spec fn editing_key_rel(before: App, after: App, key: KeyInput, action: KeyAction) -> bool {
    let sel = before.selected_contact as int;
    let input = before.input@;
    let quit = before.should_quit;
    match key {
        KeyInput::Enter => if input.len() > 0 {
            exists|l: Seq<Seq<char>>|
                #[trigger] is_peer_list(before, l) && if sel < l.len() {
                    &&& moved_to(before, after, Seq::empty(), InputMode::Editing, sel, quit)
                    &&& action matches KeyAction::SendDm { peer, content }
                    &&& peer@ == l[sel]
                    &&& content@ == input
                } else {
                    unchanged(before, after) && action is Nothing
                }
        } else {
            unchanged(before, after) && action is Nothing
        },
        KeyInput::Esc => moved_to(before, after, Seq::empty(), InputMode::Normal, sel, quit)
            && action is Nothing,
        KeyInput::Backspace => moved_to(before, after, pop_char(input), InputMode::Editing, sel, quit)
            && action is Nothing,
        KeyInput::Char { c, .. } => moved_to(before, after, input.push(c), InputMode::Editing, sel, quit)
            && action is Nothing,
        _ => unchanged(before, after) && action is Nothing,
    }
}

/// A key while typing a command: Enter runs it and returns to normal mode,
/// Esc abandons it, Backspace deletes a character (leaving command mode when
/// the line becomes empty) and other characters are typed.
pub open spec fn command_key_rel(before: App, after: App, key: KeyInput, action: KeyAction) -> bool {
    let sel = before.selected_contact as int;
    let input = before.input@;
    let quit = before.should_quit;
    match key {
        KeyInput::Enter => exists|mid: App, save: bool|
            {
                &&& command_rel(before, mid, input, save)
                &&& after.contacts == mid.contacts
                &&& after.history == mid.history
                &&& after.channels == mid.channels
                &&& after.scroll_offset == mid.scroll_offset
                &&& after.my_npub == mid.my_npub
                &&& after.status_line == mid.status_line
                &&& after.should_quit == mid.should_quit
                &&& after.selected_contact == mid.selected_contact
                &&& after.input@.len() == 0
                &&& after.input_mode == InputMode::Normal
                &&& if save {
                    action is SaveContacts
                } else {
                    action is Nothing
                }
            },
        KeyInput::Esc => moved_to(before, after, Seq::empty(), InputMode::Normal, sel, quit)
            && action is Nothing,
        KeyInput::Backspace => moved_to(
            before,
            after,
            pop_char(input),
            if pop_char(input).len() == 0 {
                InputMode::Normal
            } else {
                InputMode::Command
            },
            sel,
            quit,
        ) && action is Nothing,
        KeyInput::Char { c, .. } => moved_to(before, after, input.push(c), InputMode::Command, sel, quit)
            && action is Nothing,
        _ => unchanged(before, after) && action is Nothing,
    }
}

/// The effect of a key press in the current mode.
pub open spec fn key_rel(before: App, after: App, key: KeyInput, action: KeyAction) -> bool {
    match before.input_mode {
        InputMode::Normal => normal_key_rel(before, after, key) && action is Nothing,
        InputMode::Editing => editing_key_rel(before, after, key, action),
        InputMode::Command => command_key_rel(before, after, key, action),
    }
}

/// A command leaves the contacts as they were or appends one contact.
proof fn lemma_command_contacts(before: App, mid: App, cmd: Seq<char>, save: bool)
    requires
        command_rel(before, mid, cmd, save),
    ensures
        mid.contacts.contacts@ == before.contacts.contacts@ || mid.contacts.contacts@.drop_last()
            == before.contacts.contacts@ && mid.contacts.contacts@.len()
            == before.contacts.contacts@.len() + 1,
{
    let parts = splitn3(trim(cmd));
    if parts[0] == "/add"@ && parts.len() >= 2 {
        let addr = parts[1];
        if "sigil://"@.is_prefix_of(addr) {
            let res = choose|res: Option<Contact>|
                {
                    &&& add_uri_rel(before.contacts.contacts@, mid.contacts.contacts@, addr, res)
                    &&& save == res is Some
                    &&& mid.status_line@ == match res {
                        Some(c) => "Added agent: "@ + c.name@,
                        None => "Already exists or invalid URI"@,
                    }
                };
            assert(add_uri_rel(before.contacts.contacts@, mid.contacts.contacts@, addr, res));
        } else if "npub"@.is_prefix_of(addr) {
            let name = if parts.len() >= 3 {
                parts[2]
            } else {
                "Unknown"@
            };
            let added = choose|added: bool|
                {
                    &&& add_npub_rel(
                        before.contacts.contacts@,
                        mid.contacts.contacts@,
                        addr,
                        name,
                        added,
                    )
                    &&& save == added
                    &&& mid.status_line@ == if added {
                        "Added: "@ + name
                    } else {
                        "Already exists."@
                    }
                };
            assert(add_npub_rel(before.contacts.contacts@, mid.contacts.contacts@, addr, name, added));
        }
    }
}

/// A key press keeps the selection at the first entry or within the peer
/// list: moving down stops at the last entry, moving up at the first, and a
/// command can only lengthen the list.
pub proof fn lemma_key_keeps_selection(before: App, after: App, key: KeyInput, action: KeyAction)
    requires
        selection_in_list(before),
        key_rel(before, after, key, action),
    ensures
        selection_in_list(after),
{
    let sel = before.selected_contact as int;
    let input = before.input@;
    let quit = before.should_quit;
    match before.input_mode {
        InputMode::Normal => {
            let down = match key {
                KeyInput::Char { c, ctrl } => !(c == 'q' || (c == 'c' && ctrl)) && c != 'i' && c
                    != '/' && c != 'k' && c == 'j',
                KeyInput::Down => true,
                _ => false,
            };
            if down {
                let l = choose|l: Seq<Seq<char>>|
                    #[trigger] is_peer_list(before, l) && moved_to(
                        before,
                        after,
                        input,
                        InputMode::Normal,
                        if sel < l.len() - 1 {
                            sel + 1
                        } else {
                            sel
                        },
                        quit,
                    );
                lemma_peer_list_len(before, l);
            }
            assert(base_peers(after) == base_peers(before));
        },
        InputMode::Editing => {
            if key is Enter && input.len() > 0 {
                let l = choose|l: Seq<Seq<char>>|
                    #[trigger] is_peer_list(before, l) && if sel < l.len() {
                        &&& moved_to(before, after, Seq::empty(), InputMode::Editing, sel, quit)
                        &&& action matches KeyAction::SendDm { peer, content }
                        &&& peer@ == l[sel]
                        &&& content@ == input
                    } else {
                        unchanged(before, after) && action is Nothing
                    };
            }
            assert(base_peers(after) == base_peers(before));
        },
        InputMode::Command => {
            if key is Enter {
                let (mid, save) = choose|mid: App, save: bool|
                    {
                        &&& command_rel(before, mid, input, save)
                        &&& after.contacts == mid.contacts
                        &&& after.history == mid.history
                        &&& after.channels == mid.channels
                        &&& after.selected_contact == mid.selected_contact
                    };
                lemma_command_contacts(before, mid, input, save);
                lemma_peer_count_grows(before, after);
            } else {
                assert(base_peers(after) == base_peers(before));
            }
        },
    }
}

/// What a command line does, stated over the states before and after it:
/// no command touches the history, channels, selection, input line or user;
/// the contacts stay or gain exactly one, and the result says whether they
/// changed. For a command word alone (the trimmed line holds no space):
/// `/quit` and `/q` quit, `/whoami` shows `npub: ` and the user's npub,
/// `/help` shows the key help, `/add` shows its usage, and any other line is
/// reported as an unknown command. `/add <npub>` adds the npub under the
/// name `Unknown` exactly when it is not yet a contact.
pub proof fn lemma_command_laws(before: App, after: App, cmd: Seq<char>, save: bool)
    requires
        command_rel(before, after, cmd, save),
    ensures
        after.history == before.history,
        after.channels == before.channels,
        after.selected_contact == before.selected_contact,
        after.input == before.input,
        after.input_mode == before.input_mode,
        after.my_npub == before.my_npub,
        !save ==> after.contacts.contacts@ == before.contacts.contacts@,
        save ==> after.contacts.contacts@.len() == before.contacts.contacts@.len() + 1
            && after.contacts.contacts@.drop_last() == before.contacts.contacts@,
        !trim(cmd).contains(' ') && (trim(cmd) == "/quit"@ || trim(cmd) == "/q"@) ==> after.should_quit
            && !save,
        !trim(cmd).contains(' ') && trim(cmd) == "/whoami"@ ==> after.status_line@ == "npub: "@
            + before.my_npub@ && after.should_quit == before.should_quit && !save,
        !trim(cmd).contains(' ') && trim(cmd) == "/help"@ ==> after.status_line@
            == "/add <addr> [name] | /whoami | /quit | j/k=nav | i=type | q=quit"@ && !save,
        !trim(cmd).contains(' ') && trim(cmd) == "/add"@ ==> after.status_line@
            == "Usage: /add <npub|sigil://...> [name]"@ && !save,
        !trim(cmd).contains(' ') && trim(cmd) != "/quit"@ && trim(cmd) != "/q"@ && trim(cmd)
            != "/whoami"@ && trim(cmd) != "/help"@ && trim(cmd) != "/add"@ ==> after.status_line@
            == "Unknown command: "@ + cmd && after.should_quit == before.should_quit && !save,
        forall|a: Seq<char>|
            #![trigger ("/add "@ + a)]
            trim(cmd) == "/add "@ + a && !a.contains(' ') && "npub"@.is_prefix_of(a) && !"sigil://"@.is_prefix_of(a)
                ==> (save <==> !npubs(before.contacts.contacts@).contains(a)) && (save
                ==> after.contacts.contacts@.last().npub@ == a
                && after.contacts.contacts@.last().name@ == "Unknown"@ && after.status_line@
                == "Added: Unknown"@) && (!save ==> after.status_line@ == "Already exists."@),
{
    lemma_command_contacts(before, after, cmd, save);
    let t = trim(cmd);
    if !t.contains(' ') {
        assert(split_once(t, ' ') is None);
        assert(splitn3(t) == seq![t]);
        reveal_strlit("/add");
        reveal_strlit("/quit");
        reveal_strlit("/q");
        reveal_strlit("/whoami");
        reveal_strlit("/help");
        assert("/quit"@ != "/add"@ && "/quit"@ != "/whoami"@) by {
            assert("/quit"@[1] != "/add"@[1] && "/quit"@[1] != "/whoami"@[1]);
        }
        assert("/q"@ != "/add"@ && "/q"@ != "/whoami"@) by {
            assert("/q"@.len() != "/add"@.len() && "/q"@.len() != "/whoami"@.len());
        }
        assert("/help"@ != "/add"@ && "/help"@ != "/whoami"@ && "/help"@ != "/quit"@ && "/help"@
            != "/q"@) by {
            assert("/help"@[1] != "/add"@[1] && "/help"@[1] != "/whoami"@[1] && "/help"@[1]
                != "/quit"@[1]);
        }
    }
    assert forall|a: Seq<char>|
        #![trigger ("/add "@ + a)]
        trim(cmd) == "/add "@ + a && !a.contains(' ') && "npub"@.is_prefix_of(a) && !"sigil://"@.is_prefix_of(a)
            implies (save <==> !npubs(before.contacts.contacts@).contains(a)) && (save
            ==> after.contacts.contacts@.last().npub@ == a
            && after.contacts.contacts@.last().name@ == "Unknown"@ && after.status_line@
            == "Added: Unknown"@) && (!save ==> after.status_line@ == "Already exists."@) by {
        reveal_strlit("/add ");
        reveal_strlit("/add");
        let w = "/add"@;
        assert(!w.contains(' ')) by {
            if w.contains(' ') {
                let i = choose|i: int| 0 <= i < w.len() && w[i] == ' ';
            }
        }
        assert("/add "@ + a =~= w + seq![' '] + a);
        lemma_split_once_known(w, ' ', a);
        assert(split_once(a, ' ') is None);
        assert(splitn3(t) == seq![w, a]);
        let parts = splitn3(t);
        assert(parts[0] == "/add"@ && parts.len() >= 2 && parts[1] == a);
        if save {
            let added = choose|added: bool|
                {
                    &&& add_npub_rel(
                        before.contacts.contacts@,
                        after.contacts.contacts@,
                        a,
                        "Unknown"@,
                        added,
                    )
                    &&& save == added
                    &&& after.status_line@ == if added {
                        "Added: "@ + "Unknown"@
                    } else {
                        "Already exists."@
                    }
                };
            reveal_strlit("Added: ");
            reveal_strlit("Unknown");
            reveal_strlit("Added: Unknown");
            assert("Added: "@ + "Unknown"@ =~= "Added: Unknown"@);
        } else {
            let added = choose|added: bool|
                {
                    &&& add_npub_rel(
                        before.contacts.contacts@,
                        after.contacts.contacts@,
                        a,
                        "Unknown"@,
                        added,
                    )
                    &&& save == added
                    &&& after.status_line@ == if added {
                        "Added: "@ + "Unknown"@
                    } else {
                        "Already exists."@
                    }
                };
        }
    }
}

/// What a key press does, stated over the states before and after it:
/// - in normal mode, `q` (with or without Control) and Control-C quit; `i`
///   and Enter start typing; `/` starts a command line holding `/`;
///   Up and `k` move the selection up, stopping at the first entry; Down and
///   `j` move it down, stopping at the last entry of the peer list; no key
///   sends anything or changes the contacts, history or channels;
/// - while typing or in a command, Esc clears the line and returns to
///   normal mode, Backspace deletes the last character, and any other
///   character is appended to the line;
/// - while typing, Enter on a non-empty line with a peer selected sends the
///   line to that peer and clears it.
pub proof fn lemma_key_laws(before: App, after: App, key: KeyInput, action: KeyAction)
    requires
        key_rel(before, after, key, action),
    ensures
        before.input_mode == InputMode::Normal ==> (action is Nothing),
        before.input_mode == InputMode::Normal ==> (after.contacts == before.contacts),
        before.input_mode == InputMode::Normal ==> (after.history == before.history),
        before.input_mode == InputMode::Normal ==> (after.channels == before.channels),
        before.input_mode == InputMode::Normal ==> ((key matches KeyInput::Char { c, ctrl } && (c == 'q' || (c == 'c' && ctrl))
                ==> after.should_quit)),
        before.input_mode == InputMode::Normal ==> ((key matches KeyInput::Char { c, ctrl } && !(c == 'q' || (c == 'c' && ctrl))
                ==> after.should_quit == before.should_quit)),
        before.input_mode == InputMode::Normal ==> ((!(key is Char) ==> after.should_quit == before.should_quit)),
        before.input_mode == InputMode::Normal ==> ((key == KeyInput::Enter || key == KeyInput::Char { c: 'i', ctrl: false } || key
                == KeyInput::Char { c: 'i', ctrl: true } ==> after.input_mode == InputMode::Editing
                && after.input@ == before.input@ && after.selected_contact == before.selected_contact)),
        before.input_mode == InputMode::Normal ==> ((key == KeyInput::Char { c: '/', ctrl: false } || key == KeyInput::Char {
                c: '/',
                ctrl: true,
            } ==> after.input_mode == InputMode::Command && after.input@ == "/"@)),
        before.input_mode == InputMode::Normal ==> ((key == KeyInput::Up || key == KeyInput::Char { c: 'k', ctrl: false } || key
                == KeyInput::Char { c: 'k', ctrl: true } ==> after.selected_contact == if before.selected_contact
                > 0 {
                before.selected_contact - 1
            } else {
                0
            })),
        before.input_mode == InputMode::Normal ==> ((key == KeyInput::Down || key == KeyInput::Char { c: 'j', ctrl: false } || key
                == KeyInput::Char { c: 'j', ctrl: true } ==> forall|l: Seq<Seq<char>>|
                #[trigger] is_peer_list(before, l) ==> after.selected_contact == if before.selected_contact
                + 1 < l.len() {
                before.selected_contact + 1
            } else {
                before.selected_contact as int
            })),
        before.input_mode != InputMode::Normal ==> {
            &&& (key == KeyInput::Esc ==> after.input@.len() == 0 && after.input_mode
                == InputMode::Normal && action is Nothing)
            &&& (key == KeyInput::Backspace ==> action is Nothing && (before.input@.len() > 0
                ==> after.input@ == before.input@.drop_last()) && (before.input@.len() == 0
                ==> after.input@.len() == 0))
            &&& (key matches KeyInput::Char { c, .. } ==> action is Nothing && after.input@
                == before.input@.push(c) && after.input_mode == before.input_mode)
        },
        before.input_mode == InputMode::Editing && key == KeyInput::Enter ==> (action is SendDm
            <==> (before.input@.len() > 0 && exists|l: Seq<Seq<char>>|
            #[trigger] is_peer_list(before, l) && before.selected_contact < l.len())),
        before.input_mode == InputMode::Editing && key == KeyInput::Enter && action is SendDm
            ==> after.input@.len() == 0 && action->content@ == before.input@ && exists|
            l: Seq<Seq<char>>,
        |
            #[trigger] is_peer_list(before, l) && before.selected_contact < l.len() && action->peer@
                == l[before.selected_contact as int],
{
    let sel = before.selected_contact as int;
    if before.input_mode == InputMode::Normal {
        let down = match key {
            KeyInput::Char { c, ctrl } => !(c == 'q' || (c == 'c' && ctrl)) && c != 'i' && c != '/'
                && c != 'k' && c == 'j',
            KeyInput::Down => true,
            _ => false,
        };
        if down {
            let l0 = choose|l: Seq<Seq<char>>|
                #[trigger] is_peer_list(before, l) && moved_to(
                    before,
                    after,
                    before.input@,
                    InputMode::Normal,
                    if sel < l.len() - 1 {
                        sel + 1
                    } else {
                        sel
                    },
                    before.should_quit,
                );
            lemma_peer_list_len(before, l0);
            assert forall|l: Seq<Seq<char>>| #[trigger] is_peer_list(before, l) implies after.selected_contact
                == if before.selected_contact + 1 < l.len() {
                before.selected_contact + 1
            } else {
                before.selected_contact as int
            } by {
                lemma_peer_list_len(before, l);
            }
        }
    }
    if before.input_mode == InputMode::Editing && key == KeyInput::Enter && before.input@.len() > 0 {
        let l0 = choose|l: Seq<Seq<char>>|
            #[trigger] is_peer_list(before, l) && if sel < l.len() {
                &&& moved_to(before, after, Seq::empty(), InputMode::Editing, sel, before.should_quit)
                &&& action matches KeyAction::SendDm { peer, content }
                &&& peer@ == l[sel]
                &&& content@ == before.input@
            } else {
                unchanged(before, after) && action is Nothing
            };
        lemma_peer_list_len(before, l0);
        assert forall|l: Seq<Seq<char>>| #[trigger] is_peer_list(before, l) implies (sel < l.len()
            <==> sel < l0.len()) by {
            lemma_peer_list_len(before, l);
        }
    }
}

/// A change of the messenger state by a message sent or received: the
/// channels and contacts stay, conversations may be added, and the
/// selection stays or goes back to the first entry.
pub open spec fn message_step(before: App, after: App) -> bool {
    &&& after.channels == before.channels
    &&& after.contacts == before.contacts
    &&& before.history.log().dom().subset_of(after.history.log().dom())
    &&& (after.selected_contact == before.selected_contact || after.selected_contact == 0)
}

/// One step of the messenger's event loop: a key press or a message.
pub open spec fn app_step(before: App, after: App) -> bool {
    ||| exists|key: KeyInput, action: KeyAction| #[trigger] key_rel(before, after, key, action)
    ||| message_step(before, after)
}

/// One step keeps the selection at the first entry or within the peer list.
pub proof fn lemma_step_keeps_selection(before: App, after: App)
    requires
        selection_in_list(before),
        app_step(before, after),
    ensures
        selection_in_list(after),
{
    if message_step(before, after) {
        lemma_peer_count_grows(before, after);
    } else {
        let (key, action) = choose|key: KeyInput, action: KeyAction|
            #[trigger] key_rel(before, after, key, action);
        lemma_key_keeps_selection(before, after, key, action);
    }
}

/// The selection law of the messenger: over any run of key presses and
/// messages that starts with the selection in the list (as `App::new`
/// leaves it, at 0), the selection is after every step the first entry or
/// an index within the peer list.
pub proof fn lemma_selection_over_run(run: Seq<App>)
    requires
        run.len() > 0,
        selection_in_list(run[0]),
        forall|i: int, j: int|
            0 <= i && j == i + 1 && j < run.len() ==> #[trigger] app_step(run[i], run[j]),
    ensures
        forall|i: int| 0 <= i < run.len() ==> selection_in_list(#[trigger] run[i]),
        forall|i: int, l: Seq<Seq<char>>|
            0 <= i < run.len() && #[trigger] is_peer_list(run[i], l) ==> run[i].selected_contact == 0
                || run[i].selected_contact < l.len(),
    decreases run.len(),
{
    if run.len() > 1 {
        let init = run.drop_last();
        assert forall|i: int, j: int|
            0 <= i && j == i + 1 && j < init.len() implies #[trigger] app_step(init[i], init[j]) by {
            assert(app_step(run[i], run[j]));
        }
        lemma_selection_over_run(init);
        let n = run.len() - 1;
        assert(init[n - 1] == run[n - 1]);
        assert(app_step(run[n - 1], run[n]));
        lemma_step_keeps_selection(run[n - 1], run[n]);
        assert forall|i: int| 0 <= i < run.len() implies selection_in_list(#[trigger] run[i]) by {
            if i < n {
                assert(init[i] == run[i]);
            }
        }
    }
    assert forall|i: int, l: Seq<Seq<char>>|
        0 <= i < run.len() && #[trigger] is_peer_list(run[i], l) implies run[i].selected_contact
        == 0 || run[i].selected_contact < l.len() by {
        lemma_peer_list_len(run[i], l);
        assert(selection_in_list(run[i]));
    }
}

/// The text of `s` without its last character.
fn pop_string(s: &String) -> (out: String)
    ensures
        out@ == pop_char(s@),
{
    let cs = chars_of(s.as_str());
    if cs.len() == 0 {
        string_from_chars(cs.as_slice())
    } else {
        let head = sub_chars(cs.as_slice(), 0, cs.len() - 1);
        assert(head@ =~= s@.drop_last());
        string_from_chars(head.as_slice())
    }
}

/// The text of `s` followed by `c`.
fn push_string(s: &String, c: char) -> (out: String)
    ensures
        out@ == s@.push(c),
{
    let mut cs = chars_of(s.as_str());
    cs.push(c);
    string_from_chars(cs.as_slice())
}

/// `splitn(3, ' ')` of a character sequence.
fn splitn3_chars(s: &[char]) -> (parts: Vec<Vec<char>>)
    ensures
        crate::text::views(parts@) == splitn3(s@),
{
    match split_once_chars(s, ' ') {
        None => {
            let mut parts: Vec<Vec<char>> = Vec::new();
            parts.push(sub_chars(s, 0, s.len()));
            assert(s@.subrange(0, s@.len() as int) =~= s@);
            assert(crate::text::views(parts@) =~= splitn3(s@));
            parts
        },
        Some((a, r)) => {
            let ghost av = a@;
            let ghost rv = r@;
            match split_once_chars(r.as_slice(), ' ') {
                None => {
                    let mut parts: Vec<Vec<char>> = Vec::new();
                    parts.push(a);
                    parts.push(r);
                    assert(crate::text::views(parts@) =~= splitn3(s@));
                    parts
                },
                Some((b, c)) => {
                    let mut parts: Vec<Vec<char>> = Vec::new();
                    parts.push(a);
                    parts.push(b);
                    parts.push(c);
                    assert(crate::text::views(parts@) =~= splitn3(s@));
                    parts
                },
            }
        },
    }
}

/// The public key (32 bytes) that an npub encodes, as the `nostr` crate
/// decodes it, or `None` where it is not a valid npub.
pub uninterp spec fn npub_pubkey(npub: Seq<char>) -> Option<Seq<u8>>;

/// `PublicKey::from_bech32` then `PublicKey::to_bytes`. The contract claims
/// only that the result is the one named `npub_pubkey` for the text.
#[verifier::external_body]
fn npub_key(npub: &str) -> (r: Option<Vec<u8>>)
    ensures
        match r {
            Some(k) => npub_pubkey(npub@) == Some(k@),
            None => npub_pubkey(npub@) is None,
        },
{
    nostr_sdk::PublicKey::from_bech32(npub).ok().map(|k| k.to_bytes().to_vec())
}

/// Where a message typed for a peer goes.
#[derive(Debug, Clone)]
pub enum SendTarget {
    /// To the channel with this hex id.
    Channel(String),
    /// As a direct message to this public key (32 bytes).
    Direct(Vec<u8>),
    /// Nowhere: the peer key is neither a channel nor a valid npub.
    Unreachable,
}

/// Where a message for `peer` goes, `key` being the public key that `peer`
/// decodes to as an npub: a `ch:` key names a channel.
pub open spec fn send_target_spec(peer: Seq<char>, key: Option<Seq<u8>>, t: SendTarget) -> bool {
    if "ch:"@.is_prefix_of(peer) {
        t matches SendTarget::Channel(id) && id@ == peer.skip(3)
    } else {
        match key {
            Some(k) => t matches SendTarget::Direct(b) && b@ == k,
            None => t is Unreachable,
        }
    }
}

/// Where a message for `peer` goes, given the public key it decodes to.
pub fn send_target_for(peer: &str, key: Option<Vec<u8>>) -> (t: SendTarget)
    ensures
        send_target_spec(
            peer@,
            match key {
                Some(k) => Some(k@),
                None => None,
            },
            t,
        ),
{
    proof {
        reveal_strlit("ch:");
    }
    if str_starts_with(peer, "ch:") {
        let cs = chars_of(peer);
        let id = sub_chars(cs.as_slice(), 3, cs.len());
        assert(id@ =~= peer@.skip(3));
        SendTarget::Channel(string_from_chars(id.as_slice()))
    } else {
        match key {
            Some(k) => SendTarget::Direct(k),
            None => SendTarget::Unreachable,
        }
    }
}

/// Where a message for `peer` goes: a channel, a valid npub's key, or
/// nowhere.
pub fn send_target(peer: &str) -> (t: SendTarget)
    ensures
        send_target_spec(peer@, npub_pubkey(peer@), t),
{
    proof {
        reveal_strlit("ch:");
    }
    if str_starts_with(peer, "ch:") {
        send_target_for(peer, None)
    } else {
        send_target_for(peer, npub_key(peer))
    }
}

/// `after` is `before` with `e` added to the conversation under `key`, and
/// nothing else changed but the history.
pub open spec fn recorded(before: App, after: App, key: Seq<char>, e: ChatEntry) -> bool {
    &&& after.history.log() == before.history.log().insert(
        key,
        messages_of(before.history.log(), key).push(e),
    )
    &&& after.contacts == before.contacts
    &&& after.channels == before.channels
    &&& after.input == before.input
    &&& after.input_mode == before.input_mode
    &&& after.selected_contact == before.selected_contact
    &&& after.scroll_offset == before.scroll_offset
    &&& after.my_npub == before.my_npub
    &&& after.status_line == before.status_line
    &&& after.should_quit == before.should_quit
}

impl App {
    /// A new messenger state for the user `my_npub`.
    pub fn new(contacts: ContactBook, my_npub: String) -> (app: Self)
        ensures
            app.contacts == contacts,
            app.history.log() == Map::<Seq<char>, Seq<crate::chat::ChatEntry>>::empty(),
            app.channels@.len() == 0,
            app.input@.len() == 0,
            app.input_mode == InputMode::Normal,
            app.selected_contact == 0,
            selection_in_list(app),
            app.scroll_offset == 0,
            app.my_npub == my_npub,
            app.status_line@ == "Connecting..."@,
            !app.should_quit,
    {
        App {
            contacts,
            history: ChatHistory::new(),
            channels: Vec::new(),
            input: String::new(),
            input_mode: InputMode::Normal,
            selected_contact: 0,
            scroll_offset: 0,
            my_npub,
            status_line: "Connecting...".to_owned(),
            should_quit: false,
        }
    }

    /// The combined peer list: channels (`ch:` and the id), contacts, then
    /// conversation partners that are not contacts, the most recent first.
    pub fn peer_list(&self) -> (peers: Vec<String>)
        ensures
            is_peer_list(*self, str_views(peers@)),
            peers.len() == peer_count(*self),
    {
        let mut peers: Vec<String> = Vec::new();
        let mut i: usize = 0;
        while i < self.channels.len()
            invariant
                i <= self.channels.len(),
                str_views(peers@) == channel_keys(self.channels@).take(i as int),
            decreases self.channels.len() - i,
        {
            let mut k: Vec<char> = Vec::new();
            push_str(&mut k, "ch:");
            push_str(&mut k, self.channels[i].id.as_str());
            let ghost before = str_views(peers@);
            peers.push(string_from_chars(k.as_slice()));
            assert(str_views(peers@) =~= before.push(k@));
            assert(channel_keys(self.channels@).take(i + 1) =~= channel_keys(self.channels@).take(
                i as int,
            ).push(k@));
            i += 1;
        }
        assert(channel_keys(self.channels@).take(self.channels.len() as int) =~= channel_keys(
            self.channels@,
        ));
        let ghost chk = str_views(peers@);
        let mut j: usize = 0;
        while j < self.contacts.contacts.len()
            invariant
                j <= self.contacts.contacts.len(),
                chk == channel_keys(self.channels@),
                str_views(peers@) == chk + npubs(self.contacts.contacts@).take(j as int),
            decreases self.contacts.contacts.len() - j,
        {
            let ghost before = str_views(peers@);
            peers.push(self.contacts.contacts[j].npub.clone());
            assert(str_views(peers@) =~= before.push(self.contacts.contacts@[j as int].npub@));
            assert(npubs(self.contacts.contacts@).take(j + 1) =~= npubs(
                self.contacts.contacts@,
            ).take(j as int).push(self.contacts.contacts@[j as int].npub@));
            assert(str_views(peers@) =~= chk + npubs(self.contacts.contacts@).take(j + 1));
            j += 1;
        }
        assert(npubs(self.contacts.contacts@).take(self.contacts.contacts.len() as int) =~= npubs(
            self.contacts.contacts@,
        ));
        let ghost base = str_views(peers@);
        assert(base == base_peers(*self));
        let active = self.history.active_peers();
        let ghost act = str_views(active@);
        let mut k: usize = 0;
        assert(act.take(0) =~= Seq::<Seq<char>>::empty());
        while k < active.len()
            invariant
                k <= active.len(),
                act == str_views(active@),
                str_views(peers@) == add_missing(base, act.take(k as int)),
            decreases active.len() - k,
        {
            assert(act.take(k + 1).drop_last() =~= act.take(k as int));
            assert(act.take(k + 1).last() == active@[k as int]@);
            match find_key(&peers, active[k].as_str()) {
                Some(p) => {
                    assert(str_views(peers@)[p as int] == active@[k as int]@);
                },
                None => {
                    let ghost before = str_views(peers@);
                    peers.push(active[k].clone());
                    assert(str_views(peers@) =~= before.push(active@[k as int]@));
                },
            }
            k += 1;
        }
        assert(act.take(active.len() as int) =~= act);
        proof {
            lemma_peer_list_len(*self, str_views(peers@));
        }
        peers
    }

    /// The peer key of the selection: an npub for a conversation, `ch:` and
    /// the id for a channel; `None` when the selection is past the list.
    pub fn selected_peer_key(&self) -> (key: Option<String>)
        ensures
            exists|l: Seq<Seq<char>>|
                #[trigger] is_peer_list(*self, l) && match key {
                    Some(k) => self.selected_contact < l.len() && k@ == l[self.selected_contact as int],
                    None => self.selected_contact >= l.len(),
                },
    {
        let peers = self.peer_list();
        if self.selected_contact < peers.len() {
            Some(peers[self.selected_contact].clone())
        } else {
            None
        }
    }

    /// Whether the selection is a channel.
    pub fn selected_is_channel(&self) -> (b: bool)
        ensures
            exists|l: Seq<Seq<char>>|
                #[trigger] is_peer_list(*self, l) && b == (self.selected_contact < l.len()
                    && "ch:"@.is_prefix_of(l[self.selected_contact as int])),
    {
        match self.selected_peer_key() {
            Some(k) => str_starts_with(k.as_str(), "ch:"),
            None => false,
        }
    }

    /// The position of the first channel with id `id`.
    fn channel_position(&self, id: &[char]) -> (res: Option<usize>)
        ensures
            match res {
                Some(i) => is_first_channel(self.channels@, id@, i as int),
                None => !has_channel(self.channels@, id@),
            },
    {
        let mut i: usize = 0;
        while i < self.channels.len()
            invariant
                i <= self.channels.len(),
                forall|j: int| 0 <= j < i ==> self.channels@[j].id@ != id@,
            decreases self.channels.len() - i,
        {
            let cid = chars_of(self.channels[i].id.as_str());
            if crate::text::chars_eq(cid.as_slice(), id) {
                return Some(i);
            }
            i += 1;
        }
        None
    }

    /// The name shown for a peer key.
    pub fn peer_display_name(&self, key: &str) -> (name: String)
        requires
            peer_display_ok(*self, key@),
        ensures
            name@ == peer_display_spec(*self, key@),
    {
        proof {
            reveal_strlit("ch:");
        }
        if str_starts_with(key, "ch:") {
            let cs = chars_of(key);
            let id = sub_chars(cs.as_slice(), 3, cs.len());
            assert(id@ =~= key@.skip(3));
            match self.channel_position(id.as_slice()) {
                Some(i) => {
                    proof {
                        assert(has_channel(self.channels@, id@));
                        let k = choose|k: int| is_first_channel(self.channels@, id@, k);
                        assert(k == i);
                    }
                    self.channels[i].name.clone()
                },
                None => {
                    let ids = string_from_chars(id.as_slice());
                    let bytes = ids.as_str().as_bytes();
                    let mut out: Vec<char> = Vec::new();
                    push_str(&mut out, "#");
                    if bytes.len() <= 8 {
                        push_str(&mut out, ids.as_str());
                    } else {
                        let mut head: Vec<u8> = Vec::new();
                        let mut k: usize = 0;
                        while k < 8
                            invariant
                                k <= 8,
                                bytes@.len() > 8,
                                head@ == bytes@.take(k as int),
                            decreases 8 - k,
                        {
                            head.push(bytes[k]);
                            k += 1;
                            assert(head@ =~= bytes@.take(k as int));
                        }
                        proof {
                            broadcast use vstd::utf8::encode_utf8_valid_utf8;
                            broadcast use vstd::utf8::valid_utf8_split;

                            assert(bytes@.subrange(0, 8) =~= bytes@.take(8));
                            assert(valid_utf8(bytes@.subrange(0, 8)));
                        }
                        match crate::text::string_from_utf8(head) {
                            Some(s) => push_str(&mut out, s.as_str()),
                            None => {},
                        }
                    }
                    push_str(&mut out, "...");
                    string_from_chars(out.as_slice())
                },
            }
        } else {
            self.contacts.display_name(key)
        }
    }
}

impl App {
    /// Handles a key press: updates the input line, the mode and the
    /// selection, runs commands, and tells the event loop what else to do.
    pub fn on_key(&mut self, key: KeyInput) -> (action: KeyAction)
        ensures
            key_rel(*old(self), *final(self), key, action),
            app_step(*old(self), *final(self)),
            selection_in_list(*old(self)) ==> selection_in_list(*final(self)),
    {
        let action = self.apply_key(key);
        proof {
            if selection_in_list(*old(self)) {
                lemma_key_keeps_selection(*old(self), *self, key, action);
            }
        }
        action
    }

    /// The effect of a key press, without the law on the selection.
    fn apply_key(&mut self, key: KeyInput) -> (action: KeyAction)
        ensures
            key_rel(*old(self), *final(self), key, action),
    {
        match self.input_mode {
            InputMode::Normal => {
                match key {
                    KeyInput::Char { c, ctrl } => {
                        if c == 'q' || (c == 'c' && ctrl) {
                            self.should_quit = true;
                        } else if c == 'i' {
                            self.input_mode = InputMode::Editing;
                        } else if c == '/' {
                            self.input_mode = InputMode::Command;
                            self.input = "/".to_owned();
                        } else if c == 'k' {
                            if self.selected_contact > 0 {
                                self.selected_contact = self.selected_contact - 1;
                            }
                        } else if c == 'j' {
                            self.select_down();
                        }
                    },
                    KeyInput::Enter => {
                        self.input_mode = InputMode::Editing;
                    },
                    KeyInput::Up => {
                        if self.selected_contact > 0 {
                            self.selected_contact = self.selected_contact - 1;
                        }
                    },
                    KeyInput::Down => {
                        self.select_down();
                    },
                    _ => {},
                }
                KeyAction::Nothing
            },
            InputMode::Editing => {
                match key {
                    KeyInput::Enter => {
                        if self.input.as_str().is_empty() {
                            return KeyAction::Nothing;
                        }
                        match self.selected_peer_key() {
                            Some(peer) => {
                                let content = self.input.clone();
                                self.input = String::new();
                                KeyAction::SendDm { peer, content }
                            },
                            None => KeyAction::Nothing,
                        }
                    },
                    KeyInput::Esc => {
                        self.input = String::new();
                        self.input_mode = InputMode::Normal;
                        KeyAction::Nothing
                    },
                    KeyInput::Backspace => {
                        self.input = pop_string(&self.input);
                        KeyAction::Nothing
                    },
                    KeyInput::Char { c, .. } => {
                        self.input = push_string(&self.input, c);
                        KeyAction::Nothing
                    },
                    _ => KeyAction::Nothing,
                }
            },
            InputMode::Command => {
                match key {
                    KeyInput::Enter => {
                        let cmd = self.input.clone();
                        let save = handle_command(cmd.as_str(), self);
                        let ghost mid = *self;
                        self.input = String::new();
                        self.input_mode = InputMode::Normal;
                        if save {
                            KeyAction::SaveContacts
                        } else {
                            KeyAction::Nothing
                        }
                    },
                    KeyInput::Esc => {
                        self.input = String::new();
                        self.input_mode = InputMode::Normal;
                        KeyAction::Nothing
                    },
                    KeyInput::Backspace => {
                        self.input = pop_string(&self.input);
                        if self.input.as_str().is_empty() {
                            self.input_mode = InputMode::Normal;
                        }
                        KeyAction::Nothing
                    },
                    KeyInput::Char { c, .. } => {
                        self.input = push_string(&self.input, c);
                        KeyAction::Nothing
                    },
                    _ => KeyAction::Nothing,
                }
            },
        }
    }

    /// Moves the selection down, within the peer list.
    fn select_down(&mut self)
        ensures
            exists|l: Seq<Seq<char>>|
                #[trigger] is_peer_list(*old(self), l) && moved_to(
                    *old(self),
                    *final(self),
                    old(self).input@,
                    old(self).input_mode,
                    if old(self).selected_contact < l.len() - 1 {
                        old(self).selected_contact + 1
                    } else {
                        old(self).selected_contact as int
                    },
                    old(self).should_quit,
                ),
    {
        let n = self.peer_list().len();
        let max = if n > 0 {
            n - 1
        } else {
            0
        };
        if self.selected_contact < max {
            self.selected_contact = self.selected_contact + 1;
        }
    }

    /// Records a message that the user sends to `peer` and tells where it
    /// goes; a message for a peer that is neither a channel nor a valid npub
    /// is not recorded.
    pub fn send_message(&mut self, peer: &str, content: SigilMessage, timestamp: u64) -> (t:
        SendTarget)
        ensures
            send_target_spec(peer@, npub_pubkey(peer@), t),
            t is Unreachable ==> *final(self) == *old(self),
            message_step(*old(self), *final(self)),
            selection_in_list(*old(self)) ==> selection_in_list(*final(self)),
            !(t is Unreachable) ==> exists|e: ChatEntry|
                {
                    &&& e.from_me
                    &&& e.sender_npub@ == old(self).my_npub@
                    &&& e.content == content
                    &&& e.timestamp == timestamp
                    &&& #[trigger] recorded(*old(self), *final(self), peer@, e)
                },
    {
        let t = send_target(peer);
        match t {
            SendTarget::Unreachable => {},
            _ => {
                let entry = ChatEntry {
                    from_me: true,
                    sender_npub: self.my_npub.clone(),
                    content,
                    timestamp,
                };
                let ghost e = entry;
                self.history.add_message(peer, entry);
                assert(recorded(*old(self), *self, peer@, e));
                proof {
                    assert(old(self).history.log().dom().subset_of(self.history.log().dom()));
                    lemma_peer_count_grows(*old(self), *self);
                }
            },
        }
        t
    }

    /// Records a message received in the channel `channel_id`, under the
    /// peer key `ch:` and the id; it is the user's own when its sender is
    /// the user.
    pub fn receive_channel(
        &mut self,
        channel_id: &str,
        sender_npub: &str,
        content: SigilMessage,
        timestamp: u64,
    )
        ensures
            exists|e: ChatEntry|
                {
                    &&& e.from_me == (sender_npub@ == old(self).my_npub@)
                    &&& e.sender_npub@ == sender_npub@
                    &&& e.content == content
                    &&& e.timestamp == timestamp
                    &&& #[trigger] recorded(*old(self), *final(self), "ch:"@ + channel_id@, e)
                },
            message_step(*old(self), *final(self)),
            selection_in_list(*old(self)) ==> selection_in_list(*final(self)),
    {
        let mut key: Vec<char> = Vec::new();
        push_str(&mut key, "ch:");
        push_str(&mut key, channel_id);
        let key = string_from_chars(key.as_slice());
        let entry = ChatEntry {
            from_me: str_eq(sender_npub, self.my_npub.as_str()),
            sender_npub: sender_npub.to_owned(),
            content,
            timestamp,
        };
        let ghost e = entry;
        self.history.add_message(key.as_str(), entry);
        assert(recorded(*old(self), *self, "ch:"@ + channel_id@, e));
        proof {
            assert(old(self).history.log().dom().subset_of(self.history.log().dom()));
            lemma_peer_count_grows(*old(self), *self);
        }
    }

    /// Whether `peer_display_name` accepts `key`: it cuts no text inside a
    /// character.
    pub fn peer_display_valid(&self, key: &str) -> (b: bool)
        ensures
            b == peer_display_ok(*self, key@),
    {
        proof {
            reveal_strlit("ch:");
        }
        if str_starts_with(key, "ch:") {
            let cs = chars_of(key);
            let idc = sub_chars(cs.as_slice(), 3, cs.len());
            assert(idc@ =~= key@.skip(3));
            match self.channel_position(idc.as_slice()) {
                Some(_) => true,
                None => {
                    let id = string_from_chars(idc.as_slice());
                    id.as_str().as_bytes().len() <= 8 || id.as_str().is_char_boundary(8)
                },
            }
        } else {
            self.contacts.display_name_valid(key)
        }
    }

    /// Records a direct message received from `sender_npub`; when it makes
    /// the peer list a single entry, that entry is selected.
    pub fn receive_dm(&mut self, sender_npub: &str, content: SigilMessage, timestamp: u64)
        ensures
            exists|e: ChatEntry|
                {
                    &&& e.sender_npub@ == sender_npub@
                    &&& !e.from_me
                    &&& e.content == content
                    &&& e.timestamp == timestamp
                    &&& final(self).history.log() == old(self).history.log().insert(
                        sender_npub@,
                        messages_of(old(self).history.log(), sender_npub@).push(e),
                    )
                },
            exists|l: Seq<Seq<char>>|
                #[trigger] is_peer_list(*final(self), l) && final(self).selected_contact == (if l.len()
                    == 1 {
                    0
                } else {
                    old(self).selected_contact as int
                }),
            final(self).contacts == old(self).contacts,
            final(self).channels == old(self).channels,
            final(self).input == old(self).input,
            final(self).input_mode == old(self).input_mode,
            final(self).scroll_offset == old(self).scroll_offset,
            final(self).my_npub == old(self).my_npub,
            final(self).status_line == old(self).status_line,
            final(self).should_quit == old(self).should_quit,
            message_step(*old(self), *final(self)),
            selection_in_list(*old(self)) ==> selection_in_list(*final(self)),
    {
        let entry = ChatEntry {
            from_me: false,
            sender_npub: sender_npub.to_owned(),
            content,
            timestamp,
        };
        let ghost e = entry;
        self.history.add_message(sender_npub, entry);
        let peers = self.peer_list();
        let ghost l = str_views(peers@);
        let ghost mid = *self;
        if peers.len() == 1 {
            self.selected_contact = 0;
        }
        proof {
            let a = choose|a: Seq<Seq<char>>|
                is_recency_order(mid.history.log(), a) && l == add_missing(base_peers(mid), a);
            assert(base_peers(*self) == base_peers(mid));
            assert(is_recency_order(self.history.log(), a) && l == add_missing(
                base_peers(*self),
                a,
            ));
            assert(is_peer_list(*self, l));
            assert(self.history == mid.history);
            assert(e.sender_npub@ == sender_npub@);
            assert(self.history.log() == old(self).history.log().insert(
                sender_npub@,
                messages_of(old(self).history.log(), sender_npub@).push(e),
            ));
            assert(old(self).history.log().dom().subset_of(self.history.log().dom()));
            lemma_peer_count_grows(*old(self), *self);
        }
    }
}

/// Runs an in-app command (`/add`, `/whoami`, `/quit`, `/q`, `/help`) and
/// sets the status line. Returns true when the contacts changed and must be
/// saved.
pub fn handle_command(cmd: &str, app: &mut App) -> (save: bool)
    ensures
        command_rel(*old(app), *final(app), cmd@, save),
        selection_in_list(*old(app)) ==> selection_in_list(*final(app)),
{
    let save = run_command(cmd, app);
    proof {
        lemma_command_contacts(*old(app), *app, cmd@, save);
        lemma_peer_count_grows(*old(app), *app);
    }
    save
}

/// The effect of a command, without the law on the selection.
fn run_command(cmd: &str, app: &mut App) -> (save: bool)
    ensures
        command_rel(*old(app), *final(app), cmd@, save),
{
    let cs = chars_of(cmd);
    let t = trim_chars(cs.as_slice());
    let parts = splitn3_chars(t.as_slice());
    let ghost pv = crate::text::views(parts@);
    assert(pv.len() >= 1);
    let head = &parts[0];
    let k_add = chars_of("/add");
    let k_whoami = chars_of("/whoami");
    let k_quit = chars_of("/quit");
    let k_q = chars_of("/q");
    let k_help = chars_of("/help");
    if crate::text::chars_eq(head.as_slice(), k_add.as_slice()) {
        if parts.len() >= 2 {
            let address = &parts[1];
            let addr = string_from_chars(address.as_slice());
            let p_uri = chars_of("sigil://");
            let p_npub = chars_of("npub");
            if starts_with(address.as_slice(), p_uri.as_slice()) {
                let res = app.contacts.add_from_uri(addr.as_str());
                match res {
                    Some(c) => {
                        let mut out: Vec<char> = Vec::new();
                        push_str(&mut out, "Added agent: ");
                        push_str(&mut out, c.name.as_str());
                        app.status_line = string_from_chars(out.as_slice());
                        proof {
                            let r = Some(c);
                            assert(add_uri_rel(
                                old(app).contacts.contacts@,
                                app.contacts.contacts@,
                                pv[1],
                                r,
                            ));
                        }
                        true
                    },
                    None => {
                        app.status_line = "Already exists or invalid URI".to_owned();
                        proof {
                            let r = None::<Contact>;
                            assert(add_uri_rel(
                                old(app).contacts.contacts@,
                                app.contacts.contacts@,
                                pv[1],
                                r,
                            ));
                        }
                        false
                    },
                }
            } else if starts_with(address.as_slice(), p_npub.as_slice()) {
                let name = if parts.len() >= 3 {
                    string_from_chars(parts[2].as_slice())
                } else {
                    "Unknown".to_owned()
                };
                let added = app.contacts.add_npub(addr.as_str(), name.as_str());
                if added {
                    let mut out: Vec<char> = Vec::new();
                    push_str(&mut out, "Added: ");
                    push_str(&mut out, name.as_str());
                    app.status_line = string_from_chars(out.as_slice());
                } else {
                    app.status_line = "Already exists.".to_owned();
                }
                added
            } else {
                app.status_line = "Usage: /add <npub|sigil://...> [name]".to_owned();
                false
            }
        } else {
            app.status_line = "Usage: /add <npub|sigil://...> [name]".to_owned();
            false
        }
    } else if crate::text::chars_eq(head.as_slice(), k_whoami.as_slice()) {
        let mut out: Vec<char> = Vec::new();
        push_str(&mut out, "npub: ");
        push_str(&mut out, app.my_npub.as_str());
        app.status_line = string_from_chars(out.as_slice());
        false
    } else if crate::text::chars_eq(head.as_slice(), k_quit.as_slice())
        || crate::text::chars_eq(head.as_slice(), k_q.as_slice()) {
        app.should_quit = true;
        false
    } else if crate::text::chars_eq(head.as_slice(), k_help.as_slice()) {
        app.status_line = "/add <addr> [name] | /whoami | /quit | j/k=nav | i=type | q=quit".to_owned();
        false
    } else {
        let mut out: Vec<char> = Vec::new();
        push_str(&mut out, "Unknown command: ");
        push_str(&mut out, cmd);
        app.status_line = string_from_chars(out.as_slice());
        false
    }
}

} // verus!

//! What the terminal messenger shows: the rows of the peer list, the title
//! of the conversation, the lines of each message, the part of the
//! conversation that fits, and the status line's npub. The application
//! paints these with its terminal toolkit.
use crate::chat::{messages_of, render_spec, render_tui_for_terminal, ChatEntry};
use crate::contacts::{
    display_name_ok, display_name_spec, is_first_contact, npubs, Contact, ContactBook,
};
use crate::message::SigilMessage;
use crate::table::str_views;
use crate::text::{chars_of, push_str, str_starts_with, string_from_chars, string_from_utf8};
use crate::ui::{peer_display_ok, peer_display_spec, App};
use vstd::prelude::*;
use vstd::utf8::{decode_utf8, encode_utf8, is_char_boundary, valid_utf8};

verus! {

broadcast use vstd::string::group_string_axioms;

/// How a row of the peer list is shown.
#[derive(Debug, Clone, Copy, PartialEq, Eq, Structural)]
pub enum RowStyle {
    /// The selected row.
    Selected,
    /// A channel.
    Channel,
    /// A conversation whose last message came from the peer.
    Unread,
    /// Any other row.
    Plain,
}

/// The colour role of a piece of text in a conversation.
#[derive(Debug, Clone, Copy, PartialEq, Eq, Structural)]
pub enum Tone {
    /// The user's own name.
    Mine,
    /// A peer's name.
    Theirs,
    /// Message text.
    Body,
    /// A line of a rendered TUI message.
    Widget,
    /// A button callback.
    Muted,
}

/// A piece of text with its colour role.
#[derive(Debug, Clone)]
pub struct Span {
    pub text: String,
    pub tone: Tone,
}

// ---------------------------------------------------------------------------
// Specifications
// ---------------------------------------------------------------------------

/// The key is the npub of a contact whose first entry is an agent.
pub open spec fn is_agent_contact(book: ContactBook, key: Seq<char>) -> bool {
    npubs(book.contacts@).contains(key) && book.contacts@[choose|i: int|
        is_first_contact(book.contacts@, key, i)].is_agent
}

/// The mark in front of a peer: `# ` for a channel, a gear for an agent,
/// two spaces for anyone else.
pub open spec fn row_prefix(app: App, key: Seq<char>) -> Seq<char> {
    if "ch:"@.is_prefix_of(key) {
        "# "@
    } else if is_agent_contact(app.contacts, key) {
        "\u{2699} "@
    } else {
        "  "@
    }
}

/// The last message of the conversation came from the peer.
pub open spec fn has_unread(app: App, key: Seq<char>) -> bool {
    let m = messages_of(app.history.log(), key);
    m.len() > 0 && !m.last().from_me
}

/// The style of row `index`, showing `key`.
pub open spec fn row_style(app: App, index: int, key: Seq<char>) -> RowStyle {
    if index == app.selected_contact {
        RowStyle::Selected
    } else if "ch:"@.is_prefix_of(key) {
        RowStyle::Channel
    } else if has_unread(app, key) {
        RowStyle::Unread
    } else {
        RowStyle::Plain
    }
}

/// The title of the conversation with `key`: the peer's name padded with a
/// space on each side, after `# ` for a channel or a gear for an agent.
pub open spec fn chat_title_spec(app: App, key: Option<Seq<char>>) -> Seq<char> {
    match key {
        Some(k) => if "ch:"@.is_prefix_of(k) {
            " # "@ + peer_display_spec(app, k) + " "@
        } else if is_agent_contact(app.contacts, k) {
            " \u{2699} "@ + peer_display_spec(app, k) + " "@
        } else {
            " "@ + peer_display_spec(app, k) + " "@
        },
        None => " No conversation selected "@,
    }
}

/// The views of a line's pieces.
pub open spec fn line_view(line: Seq<Span>) -> Seq<(Seq<char>, Tone)> {
    line.map_values(|s: Span| (s.text@, s.tone))
}

/// The views of lines.
pub open spec fn lines_view(lines: Seq<Vec<Span>>) -> Seq<Seq<(Seq<char>, Tone)>> {
    lines.map_values(|l: Vec<Span>| line_view(l@))
}

/// Who sent a message: `You`, or the peer's display name.
pub open spec fn sender_name(entry: ChatEntry, book: ContactBook) -> Seq<char> {
    if entry.from_me {
        "You"@
    } else {
        display_name_spec(book.contacts@, entry.sender_npub@)
    }
}

/// The tone of the sender's name.
pub open spec fn sender_tone(entry: ChatEntry) -> Tone {
    if entry.from_me {
        Tone::Mine
    } else {
        Tone::Theirs
    }
}

/// The lines of a message: the sender and the text on one line; for a TUI
/// message, the sender on a line of its own and then each rendered line
/// indented by two spaces; a button callback as `[callback: id]`; a file as
/// `[file: url]`.
pub open spec fn entry_lines_spec(entry: ChatEntry, book: ContactBook) -> Seq<
    Seq<(Seq<char>, Tone)>,
> {
    let who = sender_name(entry, book);
    let tone = sender_tone(entry);
    match entry.content {
        SigilMessage::Text(t) => seq![seq![(who + ": "@, tone), (t@, Tone::Body)]],
        SigilMessage::Tui(tui) => seq![seq![(who + ":"@, tone)]] + render_spec(tui).map_values(
            |l: Seq<char>| seq![("  "@ + l, Tone::Widget)],
        ),
        SigilMessage::ButtonCallback { button_id } => seq![
            seq![(who + ": "@, tone), ("[callback: "@ + button_id@ + "]"@, Tone::Muted)],
        ],
        SigilMessage::File(f) => seq![
            seq![(who + ": "@, tone), ("[file: "@ + f.url@ + "]"@, Tone::Muted)],
        ],
    }
}

/// The index of the first line shown when `total` lines are drawn in a box
/// `height` rows high with a border above and below: the last lines that fit.
pub open spec fn visible_from(total: nat, height: u16) -> int {
    let rows: int = if height >= 2 {
        height - 2
    } else {
        0
    };
    if total > rows {
        total - rows
    } else {
        0
    }
}

/// The npub on the status line: its first 20 bytes and `...` when it is
/// longer than that.
pub open spec fn short_npub_spec(npub: Seq<char>) -> Seq<char> {
    if encode_utf8(npub).len() > 20 {
        decode_utf8(encode_utf8(npub).take(20)) + "..."@
    } else {
        npub
    }
}

// ---------------------------------------------------------------------------
// Executable functions
// ---------------------------------------------------------------------------

/// Whether `key` is the npub of a contact whose first entry is an agent.
fn agent_contact(book: &ContactBook, key: &str) -> (b: bool)
    ensures
        b == is_agent_contact(*book, key@),
{
    match book.find(key) {
        Some(c) => {
            proof {
                let i = choose|i: int|
                    is_first_contact(book.contacts@, key@, i) && *c == book.contacts@[i];
                let k = choose|k: int| is_first_contact(book.contacts@, key@, k);
                assert(k == i);
                assert(npubs(book.contacts@)[i] == key@);
            }
            c.is_agent
        },
        None => false,
    }
}

/// A piece of text.
fn span(text: String, tone: Tone) -> (s: Span)
    ensures
        s.text@ == text@,
        s.tone == tone,
{
    Span { text, tone }
}

/// Two texts joined.
fn joined2(a: &str, b: &str) -> (s: String)
    ensures
        s@ == a@ + b@,
{
    let mut out: Vec<char> = Vec::new();
    push_str(&mut out, a);
    push_str(&mut out, b);
    string_from_chars(out.as_slice())
}

/// Three texts joined.
fn joined(a: &str, b: &str, c: &str) -> (s: String)
    ensures
        s@ == a@ + b@ + c@,
{
    let mut out: Vec<char> = Vec::new();
    push_str(&mut out, a);
    push_str(&mut out, b);
    push_str(&mut out, c);
    string_from_chars(out.as_slice())
}

impl App {
    /// The label and style of row `index` of the peer list, showing `key`.
    pub fn contact_row(&self, index: usize, key: &str) -> (row: (String, RowStyle))
        requires
            peer_display_ok(*self, key@),
        ensures
            row.0@ == row_prefix(*self, key@) + peer_display_spec(*self, key@),
            row.1 == row_style(*self, index as int, key@),
    {
        proof {
            reveal_strlit("ch:");
            reveal_strlit("# ");
            reveal_strlit("\u{2699} ");
            reveal_strlit("  ");
        }
        let is_channel = str_starts_with(key, "ch:");
        let name = self.peer_display_name(key);
        let prefix = if is_channel {
            "# "
        } else if agent_contact(&self.contacts, key) {
            "\u{2699} "
        } else {
            "  "
        };
        let label = joined2(prefix, name.as_str());
        let msgs = self.history.get_messages(key);
        let unread = msgs.len() > 0 && !msgs[msgs.len() - 1].from_me;
        let style = if index == self.selected_contact {
            RowStyle::Selected
        } else if is_channel {
            RowStyle::Channel
        } else if unread {
            RowStyle::Unread
        } else {
            RowStyle::Plain
        };
        (label, style)
    }

    /// The title of the conversation with `key` (the selected peer key).
    pub fn chat_title(&self, key: Option<&str>) -> (title: String)
        requires
            key matches Some(k) ==> peer_display_ok(*self, k@),
        ensures
            title@ == chat_title_spec(
                *self,
                match key {
                    Some(k) => Some(k@),
                    None => None,
                },
            ),
    {
        match key {
            Some(k) => {
                let name = self.peer_display_name(k);
                if str_starts_with(k, "ch:") {
                    joined(" # ", name.as_str(), " ")
                } else if agent_contact(&self.contacts, k) {
                    joined(" \u{2699} ", name.as_str(), " ")
                } else {
                    joined(" ", name.as_str(), " ")
                }
            },
            None => " No conversation selected ".to_owned(),
        }
    }

    /// The npub shown on the status line.
    pub fn status_npub(&self) -> (s: String)
        requires
            encode_utf8(self.my_npub@).len() > 20 ==> is_char_boundary(
                encode_utf8(self.my_npub@),
                20,
            ),
        ensures
            s@ == short_npub_spec(self.my_npub@),
    {
        shortened(self.my_npub.as_str())
    }
}

/// Whether a text can be cut to its first 20 bytes without cutting a
/// character (as `status_npub` and `listing_line` require of an npub).
pub fn cut_valid(text: &str) -> (b: bool)
    ensures
        b == (encode_utf8(text@).len() > 20 ==> is_char_boundary(encode_utf8(text@), 20)),
{
    text.as_bytes().len() <= 20 || text.is_char_boundary(20)
}

/// A text cut to its first 20 bytes and `...` when it is longer.
fn shortened(text: &str) -> (s: String)
    requires
        encode_utf8(text@).len() > 20 ==> is_char_boundary(encode_utf8(text@), 20),
    ensures
        s@ == short_npub_spec(text@),
{
    let bytes = text.as_bytes();
    if bytes.len() > 20 {
        let mut head: Vec<u8> = Vec::new();
        let mut k: usize = 0;
        while k < 20
            invariant
                k <= 20,
                bytes@.len() > 20,
                head@ == bytes@.take(k as int),
            decreases 20 - k,
        {
            head.push(bytes[k]);
            k += 1;
            assert(head@ =~= bytes@.take(k as int));
        }
        proof {
            broadcast use vstd::utf8::encode_utf8_valid_utf8;
            broadcast use vstd::utf8::valid_utf8_split;

            assert(valid_utf8(bytes@));
            assert(bytes@.subrange(0, 20) =~= bytes@.take(20));
            assert(valid_utf8(bytes@.subrange(0, 20)));
        }
        match string_from_utf8(head) {
            Some(cut) => joined2(cut.as_str(), "..."),
            None => text.to_owned(),
        }
    } else {
        text.to_owned()
    }
}

/// The line listing a contact: a gear for an agent (a space otherwise), the
/// name, and the npub cut to 20 bytes in brackets.
pub open spec fn listing_spec(c: Contact) -> Seq<char> {
    "  "@ + (if c.is_agent {
        "\u{2699}"@
    } else {
        " "@
    }) + " "@ + c.name@ + " ("@ + short_npub_spec(c.npub@) + ")"@
}

/// The line listing a contact in the contact list.
pub fn listing_line(c: &Contact) -> (line: String)
    requires
        encode_utf8(c.npub@).len() > 20 ==> is_char_boundary(encode_utf8(c.npub@), 20),
    ensures
        line@ == listing_spec(*c),
{
    let short = shortened(c.npub.as_str());
    let mut out: Vec<char> = Vec::new();
    push_str(&mut out, "  ");
    if c.is_agent {
        push_str(&mut out, "\u{2699}");
    } else {
        push_str(&mut out, " ");
    }
    push_str(&mut out, " ");
    push_str(&mut out, c.name.as_str());
    push_str(&mut out, " (");
    push_str(&mut out, short.as_str());
    push_str(&mut out, ")");
    proof {
        assert(out@ =~= listing_spec(*c));
    }
    string_from_chars(out.as_slice())
}

/// The lines showing one message of a conversation.
pub fn render_entry(entry: &ChatEntry, book: &ContactBook) -> (lines: Vec<Vec<Span>>)
    requires
        !entry.from_me ==> display_name_ok(book.contacts@, entry.sender_npub@),
    ensures
        lines_view(lines@) == entry_lines_spec(*entry, *book),
{
    let who = if entry.from_me {
        "You".to_owned()
    } else {
        book.display_name(entry.sender_npub.as_str())
    };
    let tone = if entry.from_me {
        Tone::Mine
    } else {
        Tone::Theirs
    };
    let mut lines: Vec<Vec<Span>> = Vec::new();
    match &entry.content {
        SigilMessage::Text(t) => {
            let mut line: Vec<Span> = Vec::new();
            line.push(span(joined2(who.as_str(), ": "), tone));
            line.push(span(t.clone(), Tone::Body));
            assert(line_view(line@) =~= seq![(who@ + ": "@, tone), (t@, Tone::Body)]);
            lines.push(line);
        },
        SigilMessage::Tui(tui) => {
            let mut head: Vec<Span> = Vec::new();
            head.push(span(joined2(who.as_str(), ":"), tone));
            assert(line_view(head@) =~= seq![(who@ + ":"@, tone)]);
            lines.push(head);
            let rendered = render_tui_for_terminal(tui);
            let ghost r = render_spec(*tui);
            let ghost first = lines_view(lines@);
            let mut i: usize = 0;
            while i < rendered.len()
                invariant
                    i <= rendered.len(),
                    str_views(rendered@) == r,
                    lines_view(lines@) == first + r.take(i as int).map_values(
                        |l: Seq<char>| seq![("  "@ + l, Tone::Widget)],
                    ),
                decreases rendered.len() - i,
            {
                let mut line: Vec<Span> = Vec::new();
                line.push(span(joined2("  ", rendered[i].as_str()), Tone::Widget));
                assert(rendered@[i as int]@ == r[i as int]);
                assert(line_view(line@) =~= seq![("  "@ + r[i as int], Tone::Widget)]);
                let ghost before = lines_view(lines@);
                lines.push(line);
                assert(lines_view(lines@) =~= before.push(seq![("  "@ + r[i as int], Tone::Widget)]));
                assert(r.take(i + 1).map_values(|l: Seq<char>| seq![("  "@ + l, Tone::Widget)])
                    =~= r.take(i as int).map_values(
                    |l: Seq<char>| seq![("  "@ + l, Tone::Widget)],
                ).push(seq![("  "@ + r[i as int], Tone::Widget)]));
                i += 1;
            }
            assert(r.take(rendered.len() as int) =~= r);
        },
        SigilMessage::ButtonCallback { button_id } => {
            let mut line: Vec<Span> = Vec::new();
            line.push(span(joined2(who.as_str(), ": "), tone));
            line.push(span(joined("[callback: ", button_id.as_str(), "]"), Tone::Muted));
            assert(line_view(line@) =~= seq![
                (who@ + ": "@, tone),
                ("[callback: "@ + button_id@ + "]"@, Tone::Muted),
            ]);
            lines.push(line);
        },
        SigilMessage::File(f) => {
            let mut line: Vec<Span> = Vec::new();
            line.push(span(joined2(who.as_str(), ": "), tone));
            line.push(span(joined("[file: ", f.url.as_str(), "]"), Tone::Muted));
            assert(line_view(line@) =~= seq![
                (who@ + ": "@, tone),
                ("[file: "@ + f.url@ + "]"@, Tone::Muted),
            ]);
            lines.push(line);
        },
    }
    assert(lines_view(lines@) =~= entry_lines_spec(*entry, *book));
    lines
}

/// The index of the first of `total` lines shown in a box `height` rows
/// high: the last lines that fit inside its borders.
pub fn visible_start(total: usize, height: u16) -> (start: usize)
    ensures
        start == visible_from(total as nat, height),
{
    let rows: usize = if height >= 2 {
        (height - 2) as usize
    } else {
        0
    };
    if total > rows {
        total - rows
    } else {
        0
    }
}

} // verus!

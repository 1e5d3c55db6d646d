//! Conversation history and the terminal rendering of TUI messages.
use crate::message::SigilMessage;
use crate::table::{
    assoc, find_key, lemma_assoc_dom, lemma_assoc_finite, lemma_assoc_index, lemma_assoc_push, lemma_assoc_update,
    str_views,
};
use crate::text::{decimal, push_all, push_decimal, push_str, string_from_chars, chars_of};
use crate::tui::{TuiButton, TuiMessage};
use vstd::prelude::*;

verus! {

broadcast use vstd::string::group_string_axioms;

// ===========================================================================
// Rendering of TUI messages
// ===========================================================================

/// The parts joined by `sep`.
pub open spec fn seq_join(parts: Seq<Seq<char>>, sep: Seq<char>) -> Seq<char>
    decreases parts.len(),
{
    if parts.len() == 0 {
        Seq::empty()
    } else if parts.len() == 1 {
        parts[0]
    } else {
        seq_join(parts.drop_last(), sep) + sep + parts.last()
    }
}

/// The buttons of a button row: ` [n] label ` for the n-th button.
pub open spec fn button_labels(items: Seq<TuiButton>) -> Seq<Seq<char>> {
    Seq::new(items.len(), |i: int| " ["@ + decimal((i + 1) as nat) + "] "@ + items[i].label@ + " "@)
}

/// The actions of a card: `[n] label` for the n-th action.
pub open spec fn action_labels(items: Seq<TuiButton>) -> Seq<Seq<char>> {
    Seq::new(items.len(), |i: int| "["@ + decimal((i + 1) as nat) + "] "@ + items[i].label@)
}

/// `s` padded on the right with spaces to at least `width` characters
/// (what `{:<width}` writes).
pub open spec fn pad_right(s: Seq<char>, width: nat) -> Seq<char> {
    if s.len() >= width {
        s
    } else {
        s + Seq::new((width - s.len()) as nat, |i: int| ' ')
    }
}

/// A table row: two spaces, the key padded to 16 characters, a space, the value.
pub open spec fn table_line(k: Seq<char>, v: Seq<char>) -> Seq<char> {
    "  "@ + pad_right(k, 16) + " "@ + v
}

/// The lines of an optional text.
pub open spec fn opt_line(t: Option<String>) -> Seq<Seq<char>> {
    match t {
        Some(s) => seq![s@],
        None => Seq::empty(),
    }
}

/// The description line of a card.
pub open spec fn card_description_lines(d: Option<String>) -> Seq<Seq<char>> {
    match d {
        Some(d) => seq!["│ "@ + d@],
        None => Seq::empty(),
    }
}

/// The action line of a card.
pub open spec fn card_action_lines(a: Option<Vec<TuiButton>>) -> Seq<Seq<char>> {
    match a {
        Some(a) => seq!["│ "@ + seq_join(action_labels(a@), "  "@)],
        None => Seq::empty(),
    }
}

/// The title line of a table.
pub open spec fn table_title_lines(t: Option<String>) -> Seq<Seq<char>> {
    match t {
        Some(t) => seq!["── "@ + t@ + " ──"@],
        None => Seq::empty(),
    }
}

/// The rows of a table.
pub open spec fn table_lines(rows: Seq<(String, String)>) -> Seq<Seq<char>> {
    Seq::new(rows.len(), |i: int| table_line(rows[i].0@, rows[i].1@))
}

/// The terminal lines for a TUI message.
pub open spec fn render_spec(tui: TuiMessage) -> Seq<Seq<char>> {
    match tui {
        TuiMessage::Text { content } => seq![content@],
        TuiMessage::Buttons { text, items } => opt_line(text) + seq![
            seq_join(button_labels(items@), "  "@),
        ],
        TuiMessage::Card { title, description, actions, .. } => seq!["┌─ "@ + title@ + " ─┐"@]
            + card_description_lines(description) + card_action_lines(actions) + seq![
            "└────────┘"@,
        ],
        TuiMessage::Table { title, rows } => table_title_lines(title) + table_lines(rows@),
    }
}

/// Joining puts the separator between consecutive parts and nowhere else:
/// the result is the first part, then the separator and the part for each
/// later part, in order.
pub proof fn lemma_seq_join_flat(parts: Seq<Seq<char>>, sep: Seq<char>)
    ensures
        seq_join(parts, sep) == Seq::new(
            parts.len(),
            |i: int|
                if i == 0 {
                    parts[0]
                } else {
                    sep + parts[i]
                },
        ).flatten(),
    decreases parts.len(),
{
    let w = Seq::new(
        parts.len(),
        |i: int|
            if i == 0 {
                parts[0]
            } else {
                sep + parts[i]
            },
    );
    if parts.len() == 0 {
        assert(w =~= Seq::<Seq<char>>::empty());
    } else if parts.len() == 1 {
        w.lemma_flatten_singleton();
    } else {
        let init = parts.drop_last();
        lemma_seq_join_flat(init, sep);
        let wi = Seq::new(
            init.len(),
            |i: int|
                if i == 0 {
                    init[0]
                } else {
                    sep + init[i]
                },
        );
        assert(w =~= wi.push(sep + parts.last()));
        wi.lemma_flatten_push(sep + parts.last());
        assert(seq_join(parts, sep) =~= wi.flatten() + (sep + parts.last()));
    }
}

/// How each kind of TUI message is drawn:
/// - a text is its one line;
/// - a button row is its text line, if any, then one line of ` [n] label `
///   for the n-th button, joined by two spaces;
/// - a card is the line `┌─ title ─┐`, then `│ description` when it has a
///   description, then, whether or not it has one, `│ ` followed by
///   `[n] label` for the n-th action joined by two spaces when it has
///   actions, and last `└────────┘`;
/// - a table is its title line `── title ──`, if any, then one line per row:
///   two spaces, the key padded with spaces to 16 characters, a space and
///   the value.
pub proof fn lemma_render_laws(tui: TuiMessage)
    ensures
        tui matches TuiMessage::Text { content } ==> render_spec(tui) == seq![content@],
        tui matches TuiMessage::Buttons { text, items } ==> {
            let lines = render_spec(tui);
            &&& lines.len() == (if text is Some {
                2int
            } else {
                1int
            })
            &&& (text is Some ==> lines[0] == text->0@)
            &&& lines.last() == seq_join(
                Seq::new(
                    items@.len(),
                    |i: int| " ["@ + decimal((i + 1) as nat) + "] "@ + items@[i].label@ + " "@,
                ),
                "  "@,
            )
        },
        tui matches TuiMessage::Card { title, description, actions, .. } ==> {
            let lines = render_spec(tui);
            &&& lines.len() == 2 + (if description is Some {
                1int
            } else {
                0int
            }) + (if actions is Some {
                1int
            } else {
                0int
            })
            &&& lines[0] == "┌─ "@ + title@ + " ─┐"@
            &&& lines.last() == "└────────┘"@
            &&& (description is Some ==> lines[1] == "│ "@ + description->0@)
            &&& (actions is Some ==> lines[lines.len() - 2] == "│ "@ + seq_join(
                Seq::new(
                    actions->0@.len(),
                    |i: int| "["@ + decimal((i + 1) as nat) + "] "@ + actions->0@[i].label@,
                ),
                "  "@,
            ))
        },
        tui matches TuiMessage::Table { title, rows } ==> {
            let lines = render_spec(tui);
            let off = if title is Some {
                1int
            } else {
                0int
            };
            &&& lines.len() == off + rows@.len()
            &&& (title is Some ==> lines[0] == "── "@ + title->0@ + " ──"@)
            &&& forall|i: int|
                0 <= i < rows@.len() ==> #[trigger] lines[off + i] == "  "@ + rows@[i].0@
                    + Seq::new(
                    if rows@[i].0@.len() < 16 {
                        (16 - rows@[i].0@.len()) as nat
                    } else {
                        0nat
                    },
                    |j: int| ' ',
                ) + " "@ + rows@[i].1@
        },
{
    match tui {
        TuiMessage::Text { .. } => {},
        TuiMessage::Buttons { text, items } => {
            assert(button_labels(items@) =~= Seq::new(
                items@.len(),
                |i: int| " ["@ + decimal((i + 1) as nat) + "] "@ + items@[i].label@ + " "@,
            ));
        },
        TuiMessage::Card { title, description, actions, .. } => {
            if let Some(a) = actions {
                assert(action_labels(a@) =~= Seq::new(
                    a@.len(),
                    |i: int| "["@ + decimal((i + 1) as nat) + "] "@ + a@[i].label@,
                ));
            }
        },
        TuiMessage::Table { title, rows } => {
            let lines = render_spec(tui);
            let off = if title is Some {
                1int
            } else {
                0int
            };
            assert forall|i: int| 0 <= i < rows@.len() implies #[trigger] lines[off + i] == "  "@
                + rows@[i].0@ + Seq::new(
                if rows@[i].0@.len() < 16 {
                    (16 - rows@[i].0@.len()) as nat
                } else {
                    0nat
                },
                |j: int| ' ',
            ) + " "@ + rows@[i].1@ by {
                assert(lines[off + i] == table_lines(rows@)[i]);
                let k = rows@[i].0@;
                if k.len() >= 16 {
                    assert(k + Seq::<char>::new(0nat, |j: int| ' ') =~= k);
                }
            }
        },
    }
}

/// The numbered labels of buttons joined by two spaces: ` [n] label ` in a
/// button row (`spaced`), `[n] label` among a card's actions.
fn join_buttons(items: &Vec<TuiButton>, spaced: bool) -> (out: Vec<char>)
    ensures
        spaced ==> out@ == seq_join(button_labels(items@), "  "@),
        !spaced ==> out@ == seq_join(action_labels(items@), "  "@),
{
    let ghost parts = if spaced {
        button_labels(items@)
    } else {
        action_labels(items@)
    };
    let mut out: Vec<char> = Vec::new();
    let mut i: usize = 0;
    assert(parts.take(0) =~= Seq::<Seq<char>>::empty());
    while i < items.len()
        invariant
            i <= items.len(),
            parts.len() == items.len(),
            parts == (if spaced {
                button_labels(items@)
            } else {
                action_labels(items@)
            }),
            out@ == seq_join(parts.take(i as int), "  "@),
        decreases items.len() - i,
    {
        let ghost before = out@;
        if i > 0 {
            push_str(&mut out, "  ");
        }
        if spaced {
            push_str(&mut out, " [");
        } else {
            push_str(&mut out, "[");
        }
        push_decimal(&mut out, (i + 1) as u64);
        push_str(&mut out, "] ");
        push_str(&mut out, items[i].label.as_str());
        if spaced {
            push_str(&mut out, " ");
        }
        assert(parts.take(i + 1).drop_last() =~= parts.take(i as int));
        assert(parts.take(i + 1).last() == parts[i as int]);
        if i == 0 {
            assert(parts.take(1) =~= seq![parts[0]]);
        }
        assert(out@ =~= seq_join(parts.take(i + 1), "  "@));
        i += 1;
    }
    assert(parts.take(items.len() as int) =~= parts);
    out
}

/// `s` padded with spaces to at least 16 characters.
fn pad16(out: &mut Vec<char>, s: &str)
    ensures
        final(out)@ == old(out)@ + pad_right(s@, 16),
{
    let cs = chars_of(s);
    push_all(out, cs.as_slice());
    let ghost mid = out@;
    if cs.len() < 16 {
        let mut k: usize = cs.len();
        while k < 16
            invariant
                cs@.len() <= k <= 16,
                out@ == mid + Seq::new((k - cs@.len()) as nat, |i: int| ' '),
            decreases 16 - k,
        {
            out.push(' ');
            k += 1;
            assert(out@ =~= mid + Seq::new((k - cs@.len()) as nat, |i: int| ' '));
        }
        assert(out@ =~= old(out)@ + pad_right(s@, 16));
    } else {
        assert(out@ =~= old(out)@ + pad_right(s@, 16));
    }
}

/// Builds a `String` line from characters.
fn line(cs: &Vec<char>) -> (s: String)
    ensures
        s@ == cs@,
{
    string_from_chars(cs.as_slice())
}

/// Renders a TUI message as terminal lines.
pub fn render_tui_for_terminal(tui: &TuiMessage) -> (lines: Vec<String>)
    ensures
        str_views(lines@) == render_spec(*tui),
{
    let mut lines: Vec<String> = Vec::new();
    match tui {
        TuiMessage::Text { content } => {
            lines.push(content.clone());
            assert(str_views(lines@) =~= render_spec(*tui));
        },
        TuiMessage::Buttons { text, items } => {
            if let Some(t) = text {
                lines.push(t.clone());
            }
            let row = join_buttons(items, true);
            lines.push(line(&row));
            assert(str_views(lines@) =~= render_spec(*tui));
        },
        TuiMessage::Card { title, description, actions, .. } => {
            let mut head: Vec<char> = Vec::new();
            push_str(&mut head, "┌─ ");
            push_str(&mut head, title.as_str());
            push_str(&mut head, " ─┐");
            lines.push(line(&head));
            let ghost l1 = str_views(lines@);
            if let Some(d) = description {
                let mut dl: Vec<char> = Vec::new();
                push_str(&mut dl, "│ ");
                push_str(&mut dl, d.as_str());
                lines.push(line(&dl));
            }
            let ghost l2 = str_views(lines@);
            if let Some(acts) = actions {
                let mut al: Vec<char> = Vec::new();
                push_str(&mut al, "│ ");
                let row = join_buttons(acts, false);
                push_all(&mut al, row.as_slice());
                lines.push(line(&al));
            }
            let ghost l3 = str_views(lines@);
            let mut foot: Vec<char> = Vec::new();
            push_str(&mut foot, "└────────┘");
            lines.push(line(&foot));
            assert(str_views(lines@) =~= render_spec(*tui));
        },
        TuiMessage::Table { title, rows } => {
            if let Some(t) = title {
                let mut tl: Vec<char> = Vec::new();
                push_str(&mut tl, "── ");
                push_str(&mut tl, t.as_str());
                push_str(&mut tl, " ──");
                lines.push(line(&tl));
            }
            let ghost head = str_views(lines@);
            let mut i: usize = 0;
            assert(head + table_lines(rows@).take(0) =~= head);
            while i < rows.len()
                invariant
                    i <= rows.len(),
                    str_views(lines@) == head + table_lines(rows@).take(i as int),
                decreases rows.len() - i,
            {
                let mut rl: Vec<char> = Vec::new();
                push_str(&mut rl, "  ");
                pad16(&mut rl, rows[i].0.as_str());
                push_str(&mut rl, " ");
                push_str(&mut rl, rows[i].1.as_str());
                assert(rl@ =~= table_line(rows@[i as int].0@, rows@[i as int].1@));
                let ghost before = str_views(lines@);
                lines.push(line(&rl));
                assert(str_views(lines@) =~= before.push(rl@));
                i += 1;
                assert(str_views(lines@) =~= head + table_lines(rows@).take(i as int));
            }
            assert(table_lines(rows@).take(rows.len() as int) =~= table_lines(rows@));
            assert(str_views(lines@) =~= render_spec(*tui));
        },
    }
    lines
}

// ===========================================================================
// Conversation history
// ===========================================================================

/// A single chat message stored in history.
#[derive(Debug, Clone)]
pub struct ChatEntry {
    pub from_me: bool,
    pub sender_npub: String,
    pub content: SigilMessage,
    pub timestamp: u64,
}

/// The time of the last message of a conversation (0 when it has none).
pub open spec fn last_ts(entries: Seq<ChatEntry>) -> u64 {
    if entries.len() == 0 {
        0
    } else {
        entries.last().timestamp
    }
}

/// The messages exchanged with `peer` (none for an unknown peer).
pub open spec fn messages_of(log: Map<Seq<char>, Seq<ChatEntry>>, peer: Seq<char>) -> Seq<
    ChatEntry,
> {
    if log.dom().contains(peer) {
        log[peer]
    } else {
        Seq::empty()
    }
}

/// The views of a sequence of conversations.
pub open spec fn conv_views(v: Seq<Vec<ChatEntry>>) -> Seq<Seq<ChatEntry>> {
    v.map_values(|x: Vec<ChatEntry>| x@)
}

/// `order` lists each conversation's peer once, the most recent first.
pub open spec fn is_recency_order(log: Map<Seq<char>, Seq<ChatEntry>>, order: Seq<Seq<char>>) -> bool {
    &&& order.no_duplicates()
    &&& forall|i: int| 0 <= i < order.len() ==> log.dom().contains(#[trigger] order[i])
    &&& forall|k: Seq<char>| log.dom().contains(k) ==> order.contains(k)
    &&& forall|i: int, j: int|
        0 <= i < j < order.len() ==> last_ts(log[#[trigger] order[i]]) >= last_ts(
            log[#[trigger] order[j]],
        )
}

/// What a read gives back after `add_message`: the conversation with the
/// peer ends with the new entry after the earlier ones, and every other
/// conversation is unchanged.
pub proof fn lemma_add_then_read(
    log: Map<Seq<char>, Seq<ChatEntry>>,
    peer: Seq<char>,
    entry: ChatEntry,
    other: Seq<char>,
)
    ensures
        messages_of(log.insert(peer, messages_of(log, peer).push(entry)), peer) == messages_of(
            log,
            peer,
        ).push(entry),
        other != peer ==> messages_of(log.insert(peer, messages_of(log, peer).push(entry)), other)
            == messages_of(log, other),
{
}

/// Per-conversation message history.
pub struct ChatHistory {
    peers: Vec<String>,
    conversations: Vec<Vec<ChatEntry>>,
}

impl ChatHistory {
    #[verifier::type_invariant]
    spec fn inv(self) -> bool {
        &&& self.peers.len() == self.conversations.len()
        &&& str_views(self.peers@).no_duplicates()
    }

    /// The messages of each conversation, by peer npub.
    pub closed spec fn log(self) -> Map<Seq<char>, Seq<ChatEntry>> {
        assoc(str_views(self.peers@), conv_views(self.conversations@))
    }

    /// A history holds finitely many conversations.
    pub proof fn lemma_log_finite(self)
        ensures
            self.log().dom().finite(),
    {
        lemma_assoc_finite(str_views(self.peers@), conv_views(self.conversations@));
    }

    /// An empty history.
    pub fn new() -> (h: Self)
        ensures
            h.log() == Map::<Seq<char>, Seq<ChatEntry>>::empty(),
    {
        let h = ChatHistory { peers: Vec::new(), conversations: Vec::new() };
        assert(str_views(h.peers@) =~= Seq::<Seq<char>>::empty());
        h
    }

    /// Appends `entry` to the conversation with `peer_npub`.
    pub fn add_message(&mut self, peer_npub: &str, entry: ChatEntry)
        ensures
            final(self).log() == old(self).log().insert(
                peer_npub@,
                messages_of(old(self).log(), peer_npub@).push(entry),
            ),
    {
        proof {
            use_type_invariant(&*self);
        }
        let mut cur = ChatHistory::new();
        std::mem::swap(self, &mut cur);
        proof {
            use_type_invariant(&cur);
        }
        let ChatHistory { mut peers, mut conversations } = cur;
        let ghost keys = str_views(peers@);
        let ghost vals = conv_views(conversations@);
        match find_key(&peers, peer_npub) {
            Some(k) => {
                proof {
                    lemma_assoc_index(keys, vals, k as int);
                }
                let mut conv = conversations.remove(k);
                conv.push(entry);
                let ghost cv = conv@;
                conversations.insert(k, conv);
                proof {
                    assert(conv_views(conversations@) =~= vals.update(k as int, cv));
                    lemma_assoc_update(keys, vals, k as int, cv);
                }
            },
            None => {
                proof {
                    lemma_assoc_dom(keys, vals, peer_npub@);
                }
                let mut conv: Vec<ChatEntry> = Vec::new();
                conv.push(entry);
                let ghost cv = conv@;
                peers.push(peer_npub.to_owned());
                conversations.push(conv);
                proof {
                    assert(str_views(peers@) =~= keys.push(peer_npub@));
                    assert(conv_views(conversations@) =~= vals.push(cv));
                    assert(cv =~= Seq::<ChatEntry>::empty().push(entry));
                    lemma_assoc_push(keys, vals, peer_npub@, cv);
                }
            },
        }
        *self = ChatHistory { peers, conversations };
    }

    /// The messages exchanged with `peer_npub`, oldest first.
    pub fn get_messages(&self, peer_npub: &str) -> (msgs: &[ChatEntry])
        ensures
            msgs@ == messages_of(self.log(), peer_npub@),
    {
        proof {
            use_type_invariant(self);
        }
        let ghost keys = str_views(self.peers@);
        let ghost vals = conv_views(self.conversations@);
        match find_key(&self.peers, peer_npub) {
            Some(k) => {
                proof {
                    lemma_assoc_index(keys, vals, k as int);
                }
                self.conversations[k].as_slice()
            },
            None => {
                proof {
                    lemma_assoc_dom(keys, vals, peer_npub@);
                }
                &[]
            },
        }
    }

    /// The npubs that have conversations, the most recent conversation first.
    pub fn active_peers(&self) -> (peers: Vec<String>)
        ensures
            is_recency_order(self.log(), str_views(peers@)),
    {
        proof {
            use_type_invariant(self);
        }
        let n = self.peers.len();
        let ghost keys = str_views(self.peers@);
        let ghost vals = conv_views(self.conversations@);
        let mut order: Vec<usize> = Vec::new();
        let mut p: usize = 0;
        while p < n
            invariant
                p <= n,
                n == self.peers.len(),
                n == self.conversations.len(),
                order.len() == p,
                order@.no_duplicates(),
                forall|k: usize| order@.contains(k) <==> k < p,
                forall|a: int| 0 <= a < order.len() ==> #[trigger] order@[a] < p,
                forall|a: int, b: int|
                    0 <= a < b < order.len() ==> conv_ts(self.conversations@, #[trigger] order@[a]) >= conv_ts(self.conversations@, 
                        #[trigger] order@[b],
                    ),
            decreases n - p,
        {
            let tp = last_timestamp(&self.conversations[p]);
            let mut pos: usize = 0;
            while pos < order.len() && last_timestamp(&self.conversations[order[pos]]) >= tp
                invariant
                    pos <= order.len(),
                    order.len() == p,
                    p < n,
                    n == self.conversations.len(),
                    forall|k: usize| order@.contains(k) <==> k < p,
                    forall|a: int| 0 <= a < order.len() ==> #[trigger] order@[a] < p,
                    tp == conv_ts(self.conversations@, p),
                    forall|a: int| 0 <= a < pos ==> conv_ts(self.conversations@, #[trigger] order@[a]) >= tp,
                decreases order.len() - pos,
            {
                assert(order@.contains(order@[pos as int]));
                pos += 1;
            }
            let ghost old_order = order@;
            proof {
                if pos < order.len() {
                    assert(old_order.contains(old_order[pos as int]));
                }
            }
            order.insert(pos, p);
            proof {
                assert(order@ =~= old_order.insert(pos as int, p));
                assert forall|a: int, b: int| 0 <= a < b < order.len() implies conv_ts(self.conversations@, 
                    #[trigger] order@[a],
                ) >= conv_ts(self.conversations@, #[trigger] order@[b]) by {
                    if b < pos {
                        assert(order@[a] == old_order[a]);
                        assert(order@[b] == old_order[b]);
                    } else if b == pos {
                        assert(order@[a] == old_order[a]);
                    } else if a < pos {
                        assert(order@[a] == old_order[a]);
                        assert(order@[b] == old_order[b - 1]);
                    } else if a == pos {
                        assert(order@[b] == old_order[b - 1]);
                        assert(conv_ts(self.conversations@, old_order[pos as int]) < tp);
                        if b - 1 > pos {
                            assert(conv_ts(self.conversations@, old_order[pos as int]) >= conv_ts(self.conversations@, old_order[b - 1]));
                        }
                    } else {
                        assert(order@[a] == old_order[a - 1]);
                        assert(order@[b] == old_order[b - 1]);
                    }
                }
                assert forall|k: usize| order@.contains(k) <==> k < p + 1 by {
                    if k < p + 1 {
                        if k == p {
                            assert(order@[pos as int] == p);
                        } else {
                            assert(old_order.contains(k));
                            let a = choose|a: int| 0 <= a < old_order.len() && old_order[a] == k;
                            if a < pos {
                                assert(order@[a] == k);
                            } else {
                                assert(order@[a + 1] == k);
                            }
                        }
                    }
                    if order@.contains(k) {
                        let a = choose|a: int| 0 <= a < order@.len() && order@[a] == k;
                        if a < pos {
                            assert(old_order[a] == k);
                        } else if a > pos {
                            assert(old_order[a - 1] == k);
                        }
                    }
                }
                assert(order@.no_duplicates()) by {
                    assert forall|a: int, b: int|
                        0 <= a < order@.len() && 0 <= b < order@.len() && a != b implies order@[a]
                        != order@[b] by {
                        let ia = if a < pos {
                            a
                        } else if a == pos {
                            -1
                        } else {
                            a - 1
                        };
                        let ib = if b < pos {
                            b
                        } else if b == pos {
                            -1
                        } else {
                            b - 1
                        };
                        if ia >= 0 && ib >= 0 {
                            assert(order@[a] == old_order[ia]);
                            assert(order@[b] == old_order[ib]);
                        } else if ia >= 0 {
                            assert(order@[a] == old_order[ia]);
                            assert(old_order.contains(old_order[ia]));
                        } else if ib >= 0 {
                            assert(order@[b] == old_order[ib]);
                            assert(old_order.contains(old_order[ib]));
                        }
                    }
                }
            }
            proof {
                assert forall|a: int| 0 <= a < order.len() implies #[trigger] order@[a] < p + 1 by {
                    assert(order@.contains(order@[a]));
                }
            }
            p += 1;
        }
        let mut out: Vec<String> = Vec::new();
        let mut i: usize = 0;
        while i < n
            invariant
                i <= n,
                n == self.peers.len(),
                order.len() == n,
                forall|k: usize| order@.contains(k) <==> k < n,
                out.len() == i,
                forall|a: int| 0 <= a < i ==> #[trigger] out@[a]@ == keys[order@[a] as int],
                keys == str_views(self.peers@),
            decreases n - i,
        {
            assert(order@.contains(order@[i as int]));
            out.push(self.peers[order[i]].clone());
            i += 1;
        }
        proof {
            assert forall|a: int| 0 <= a < out.len() implies #[trigger] str_views(out@)[a] == keys[
                order@[a] as int] by {}
            assert forall|a: int| 0 <= a < out.len() implies order@[a] < n by {
                assert(order@.contains(order@[a]));
            }
            assert forall|a: int, b: int|
                0 <= a < out.len() && 0 <= b < out.len() && a != b implies str_views(out@)[a]
                != str_views(out@)[b] by {
                assert(order@[a] != order@[b]);
                assert(order@.contains(order@[a]));
                assert(order@.contains(order@[b]));
            }
            assert forall|a: int| 0 <= a < out.len() implies self.log().dom().contains(
                #[trigger] out@[a]@,
            ) && self.log()[out@[a]@] == vals[order@[a] as int] by {
                assert(order@.contains(order@[a]));
                lemma_assoc_index(keys, vals, order@[a] as int);
            }
            assert forall|k: Seq<char>| self.log().dom().contains(k) implies str_views(
                out@,
            ).contains(k) by {
                lemma_assoc_dom(keys, vals, k);
                let j = choose|j: int| 0 <= j < keys.len() && keys[j] == k;
                assert(order@.contains(j as usize));
                let a = choose|a: int| 0 <= a < order@.len() && order@[a] == j as usize;
                assert(str_views(out@)[a] == k);
            }
            assert forall|a: int, b: int| 0 <= a < b < out.len() implies last_ts(
                self.log()[#[trigger] str_views(out@)[a]],
            ) >= last_ts(self.log()[#[trigger] str_views(out@)[b]]) by {
                assert(conv_ts(self.conversations@, order@[a]) >= conv_ts(self.conversations@, order@[b]));
                assert(str_views(out@)[a] == out@[a]@);
                assert(str_views(out@)[b] == out@[b]@);
            }
            assert forall|a: int| 0 <= a < out.len() implies self.log().dom().contains(
                #[trigger] str_views(out@)[a],
            ) by {
                assert(str_views(out@)[a] == out@[a]@);
            }
        }
        out
    }
}

/// The time of the last message of conversation `k`.
pub open spec fn conv_ts(convs: Seq<Vec<ChatEntry>>, k: usize) -> u64 {
    last_ts(convs[k as int]@)
}

/// The time of the last message (0 when there is none).
fn last_timestamp(entries: &Vec<ChatEntry>) -> (t: u64)
    ensures
        t == last_ts(entries@),
{
    if entries.len() == 0 {
        0
    } else {
        entries[entries.len() - 1].timestamp
    }
}

} // verus!

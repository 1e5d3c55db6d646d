//! Structured messages (buttons, cards, tables) that agents send to users.
//!
//! On the wire they are JSON objects tagged by `"type"`; the JSON encoding
//! and decoding are done by the application around this library.
use crate::text::{chars_of, trim, trim_chars};
use vstd::prelude::*;
use vstd::utf8::encode_utf8;

verus! {

/// TUI message types that agents can send to users, rendered as interactive
/// elements by a Sigil client.
#[derive(Debug, Clone)]
pub enum TuiMessage {
    /// Plain text message
    Text { content: String },
    /// Row of tappable buttons
    Buttons { text: Option<String>, items: Vec<TuiButton> },
    /// Card with title, description, optional image
    Card {
        title: String,
        description: Option<String>,
        image_url: Option<String>,
        actions: Option<Vec<TuiButton>>,
    },
    /// Simple key-value table
    Table { title: Option<String>, rows: Vec<(String, String)> },
}

/// A tappable button: its id is sent back as `sigil:callback:<id>`.
#[derive(Debug, Clone)]
pub struct TuiButton {
    pub id: String,
    pub label: String,
    pub style: Option<ButtonStyle>,
}

/// The look of a button.
#[derive(Debug, Clone, Copy, PartialEq, Eq, Structural)]
pub enum ButtonStyle {
    Primary,
    Secondary,
    Danger,
}

/// The largest TUI message accepted, in bytes (64 KB).
pub const MAX_TUI_BYTES: usize = 65536;

/// A TUI message is at most 64 KB long; larger ones are refused.
pub open spec fn tui_size_ok(content: Seq<char>) -> bool {
    encode_utf8(content).len() <= MAX_TUI_BYTES
}

/// The buttons are the given `(id, label)` pairs, in order, all primary.
pub open spec fn primary_buttons_are(items: Seq<TuiButton>, pairs: Seq<(String, String)>) -> bool {
    &&& items.len() == pairs.len()
    &&& forall|i: int|
        0 <= i < items.len() ==> {
            &&& (#[trigger] items[i]).id == pairs[i].0
            &&& items[i].label == pairs[i].1
            &&& items[i].style == Some(ButtonStyle::Primary)
        }
}

impl TuiMessage {
    /// A row of primary buttons under a prompt, from `(id, label)` pairs.
    pub fn primary_buttons(text: String, buttons: &Vec<(String, String)>) -> (m: Self)
        ensures
            m matches TuiMessage::Buttons { text: t, items } && t == Some(text)
                && primary_buttons_are(items@, buttons@),
    {
        let mut items: Vec<TuiButton> = Vec::new();
        let mut i: usize = 0;
        while i < buttons.len()
            invariant
                i <= buttons.len(),
                primary_buttons_are(items@, buttons@.take(i as int)),
            decreases buttons.len() - i,
        {
            let b = TuiButton {
                id: buttons[i].0.clone(),
                label: buttons[i].1.clone(),
                style: Some(ButtonStyle::Primary),
            };
            items.push(b);
            i += 1;
            assert(primary_buttons_are(items@, buttons@.take(i as int))) by {
                assert forall|j: int| 0 <= j < items@.len() implies {
                    &&& (#[trigger] items@[j]).id == buttons@.take(i as int)[j].0
                    &&& items@[j].label == buttons@.take(i as int)[j].1
                    &&& items@[j].style == Some(ButtonStyle::Primary)
                } by {
                    assert(buttons@.take(i as int)[j] == buttons@[j]);
                    if j < i - 1 {
                        assert(buttons@.take(i - 1)[j] == buttons@[j]);
                    }
                }
            }
        }
        assert(buttons@.take(buttons.len() as int) =~= buttons@);
        TuiMessage::Buttons { text: Some(text), items }
    }

    /// A card with a title and an optional description, and no image or
    /// actions.
    pub fn simple_card(title: String, description: Option<String>) -> (m: Self)
        ensures
            m == (TuiMessage::Card { title, description, image_url: None, actions: None }),
    {
        TuiMessage::Card { title, description, image_url: None, actions: None }
    }

    /// Whether content is a TUI message: its trimmed text starts with `{`,
    /// it is at most 64 KB long and, as `decodes` tells, it decodes as a TUI
    /// message.
    pub fn is_tui(content: &str, decodes: bool) -> (b: bool)
        ensures
            b == (trim(content@).len() > 0 && trim(content@)[0] == '{' && tui_size_ok(content@)
                && decodes),
    {
        let cs = chars_of(content);
        let t = trim_chars(cs.as_slice());
        t.len() > 0 && t[0] == '{' && content.as_bytes().len() <= MAX_TUI_BYTES && decodes
    }
}

} // verus!

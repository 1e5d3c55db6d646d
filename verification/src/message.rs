//! Messages as an agent receives or sends them: plain text, structured TUI
//! messages, button callbacks and file references.
use crate::file::{is_file_spec, FileMessage};
use crate::text::{
    chars_of, push_str, starts_with, str_starts_with, string_from_chars, sub_chars, trim,
    trim_chars,
};
use crate::tui::{tui_size_ok, TuiMessage, MAX_TUI_BYTES};
use vstd::prelude::*;

verus! {

broadcast use vstd::string::group_string_axioms;

/// A message received by or sent from an agent.
#[derive(Debug, Clone)]
pub enum SigilMessage {
    /// Plain text message
    Text(String),
    /// Structured TUI message (buttons, cards, etc.)
    Tui(TuiMessage),
    /// Button callback from user tapping a TUI button
    ButtonCallback { button_id: String },
    /// File attachment
    File(FileMessage),
}

/// A message with its texts taken as character sequences.
pub enum MessageView {
    Text(Seq<char>),
    Tui(TuiMessage),
    ButtonCallback(Seq<char>),
    File(FileMessage),
}

impl View for SigilMessage {
    type V = MessageView;

    open spec fn view(&self) -> MessageView {
        match self {
            SigilMessage::Text(s) => MessageView::Text(s@),
            SigilMessage::Tui(t) => MessageView::Tui(*t),
            SigilMessage::ButtonCallback { button_id } => MessageView::ButtonCallback(button_id@),
            SigilMessage::File(f) => MessageView::File(*f),
        }
    }
}

/// The prefix of a button callback.
pub open spec fn callback_prefix() -> Seq<char> {
    "sigil:callback:"@
}

/// How content is read. `file` is the content decoded as a file reference and
/// `tui` the content decoded as a TUI message (`None` where decoding fails):
/// a file reference wins, then a TUI message whose trimmed text starts with
/// `{` and that is at most 64 KB long (larger ones are refused), then a
/// button callback; anything else is plain text.
pub open spec fn parse_spec(
    content: Seq<char>,
    file: Option<FileMessage>,
    tui: Option<TuiMessage>,
) -> MessageView {
    if is_file_spec(content) && file is Some {
        MessageView::File(file->0)
    } else if trim(content).len() > 0 && trim(content)[0] == '{' && tui is Some
        && tui_size_ok(content) {
        MessageView::Tui(tui->0)
    } else if callback_prefix().is_prefix_of(content) {
        MessageView::ButtonCallback(content.skip(callback_prefix().len() as int))
    } else {
        MessageView::Text(content)
    }
}

/// The content sent for a message whose content is plain text (text and
/// button callbacks); structured messages are sent as their JSON encoding.
pub open spec fn content_spec(m: MessageView) -> Option<Seq<char>> {
    match m {
        MessageView::Text(s) => Some(s),
        MessageView::ButtonCallback(id) => Some(callback_prefix() + id),
        _ => None,
    }
}

impl SigilMessage {
    /// Reads incoming content. `file` must be the content decoded as a file
    /// reference (`FileMessage::from_json`) and `tui` the content decoded as
    /// a TUI message (`TuiMessage::from_json`), `None` where decoding fails.
    pub fn parse(content: &str, file: Option<FileMessage>, tui: Option<TuiMessage>) -> (m: Self)
        ensures
            m@ == parse_spec(content@, file, tui),
    {
        if FileMessage::is_file(content) {
            if let Some(f) = file {
                return SigilMessage::File(f);
            }
        }
        let cs = chars_of(content);
        let t = trim_chars(cs.as_slice());
        if t.len() > 0 && t[0] == '{' && content.as_bytes().len() <= MAX_TUI_BYTES {
            if let Some(tm) = tui {
                return SigilMessage::Tui(tm);
            }
        }
        proof {
            reveal_strlit("sigil:callback:");
        }
        if str_starts_with(content, "sigil:callback:") {
            let id = sub_chars(cs.as_slice(), 15, cs.len());
            SigilMessage::ButtonCallback { button_id: string_from_chars(id.as_slice()) }
        } else {
            SigilMessage::Text(content.to_owned())
        }
    }

    /// The content to send for a text message or a button callback; `None`
    /// for a TUI message or a file reference, which are sent as JSON.
    pub fn to_content(&self) -> (c: Option<String>)
        ensures
            match c {
                Some(s) => content_spec(self@) == Some(s@),
                None => content_spec(self@) is None,
            },
    {
        match self {
            SigilMessage::Text(s) => Some(s.clone()),
            SigilMessage::ButtonCallback { button_id } => {
                let mut out: Vec<char> = Vec::new();
                push_str(&mut out, "sigil:callback:");
                push_str(&mut out, button_id.as_str());
                Some(string_from_chars(out.as_slice()))
            },
            _ => None,
        }
    }
}

/// A trimmed text keeps the first character of a text that starts with a
/// character other than white space.
proof fn lemma_trim_keeps_first(s: Seq<char>)
    requires
        s.len() > 0,
        !crate::text::is_ws(s[0]),
    ensures
        trim(s).len() > 0,
        trim(s)[0] == s[0],
{
    assert(crate::text::trim_start(s) == s);
    lemma_trim_end_keeps_first(s);
}

/// Trimming the end keeps the first character when it is not white space.
proof fn lemma_trim_end_keeps_first(s: Seq<char>)
    requires
        s.len() > 0,
        !crate::text::is_ws(s[0]),
    ensures
        crate::text::trim_end(s).len() > 0,
        crate::text::trim_end(s)[0] == s[0],
    decreases s.len(),
{
    if s.len() > 1 && crate::text::is_ws(s.last()) {
        let d = s.drop_last();
        assert(d[0] == s[0]);
        lemma_trim_end_keeps_first(d);
    }
}

/// A button callback survives sending and reading, whatever the decoders
/// report for its content.
pub proof fn lemma_callback_roundtrip(
    id: Seq<char>,
    file: Option<FileMessage>,
    tui: Option<TuiMessage>,
)
    ensures
        parse_spec(callback_prefix() + id, file, tui) == MessageView::ButtonCallback(id),
{
    reveal_strlit("sigil:callback:");
    let c = callback_prefix() + id;
    assert(c[0] == 's');
    lemma_trim_keeps_first(c);
    assert(callback_prefix().is_prefix_of(c)) by {
        assert(c.take(15) =~= callback_prefix());
    }
    assert(c.skip(15) =~= id);
}

/// Plain text survives sending and reading when its trimmed form does not
/// start with `{` and it does not start with the callback prefix.
pub proof fn lemma_text_roundtrip(s: Seq<char>, file: Option<FileMessage>, tui: Option<TuiMessage>)
    requires
        !(trim(s).len() > 0 && trim(s)[0] == '{'),
        !callback_prefix().is_prefix_of(s),
    ensures
        parse_spec(s, file, tui) == MessageView::Text(s),
{
}

/// Content that decodes neither as a file reference nor as a TUI message is
/// read as plain text, unless it is a button callback.
pub proof fn lemma_undecodable_is_text(content: Seq<char>)
    requires
        !callback_prefix().is_prefix_of(content),
    ensures
        parse_spec(content, None, None) == MessageView::Text(content),
{
}

} // verus!

//! File references embedded in direct messages (NIP-94 style metadata).
use crate::text::{
    chars_of, contains_chars, contains_seq, decimal, push_all, push_decimal, push_str, str_eq,
    string_from_chars, trim, trim_chars,
};
use vstd::prelude::*;

verus! {

broadcast use vstd::string::group_string_axioms;

/// File metadata that can be embedded in a message or published as kind:1063.
#[derive(Debug, Clone)]
pub struct FileMessage {
    /// URL where the file is hosted
    pub url: String,
    /// MIME type
    pub mime_type: String,
    /// Original filename
    pub filename: Option<String>,
    /// File size in bytes
    pub size: Option<u64>,
    /// SHA-256 hash of the file
    pub hash: Option<String>,
    /// Thumbnail URL for images
    pub thumb: Option<String>,
    /// Image dimensions
    pub dim: Option<String>,
}

/// A file reference as embedded in DM content: `{"type":"file", ...}`.
#[derive(Debug, Clone)]
pub enum FileContent {
    File(FileMessage),
}

/// The unit in which a file size is displayed.
#[derive(Debug, Clone, Copy, PartialEq, Eq, Structural)]
pub enum SizeUnit {
    /// Whole bytes (up to 1024)
    Bytes,
    /// Kibibytes (above 1024 bytes)
    Kilobytes,
    /// Mebibytes (above 1048576 bytes)
    Megabytes,
}

/// The unit for a size: MB above 1048576 bytes, KB above 1024 bytes, else B.
pub open spec fn size_unit_spec(size: u64) -> SizeUnit {
    if size > 1_048_576 {
        SizeUnit::Megabytes
    } else if size > 1024 {
        SizeUnit::Kilobytes
    } else {
        SizeUnit::Bytes
    }
}

/// The size part of the display line. `scaled` is the size in the display
/// unit written with one decimal; it is used for KB and MB only.
pub open spec fn size_text(size: Option<u64>, scaled: Seq<char>) -> Seq<char> {
    match size {
        None => Seq::empty(),
        Some(s) => match size_unit_spec(s) {
            SizeUnit::Megabytes => " ("@ + scaled + " MB)"@,
            SizeUnit::Kilobytes => " ("@ + scaled + " KB)"@,
            SizeUnit::Bytes => " ("@ + decimal(s as nat) + " B)"@,
        },
    }
}

/// The display line: `[name size] url`, the name defaulting to `file`.
pub open spec fn display_spec(f: FileMessage, scaled: Seq<char>) -> Seq<char> {
    let name = match f.filename {
        Some(n) => n@,
        None => "file"@,
    };
    "["@ + name + size_text(f.size, scaled) + "] "@ + f.url@
}

/// The display line of a file: `[`, its name (`file` when it has none), the
/// size part, `] ` and the URL. The size part depends on the size alone,
/// whatever the name: nothing without a size; ` (n B)` with the size in
/// decimal up to 1024 bytes; ` (x KB)` above 1024 and up to 1048576 bytes;
/// ` (x MB)` above that, `x` being the scaled size the caller wrote.
pub proof fn lemma_display_laws(f: FileMessage, scaled: Seq<char>)
    ensures
        display_spec(f, scaled) == "["@ + (if f.filename is Some {
            f.filename->0@
        } else {
            "file"@
        }) + (if f.size is None {
            Seq::<char>::empty()
        } else if f.size->0 <= 1024 {
            " ("@ + decimal(f.size->0 as nat) + " B)"@
        } else if f.size->0 <= 1_048_576 {
            " ("@ + scaled + " KB)"@
        } else {
            " ("@ + scaled + " MB)"@
        }) + "] "@ + f.url@,
{
}

/// Two files with the same size and URL have display lines that differ only
/// in the name: past `[` and the name, the lines are equal.
pub proof fn lemma_display_name_only(f: FileMessage, g: FileMessage, scaled: Seq<char>)
    requires
        f.size == g.size,
        f.url@ == g.url@,
    ensures
        display_spec(f, scaled).skip(1 + (if f.filename is Some {
            f.filename->0@.len() as int
        } else {
            4int
        })) == display_spec(g, scaled).skip(1 + (if g.filename is Some {
            g.filename->0@.len() as int
        } else {
            4int
        })),
{
    lemma_display_laws(f, scaled);
    lemma_display_laws(g, scaled);
    reveal_strlit("[");
    reveal_strlit("file");
    let nf = if f.filename is Some {
        f.filename->0@
    } else {
        "file"@
    };
    let ng = if g.filename is Some {
        g.filename->0@
    } else {
        "file"@
    };
    let rest = display_spec(f, scaled).skip(1 + nf.len() as int);
    assert(display_spec(f, scaled) =~= ("["@ + nf) + rest);
    assert(display_spec(g, scaled).skip(1 + ng.len() as int) =~= rest);
}

/// The marker of a file reference.
pub open spec fn file_marker() -> Seq<char> {
    "\"type\":\"file\""@
}

/// Content is a file reference: its trimmed text contains `"type":"file"`
/// and starts with `{`.
pub open spec fn is_file_spec(content: Seq<char>) -> bool {
    contains_seq(trim(content), file_marker()) && trim(content).len() > 0 && trim(content)[0]
        == '{'
}

/// The MIME type for a file extension.
pub open spec fn mime_spec(ext: Option<Seq<char>>) -> Seq<char> {
    match ext {
        Some(e) => if e == "png"@ {
            "image/png"@
        } else if e == "jpg"@ || e == "jpeg"@ {
            "image/jpeg"@
        } else if e == "gif"@ {
            "image/gif"@
        } else if e == "webp"@ {
            "image/webp"@
        } else if e == "pdf"@ {
            "application/pdf"@
        } else if e == "txt"@ {
            "text/plain"@
        } else if e == "mp4"@ {
            "video/mp4"@
        } else if e == "mp3"@ {
            "audio/mpeg"@
        } else if e == "zip"@ {
            "application/zip"@
        } else {
            "application/octet-stream"@
        },
        None => "application/octet-stream"@,
    }
}

/// The unit in which a size is displayed.
pub fn size_unit(size: u64) -> (u: SizeUnit)
    ensures
        u == size_unit_spec(size),
{
    if size > 1_048_576 {
        SizeUnit::Megabytes
    } else if size > 1024 {
        SizeUnit::Kilobytes
    } else {
        SizeUnit::Bytes
    }
}

impl FileMessage {
    /// A file message for a URL and MIME type, with no other metadata.
    pub fn new(url: &str, mime_type: &str) -> (f: Self)
        ensures
            f.url@ == url@,
            f.mime_type@ == mime_type@,
            f.filename is None,
            f.size is None,
            f.hash is None,
            f.thumb is None,
            f.dim is None,
    {
        FileMessage {
            url: url.to_owned(),
            mime_type: mime_type.to_owned(),
            filename: None,
            size: None,
            hash: None,
            thumb: None,
            dim: None,
        }
    }

    /// Whether content is a file reference.
    pub fn is_file(content: &str) -> (b: bool)
        ensures
            b == is_file_spec(content@),
    {
        let cs = chars_of(content);
        let t = trim_chars(cs.as_slice());
        let marker = chars_of("\"type\":\"file\"");
        contains_chars(t.as_slice(), marker.as_slice()) && t.len() > 0 && t[0] == '{'
    }

    /// The display line for a terminal: `[name size] url`. For sizes above
    /// 1024 bytes, `scaled` is the size in KB or MB (see `size_unit`) written
    /// with one decimal, which the caller formats.
    pub fn display(&self, scaled: &str) -> (line: String)
        ensures
            line@ == display_spec(*self, scaled@),
    {
        let mut out: Vec<char> = Vec::new();
        push_str(&mut out, "[");
        match &self.filename {
            Some(n) => push_str(&mut out, n.as_str()),
            None => push_str(&mut out, "file"),
        }
        match self.size {
            None => {},
            Some(s) => match size_unit(s) {
                SizeUnit::Megabytes => {
                    push_str(&mut out, " (");
                    push_str(&mut out, scaled);
                    push_str(&mut out, " MB)");
                },
                SizeUnit::Kilobytes => {
                    push_str(&mut out, " (");
                    push_str(&mut out, scaled);
                    push_str(&mut out, " KB)");
                },
                SizeUnit::Bytes => {
                    push_str(&mut out, " (");
                    push_decimal(&mut out, s);
                    push_str(&mut out, " B)");
                },
            },
        }
        push_str(&mut out, "] ");
        push_str(&mut out, self.url.as_str());
        assert(out@ =~= display_spec(*self, scaled@));
        string_from_chars(out.as_slice())
    }
}

/// The MIME type for a file extension (`application/octet-stream` when it
/// is unknown or missing).
pub fn mime_from_ext(ext: Option<&str>) -> (mime: String)
    ensures
        mime@ == mime_spec(
            match ext {
                Some(e) => Some(e@),
                None => None,
            },
        ),
{
    match ext {
        Some(e) => {
            if str_eq(e, "png") {
                "image/png".to_owned()
            } else if str_eq(e, "jpg") || str_eq(e, "jpeg") {
                "image/jpeg".to_owned()
            } else if str_eq(e, "gif") {
                "image/gif".to_owned()
            } else if str_eq(e, "webp") {
                "image/webp".to_owned()
            } else if str_eq(e, "pdf") {
                "application/pdf".to_owned()
            } else if str_eq(e, "txt") {
                "text/plain".to_owned()
            } else if str_eq(e, "mp4") {
                "video/mp4".to_owned()
            } else if str_eq(e, "mp3") {
                "audio/mpeg".to_owned()
            } else if str_eq(e, "zip") {
                "application/zip".to_owned()
            } else {
                "application/octet-stream".to_owned()
            }
        },
        None => "application/octet-stream".to_owned(),
    }
}

} // verus!

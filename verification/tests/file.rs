use sigil::file::{mime_from_ext, size_unit, FileMessage, SizeUnit};

#[test]
fn new_file_message_fields() {
    let f = FileMessage::new("https://nostr.build/a.png", "image/png");
    assert_eq!(f.url, "https://nostr.build/a.png");
    assert_eq!(f.mime_type, "image/png");
    assert!(f.filename.is_none() && f.size.is_none() && f.hash.is_none());
    assert!(f.thumb.is_none() && f.dim.is_none());
}

#[test]
fn is_file_checks() {
    assert!(FileMessage::is_file(r#" {"type":"file","url":"u"} "#));
    assert!(!FileMessage::is_file(r#"{"type": "file"}"#));
    assert!(!FileMessage::is_file(r#"x{"type":"file"}"#));
    assert!(!FileMessage::is_file("hello"));
}

#[test]
fn display_lines() {
    let mut f = FileMessage::new("https://x/y", "text/plain");
    assert_eq!(f.display(""), "[file] https://x/y");
    f.filename = Some("notes.txt".into());
    f.size = Some(500);
    assert_eq!(f.display(""), "[notes.txt (500 B)] https://x/y");
    f.size = Some(1024);
    assert_eq!(f.display(""), "[notes.txt (1024 B)] https://x/y");
    f.size = Some(2048);
    let scaled = format!("{:.1}", 2048f64 / 1024.0);
    assert_eq!(f.display(&scaled), "[notes.txt (2.0 KB)] https://x/y");
    f.size = Some(3 * 1_048_576);
    let scaled = format!("{:.1}", (3 * 1_048_576) as f64 / 1_048_576.0);
    assert_eq!(f.display(&scaled), "[notes.txt (3.0 MB)] https://x/y");
}

#[test]
fn size_units() {
    assert_eq!(size_unit(0), SizeUnit::Bytes);
    assert_eq!(size_unit(1024), SizeUnit::Bytes);
    assert_eq!(size_unit(1025), SizeUnit::Kilobytes);
    assert_eq!(size_unit(1_048_576), SizeUnit::Kilobytes);
    assert_eq!(size_unit(1_048_577), SizeUnit::Megabytes);
}

#[test]
fn mime_types() {
    assert_eq!(mime_from_ext(Some("png")), "image/png");
    assert_eq!(mime_from_ext(Some("jpg")), "image/jpeg");
    assert_eq!(mime_from_ext(Some("jpeg")), "image/jpeg");
    assert_eq!(mime_from_ext(Some("gif")), "image/gif");
    assert_eq!(mime_from_ext(Some("webp")), "image/webp");
    assert_eq!(mime_from_ext(Some("pdf")), "application/pdf");
    assert_eq!(mime_from_ext(Some("txt")), "text/plain");
    assert_eq!(mime_from_ext(Some("mp4")), "video/mp4");
    assert_eq!(mime_from_ext(Some("mp3")), "audio/mpeg");
    assert_eq!(mime_from_ext(Some("zip")), "application/zip");
    assert_eq!(mime_from_ext(Some("PNG")), "application/octet-stream");
    assert_eq!(mime_from_ext(None), "application/octet-stream");
}

use sigil::base64::{decode_base64, push_base64};

fn encode(b: &[u8]) -> String {
    let mut out: Vec<char> = Vec::new();
    push_base64(&mut out, b);
    out.into_iter().collect()
}

fn decode(t: &str) -> Option<Vec<u8>> {
    let cs: Vec<char> = t.chars().collect();
    decode_base64(&cs)
}

#[test]
fn base64_known_vectors() {
    let cases = [
        ("", ""),
        ("f", "Zg=="),
        ("fo", "Zm8="),
        ("foo", "Zm9v"),
        ("foob", "Zm9vYg=="),
        ("fooba", "Zm9vYmE="),
        ("foobar", "Zm9vYmFy"),
    ];
    for (plain, coded) in cases {
        assert_eq!(encode(plain.as_bytes()), coded);
        assert_eq!(decode(coded), Some(plain.as_bytes().to_vec()));
    }
    assert_eq!(encode(&[0xfb, 0xff, 0xbf]), "+/+/");
    assert_eq!(decode("+/+/"), Some(vec![0xfb, 0xff, 0xbf]));
}

#[test]
fn base64_appends() {
    let mut out: Vec<char> = "x:".chars().collect();
    push_base64(&mut out, b"hi");
    assert_eq!(out.into_iter().collect::<String>(), "x:aGk=");
}

#[test]
fn base64_rejects_malformed() {
    assert_eq!(decode("Zg="), None);
    assert_eq!(decode("Zg=a"), None);
    assert_eq!(decode("Zg==Zg=="), None);
    assert_eq!(decode("Z*=="), None);
    assert_eq!(decode("=AAA"), None);
}

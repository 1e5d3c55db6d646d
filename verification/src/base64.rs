//! Base64 (standard alphabet, `=` padding), as used for encrypted keys.
use vstd::prelude::*;

verus! {

// ---------------------------------------------------------------------------
// Specifications
// ---------------------------------------------------------------------------

/// The character for a 6-bit value: `A`-`Z`, `a`-`z`, `0`-`9`, `+`, `/`.
pub open spec fn b64_char(v: int) -> char {
    if v < 26 {
        (65 + v) as char
    } else if v < 52 {
        (97 + (v - 26)) as char
    } else if v < 62 {
        (48 + (v - 52)) as char
    } else if v == 62 {
        '+'
    } else {
        '/'
    }
}

/// The 6-bit value of a base64 character, if it is one.
pub open spec fn b64_val(c: char) -> Option<int> {
    let u = c as int;
    if 65 <= u <= 90 {
        Some(u - 65)
    } else if 97 <= u <= 122 {
        Some(u - 71)
    } else if 48 <= u <= 57 {
        Some(u + 4)
    } else if c == '+' {
        Some(62)
    } else if c == '/' {
        Some(63)
    } else {
        None
    }
}

/// The base64 encoding of `b`: each group of three bytes gives four
/// characters, and a last group of one or two bytes is padded with `=`.
pub open spec fn b64_encode(b: Seq<u8>) -> Seq<char>
    decreases b.len(),
{
    if b.len() == 0 {
        Seq::empty()
    } else if b.len() == 1 {
        let x = b[0] as int;
        seq![b64_char(x / 4), b64_char((x % 4) * 16), '=', '=']
    } else if b.len() == 2 {
        let (x, y) = (b[0] as int, b[1] as int);
        seq![b64_char(x / 4), b64_char((x % 4) * 16 + y / 16), b64_char((y % 16) * 4), '=']
    } else {
        let (x, y, z) = (b[0] as int, b[1] as int, b[2] as int);
        seq![
            b64_char(x / 4),
            b64_char((x % 4) * 16 + y / 16),
            b64_char((y % 16) * 4 + z / 64),
            b64_char(z % 64),
        ] + b64_encode(b.skip(3))
    }
}

/// The first byte of a group, from its first two values.
pub open spec fn byte0(a: int, b: int) -> u8 {
    (a * 4 + b / 16) as u8
}

/// The second byte of a group, from its second and third values.
pub open spec fn byte1(b: int, c: int) -> u8 {
    ((b % 16) * 16 + c / 4) as u8
}

/// The third byte of a group, from its last two values.
pub open spec fn byte2(c: int, d: int) -> u8 {
    ((c % 4) * 64 + d) as u8
}

/// The bytes of a base64 text, or `None` where it is not one: groups of four
/// characters, the last of which may end in `==` (one byte) or `=` (two).
pub open spec fn b64_decode(t: Seq<char>) -> Option<Seq<u8>>
    decreases t.len(),
{
    if t.len() == 0 {
        Some(Seq::empty())
    } else if t.len() < 4 {
        None
    } else if t.len() == 4 && t[2] == '=' && t[3] == '=' {
        match (b64_val(t[0]), b64_val(t[1])) {
            (Some(a), Some(b)) => Some(seq![byte0(a, b)]),
            _ => None,
        }
    } else if t.len() == 4 && t[3] == '=' {
        match (b64_val(t[0]), b64_val(t[1]), b64_val(t[2])) {
            (Some(a), Some(b), Some(c)) => Some(seq![byte0(a, b), byte1(b, c)]),
            _ => None,
        }
    } else {
        match (b64_val(t[0]), b64_val(t[1]), b64_val(t[2]), b64_val(t[3]), b64_decode(t.skip(4))) {
            (Some(a), Some(b), Some(c), Some(d), Some(r)) => Some(
                seq![byte0(a, b), byte1(b, c), byte2(c, d)] + r,
            ),
            _ => None,
        }
    }
}

// ---------------------------------------------------------------------------
// Lemmas
// ---------------------------------------------------------------------------

/// A 6-bit value's character reads back as the value, and is not `=`.
pub proof fn lemma_char_val(v: int)
    requires
        0 <= v < 64,
    ensures
        b64_val(b64_char(v)) == Some(v),
        b64_char(v) != '=',
{
}

/// The bytes of a group of three read back from their four values.
proof fn lemma_group(b0: int, b1: int, b2: int)
    requires
        0 <= b0 < 256,
        0 <= b1 < 256,
        0 <= b2 < 256,
    ensures
        0 <= b0 / 4 < 64,
        0 <= (b0 % 4) * 16 + b1 / 16 < 64,
        0 <= (b1 % 16) * 4 + b2 / 64 < 64,
        0 <= b2 % 64 < 64,
        byte0(b0 / 4, (b0 % 4) * 16 + b1 / 16) == b0,
        byte1((b0 % 4) * 16 + b1 / 16, (b1 % 16) * 4 + b2 / 64) == b1,
        byte2((b1 % 16) * 4 + b2 / 64, b2 % 64) == b2,
        byte1((b0 % 4) * 16 + b1 / 16, (b1 % 16) * 4) == b1,
        byte0(b0 / 4, (b0 % 4) * 16) == b0,
{
    assert(((b0 % 4) * 16 + b1 / 16) / 16 == b0 % 4) by (nonlinear_arith)
        requires
            0 <= b0 < 256,
            0 <= b1 < 256,
            0 <= b2 < 256;
    assert(((b0 % 4) * 16 + b1 / 16) % 16 == b1 / 16) by (nonlinear_arith)
        requires
            0 <= b0 < 256,
            0 <= b1 < 256,
            0 <= b2 < 256;
    assert(((b1 % 16) * 4 + b2 / 64) / 4 == b1 % 16) by (nonlinear_arith)
        requires
            0 <= b0 < 256,
            0 <= b1 < 256,
            0 <= b2 < 256;
    assert(((b1 % 16) * 4 + b2 / 64) % 4 == b2 / 64) by (nonlinear_arith)
        requires
            0 <= b0 < 256,
            0 <= b1 < 256,
            0 <= b2 < 256;
    assert(((b1 % 16) * 4) / 4 == b1 % 16) by (nonlinear_arith)
        requires
            0 <= b0 < 256,
            0 <= b1 < 256,
            0 <= b2 < 256;
    assert(((b0 % 4) * 16) / 16 == b0 % 4) by (nonlinear_arith)
        requires
            0 <= b0 < 256,
            0 <= b1 < 256,
            0 <= b2 < 256;
    assert((b0 / 4) * 4 + b0 % 4 == b0) by (nonlinear_arith)
        requires
            0 <= b0 < 256,
            0 <= b1 < 256,
            0 <= b2 < 256;
    assert((b1 / 16) * 16 + b1 % 16 == b1) by (nonlinear_arith)
        requires
            0 <= b0 < 256,
            0 <= b1 < 256,
            0 <= b2 < 256;
    assert((b2 / 64) * 64 + b2 % 64 == b2) by (nonlinear_arith)
        requires
            0 <= b0 < 256,
            0 <= b1 < 256,
            0 <= b2 < 256;
}

/// Decoding the base64 encoding of bytes gives the bytes back.
pub proof fn lemma_b64_roundtrip(b: Seq<u8>)
    ensures
        b64_decode(b64_encode(b)) == Some(b),
    decreases b.len(),
{
    let t = b64_encode(b);
    if b.len() == 0 {
    } else if b.len() == 1 {
        let x = b[0] as int;
        lemma_group(x, 0, 0);
        lemma_char_val(x / 4);
        lemma_char_val((x % 4) * 16);
        assert(t.len() == 4 && t[2] == '=' && t[3] == '=');
        assert(seq![byte0(x / 4, (x % 4) * 16)] =~= b);
    } else if b.len() == 2 {
        let (x, y) = (b[0] as int, b[1] as int);
        lemma_group(x, y, 0);
        lemma_char_val(x / 4);
        lemma_char_val((x % 4) * 16 + y / 16);
        lemma_char_val((y % 16) * 4);
        assert(t.len() == 4 && t[3] == '=' && t[2] != '=');
        assert(seq![
            byte0(x / 4, (x % 4) * 16 + y / 16),
            byte1((x % 4) * 16 + y / 16, (y % 16) * 4),
        ] =~= b);
    } else {
        let (x, y, z) = (b[0] as int, b[1] as int, b[2] as int);
        lemma_group(x, y, z);
        lemma_char_val(x / 4);
        lemma_char_val((x % 4) * 16 + y / 16);
        lemma_char_val((y % 16) * 4 + z / 64);
        lemma_char_val(z % 64);
        lemma_b64_roundtrip(b.skip(3));
        let rest = b64_encode(b.skip(3));
        assert(t.skip(4) =~= rest);
        assert(t[3] == b64_char(z % 64));
        assert(seq![
            byte0(x / 4, (x % 4) * 16 + y / 16),
            byte1((x % 4) * 16 + y / 16, (y % 16) * 4 + z / 64),
            byte2((y % 16) * 4 + z / 64, z % 64),
        ] + b.skip(3) =~= b);
    }
}

// ---------------------------------------------------------------------------
// Executable functions
// ---------------------------------------------------------------------------

/// The character for a 6-bit value.
fn b64_digit(v: u8) -> (c: char)
    requires
        v < 64,
    ensures
        c == b64_char(v as int),
{
    if v < 26 {
        (65 + v) as char
    } else if v < 52 {
        (97 + (v - 26)) as char
    } else if v < 62 {
        (48 + (v - 52)) as char
    } else if v == 62 {
        '+'
    } else {
        '/'
    }
}

/// The 6-bit value of a character, if it is a base64 digit.
fn b64_value(c: char) -> (r: Option<u8>)
    ensures
        match r {
            Some(v) => b64_val(c) == Some(v as int) && v < 64,
            None => b64_val(c) is None,
        },
{
    if 'A' <= c && c <= 'Z' {
        Some((c as u32 - 65) as u8)
    } else if 'a' <= c && c <= 'z' {
        Some((c as u32 - 71) as u8)
    } else if '0' <= c && c <= '9' {
        Some((c as u32 + 4) as u8)
    } else if c == '+' {
        Some(62)
    } else if c == '/' {
        Some(63)
    } else {
        None
    }
}

/// Appends the base64 encoding of `bytes` to `out`.
pub fn push_base64(out: &mut Vec<char>, bytes: &[u8])
    ensures
        final(out)@ == old(out)@ + b64_encode(bytes@),
{
    let ghost start = old(out)@;
    let n = bytes.len();
    let mut i: usize = 0;
    assert(bytes@.skip(0) =~= bytes@);
    while n - i >= 3
        invariant
            n == bytes.len(),
            i <= n,
            start + b64_encode(bytes@) == out@ + b64_encode(bytes@.skip(i as int)),
        decreases n - i,
    {
        let b0 = bytes[i];
        let b1 = bytes[i + 1];
        let b2 = bytes[i + 2];
        let ghost s = bytes@.skip(i as int);
        assert(s[0] == b0 && s[1] == b1 && s[2] == b2);
        assert(s.skip(3) =~= bytes@.skip(i + 3));
        let ghost before = out@;
        out.push(b64_digit(b0 / 4));
        out.push(b64_digit((b0 % 4) * 16 + b1 / 16));
        out.push(b64_digit((b1 % 16) * 4 + b2 / 64));
        out.push(b64_digit(b2 % 64));
        assert(out@ =~= before + seq![
            b64_char((b0 / 4) as int),
            b64_char(((b0 % 4) * 16 + b1 / 16) as int),
            b64_char(((b1 % 16) * 4 + b2 / 64) as int),
            b64_char((b2 % 64) as int),
        ]);
        i += 3;
    }
    let ghost s = bytes@.skip(i as int);
    let ghost before = out@;
    if n - i == 1 {
        let b0 = bytes[i];
        assert(s[0] == b0);
        out.push(b64_digit(b0 / 4));
        out.push(b64_digit((b0 % 4) * 16));
        out.push('=');
        out.push('=');
        assert(out@ =~= before + b64_encode(s));
    } else if n - i == 2 {
        let b0 = bytes[i];
        let b1 = bytes[i + 1];
        assert(s[0] == b0 && s[1] == b1);
        out.push(b64_digit(b0 / 4));
        out.push(b64_digit((b0 % 4) * 16 + b1 / 16));
        out.push(b64_digit((b1 % 16) * 4));
        out.push('=');
        assert(out@ =~= before + b64_encode(s));
    } else {
        assert(s.len() == 0);
        assert(out@ =~= before + b64_encode(s));
    }
    assert(start + b64_encode(bytes@) =~= out@);
}

/// The bytes of a base64 text, or `None` where it is not one.
pub fn decode_base64(t: &[char]) -> (r: Option<Vec<u8>>)
    ensures
        match r {
            Some(v) => b64_decode(t@) == Some(v@),
            None => b64_decode(t@) is None,
        },
{
    let n = t.len();
    let mut out: Vec<u8> = Vec::new();
    let mut i: usize = 0;
    assert(t@.skip(0) =~= t@);
    while i < n
        invariant
            n == t.len(),
            i <= n,
            b64_decode(t@) == (match b64_decode(t@.skip(i as int)) {
                Some(r) => Some(out@ + r),
                None => None::<Seq<u8>>,
            }),
        decreases n - i,
    {
        let ghost s = t@.skip(i as int);
        if n - i < 4 {
            return None;
        }
        assert(s[0] == t@[i as int] && s[1] == t@[i + 1] && s[2] == t@[i + 2] && s[3] == t@[i + 3]);
        let last = n - i == 4;
        let va = b64_value(t[i]);
        let vb = b64_value(t[i + 1]);
        let (a, b) = match (va, vb) {
            (Some(a), Some(b)) => (a, b),
            _ => {
                return None;
            },
        };
        if last && t[i + 2] == '=' && t[i + 3] == '=' {
            out.push(a * 4 + b / 16);
            assert(b64_decode(t@) == Some(out@)) by {
                assert(s.len() == 4);
            }
            return Some(out);
        }
        let c = match b64_value(t[i + 2]) {
            Some(c) => c,
            None => {
                return None;
            },
        };
        if last && t[i + 3] == '=' {
            out.push(a * 4 + b / 16);
            out.push((b % 16) * 16 + c / 4);
            assert(b64_decode(t@) == Some(out@)) by {
                assert(s.len() == 4);
            }
            return Some(out);
        }
        let d = match b64_value(t[i + 3]) {
            Some(d) => d,
            None => {
                return None;
            },
        };
        let ghost before = out@;
        out.push(a * 4 + b / 16);
        out.push((b % 16) * 16 + c / 4);
        out.push((c % 4) * 64 + d);
        assert(s.skip(4) =~= t@.skip(i + 4));
        assert(out@ =~= before + seq![byte0(a as int, b as int), byte1(b as int, c as int), byte2(c as int, d as int)]);
        proof {
            match b64_decode(t@.skip(i + 4)) {
                Some(r) => {
                    assert(before + (seq![byte0(a as int, b as int), byte1(b as int, c as int), byte2(c as int, d as int)] + r) =~= out@ + r);
                },
                None => {},
            }
        }
        i += 4;
    }
    assert(t@.skip(n as int) =~= Seq::<char>::empty());
    assert(out@ + Seq::<u8>::empty() =~= out@);
    Some(out)
}

} // verus!

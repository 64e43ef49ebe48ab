//! Lower-case hexadecimal encoding of bytes, and decoding in either case.
use vstd::prelude::*;

verus! {

/// The lower-case hex digit for `n < 16`.
pub open spec fn hex_digit(n: nat) -> char {
    if n < 10 {
        ((n + 48) as u32) as char
    } else {
        ((n + 87) as u32) as char
    }
}

/// Two lower-case hex digits per byte, high nibble first.
pub open spec fn hex_encode(b: Seq<u8>) -> Seq<char>
    decreases b.len(),
{
    if b.len() == 0 {
        seq![]
    } else {
        hex_encode(b.drop_last()) + seq![
            hex_digit((b.last() / 16) as nat),
            hex_digit((b.last() % 16) as nat),
        ]
    }
}

/// The value of a hex digit in either case.
pub open spec fn nibble_value(c: char) -> Option<u8> {
    if '0' <= c <= '9' {
        Some(((c as u32) - 48) as u8)
    } else if 'a' <= c <= 'f' {
        Some(((c as u32) - 87) as u8)
    } else if 'A' <= c <= 'F' {
        Some(((c as u32) - 55) as u8)
    } else {
        None
    }
}

/// The bytes a hex text stands for: present when the text has an even number
/// of characters and all of them are hex digits.
pub open spec fn hex_decode(s: Seq<char>) -> Option<Seq<u8>>
    decreases s.len(),
{
    if s.len() == 0 {
        Some(seq![])
    } else if s.len() < 2 {
        None
    } else {
        match (
            hex_decode(s.subrange(0, s.len() - 2)),
            nibble_value(s[s.len() - 2]),
            nibble_value(s[s.len() - 1]),
        ) {
            (Some(p), Some(h), Some(l)) => Some(p.push((h * 16 + l) as u8)),
            _ => None,
        }
    }
}

proof fn lemma_nibble_of_digit(n: nat)
    requires
        n < 16,
    ensures
        nibble_value(hex_digit(n)) == Some(n as u8),
{
    if n < 10 {
        vstd::utf8::char_u32_cast(hex_digit(n), (n + 48) as u32);
    } else {
        vstd::utf8::char_u32_cast(hex_digit(n), (n + 87) as u32);
    }
}

/// The hex of `n` bytes has `2 * n` digits.
pub proof fn lemma_hex_encode_len(b: Seq<u8>)
    ensures
        hex_encode(b).len() == 2 * b.len(),
    decreases b.len(),
{
    if b.len() > 0 {
        lemma_hex_encode_len(b.drop_last());
    }
}

/// Decoding gives back the encoded bytes.
pub proof fn lemma_hex_roundtrip(b: Seq<u8>)
    ensures
        hex_decode(hex_encode(b)) == Some(b),
    decreases b.len(),
{
    if b.len() > 0 {
        let init = b.drop_last();
        lemma_hex_roundtrip(init);
        lemma_hex_encode_len(init);
        let x = b.last();
        let s = hex_encode(b);
        lemma_nibble_of_digit((x / 16) as nat);
        lemma_nibble_of_digit((x % 16) as nat);
        assert(s.subrange(0, s.len() - 2) =~= hex_encode(init));
        assert(s[s.len() - 2] == hex_digit((x / 16) as nat));
        assert(s[s.len() - 1] == hex_digit((x % 16) as nat));
        assert(((x / 16) * 16 + x % 16) as u8 == x);
        assert(init.push(x) =~= b);
    }
}

fn hex_char(n: u8) -> (c: char)
    requires
        n < 16,
    ensures
        c == hex_digit(n as nat),
{
    let c = if n < 10 {
        char_from_code((n as u32) + 48)
    } else {
        char_from_code((n as u32) + 87)
    };
    c
}

fn char_from_code(u: u32) -> (c: char)
    requires
        48 <= u <= 57 || 97 <= u <= 102,
    ensures
        c == u as char,
{
    let c = if u == 48 { '0' } else if u == 49 { '1' } else if u == 50 { '2' } else if u == 51 {
        '3'
    } else if u == 52 { '4' } else if u == 53 { '5' } else if u == 54 { '6' } else if u == 55 {
        '7'
    } else if u == 56 { '8' } else if u == 57 { '9' } else if u == 97 { 'a' } else if u == 98 {
        'b'
    } else if u == 99 { 'c' } else if u == 100 { 'd' } else if u == 101 { 'e' } else { 'f' };
    proof {
        vstd::utf8::char_u32_cast(c, u);
    }
    c
}

/// `hex_encode(b)`, computed.
pub fn encode_hex(b: &[u8]) -> (r: Vec<char>)
    ensures
        r@ == hex_encode(b@),
{
    let mut r: Vec<char> = Vec::new();
    let n = b.len();
    for i in 0..n
        invariant
            n == b@.len(),
            r@ == hex_encode(b@.take(i as int)),
    {
        let x = b[i];
        proof {
            assert(b@.take(i + 1).drop_last() =~= b@.take(i as int));
            assert(b@.take(i + 1).last() == x);
        }
        r.push(hex_char(x / 16));
        r.push(hex_char(x % 16));
        assert(r@ =~= hex_encode(b@.take(i + 1)));
    }
    assert(b@.take(n as int) =~= b@);
    r
}

fn decode_nibble(c: char) -> (r: Option<u8>)
    ensures
        r == nibble_value(c),
{
    if '0' <= c && c <= '9' {
        Some(((c as u32) - 48) as u8)
    } else if 'a' <= c && c <= 'f' {
        Some(((c as u32) - 87) as u8)
    } else if 'A' <= c && c <= 'F' {
        Some(((c as u32) - 55) as u8)
    } else {
        None
    }
}

/// `hex_decode(s)`, computed.
pub fn decode_hex(s: &[char]) -> (r: Option<Vec<u8>>)
    ensures
        match r {
            Some(v) => hex_decode(s@) == Some(v@),
            None => hex_decode(s@) is None,
        },
{
    let n = s.len();
    if n % 2 != 0 {
        proof {
            lemma_decode_odd(s@);
        }
        return None;
    }
    let mut bytes: Vec<u8> = Vec::new();
    let mut i: usize = 0;
    while i < n
        invariant
            n == s@.len(),
            n % 2 == 0,
            i % 2 == 0,
            i <= n,
            hex_decode(s@.subrange(0, i as int)) == Some(bytes@),
        decreases n - i,
    {
        let high = decode_nibble(s[i]);
        let low = decode_nibble(s[i + 1]);
        proof {
            let t = s@.subrange(0, i + 2);
            assert(t.subrange(0, t.len() - 2) =~= s@.subrange(0, i as int));
            assert(t[t.len() - 2] == s@[i as int]);
            assert(t[t.len() - 1] == s@[i + 1]);
        }
        match (high, low) {
            (Some(h), Some(l)) => {
                bytes.push(h * 16 + l);
            },
            _ => {
                proof {
                    lemma_decode_prefix_none(s@, i as int + 2);
                }
                return None;
            },
        }
        i = i + 2;
    }
    assert(s@.subrange(0, n as int) =~= s@);
    Some(bytes)
}

proof fn lemma_decode_odd(s: Seq<char>)
    requires
        s.len() % 2 == 1,
    ensures
        hex_decode(s) is None,
    decreases s.len(),
{
    if s.len() >= 2 {
        lemma_decode_odd(s.subrange(0, s.len() - 2));
    }
}

/// Once a prefix of even length fails to decode, so does every extension.
proof fn lemma_decode_prefix_none(s: Seq<char>, k: int)
    requires
        0 <= k <= s.len(),
        k % 2 == 0,
        s.len() % 2 == 0,
        hex_decode(s.subrange(0, k)) is None,
    ensures
        hex_decode(s) is None,
    decreases s.len() - k,
{
    if k < s.len() {
        let t = s.subrange(0, k + 2);
        assert(t.subrange(0, t.len() - 2) =~= s.subrange(0, k));
        lemma_decode_prefix_none(s, k + 2);
    } else {
        assert(s.subrange(0, k) =~= s);
    }
}

} // verus!

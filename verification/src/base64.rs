//! Base64 encoding, alphabet `A-Za-z0-9+/` with `=` padding.
//!
//! The input is consumed in 3-byte groups; each group becomes four 6-bit
//! values, each printed as one character of the alphabet. A trailing group of
//! 2 bytes yields 3 data characters and one `=`; a trailing group of 1 byte
//! yields 2 data characters and two `=`.

use vstd::arithmetic::div_mod::lemma_div_plus_one;
use vstd::prelude::*;

verus! {

/// The `=` padding character.
pub const PAD_BYTE: u8 = 61;

/// The alphabet character for a 6-bit value.
pub open spec fn b64_char(v: int) -> u8
    recommends
        0 <= v < 64,
{
    if v < 26 {
        (65 + v) as u8  // 'A'..='Z'
    } else if v < 52 {
        (97 + (v - 26)) as u8  // 'a'..='z'
    } else if v < 62 {
        (48 + (v - 52)) as u8  // '0'..='9'
    } else if v == 62 {
        43u8  // '+'
    } else {
        47u8  // '/'
    }
}

/// The four characters of one full 3-byte group: 6 + 2|4 + 4|2 + 6 bits.
pub open spec fn encode3(b0: u8, b1: u8, b2: u8) -> Seq<u8> {
    seq![
        b64_char(b0 as int / 4),
        b64_char((b0 as int % 4) * 16 + b1 as int / 16),
        b64_char((b1 as int % 16) * 4 + b2 as int / 64),
        b64_char(b2 as int % 64),
    ]
}

/// The full encoding of a byte sequence, including padding.
pub open spec fn spec_encode(s: Seq<u8>) -> Seq<u8>
    decreases s.len(),
{
    if s.len() == 0 {
        Seq::empty()
    } else if s.len() == 1 {
        seq![b64_char(s[0] as int / 4), b64_char((s[0] as int % 4) * 16), PAD_BYTE, PAD_BYTE]
    } else if s.len() == 2 {
        seq![
            b64_char(s[0] as int / 4),
            b64_char((s[0] as int % 4) * 16 + s[1] as int / 16),
            b64_char((s[1] as int % 16) * 4),
            PAD_BYTE,
        ]
    } else {
        encode3(s[0], s[1], s[2]) + spec_encode(s.skip(3))
    }
}

/// A byte sequence read as characters, one character per byte.
pub open spec fn spec_chars(bytes: Seq<u8>) -> Seq<char> {
    bytes.map_values(|b: u8| b as char)
}

/// The encoding of a sequence splits at any group boundary.
proof fn lemma_encode_split(s: Seq<u8>, i: int)
    requires
        0 <= i <= s.len(),
        i % 3 == 0,
    ensures
        spec_encode(s) == spec_encode(s.take(i)) + spec_encode(s.skip(i)),
    decreases i,
{
    if i == 0 {
        assert(s.take(0) =~= Seq::<u8>::empty());
        assert(s.skip(0) =~= s);
        assert(spec_encode(s) =~= spec_encode(s.take(0)) + spec_encode(s.skip(0)));
    } else {
        lemma_encode_split(s.skip(3), i - 3);
        assert(s.skip(3).take(i - 3) =~= s.take(i).skip(3));
        assert(s.skip(3).skip(i - 3) =~= s.skip(i));
        let t = s.take(i);
        assert(t.len() >= 3);
        assert(t[0] == s[0] && t[1] == s[1] && t[2] == s[2]);
        assert(spec_encode(t) == encode3(s[0], s[1], s[2]) + spec_encode(t.skip(3)));
        assert(spec_encode(s) =~= spec_encode(s.take(i)) + spec_encode(s.skip(i)));
    }
}

/// The encoded length is `ceil(n / 3) * 4`.
proof fn lemma_encode_len(s: Seq<u8>)
    ensures
        spec_encode(s).len() == ((s.len() + 2) / 3) * 4,
    decreases s.len(),
{
    let n = s.len() as int;
    if n >= 3 {
        lemma_encode_len(s.skip(3));
        lemma_div_plus_one(n - 1, 3);
        assert((n - 3 + 2) / 3 + 1 == (n + 2) / 3);
    }
}

/// Every byte the encoder emits is an ASCII byte.
proof fn lemma_encode_ascii(s: Seq<u8>)
    ensures
        forall|j: int| 0 <= j < spec_encode(s).len() ==> spec_encode(s)[j] < 128,
    decreases s.len(),
{
    if s.len() >= 3 {
        lemma_encode_ascii(s.skip(3));
        assert forall|j: int| 0 <= j < spec_encode(s).len() implies spec_encode(s)[j]
            < 128 by {
            if j >= 4 {
                assert(spec_encode(s)[j] == spec_encode(s.skip(3))[j - 4]);
            }
        }
    }
}

/// The alphabet character for a 6-bit value, as executable code.
fn b64_byte(v: u8) -> (r: u8)
    requires
        v < 64,
    ensures
        r == b64_char(v as int),
{
    if v < 26 {
        65 + v
    } else if v < 52 {
        97 + (v - 26)
    } else if v < 62 {
        48 + (v - 52)
    } else if v == 62 {
        43
    } else {
        47
    }
}

/// Encode the input into base64 bytes.
pub fn encode_bytes(input: &[u8]) -> (out: Vec<u8>)
    ensures
        out@ == spec_encode(input@),
{
    let n = input.len();
    let mut out: Vec<u8> = Vec::new();
    let mut i: usize = 0;
    while n - i >= 3
        invariant
            n == input@.len(),
            i <= n,
            i % 3 == 0,
            out@ == spec_encode(input@.take(i as int)),
        decreases n - i,
    {
        let b0 = input[i];
        let b1 = input[i + 1];
        let b2 = input[i + 2];
        out.push(b64_byte(b0 / 4));
        out.push(b64_byte((b0 % 4) * 16 + b1 / 16));
        out.push(b64_byte((b1 % 16) * 4 + b2 / 64));
        out.push(b64_byte(b2 % 64));
        proof {
            let s = input@;
            lemma_encode_split(s.take(i + 3), i as int);
            assert(s.take(i + 3).take(i as int) =~= s.take(i as int));
            let g = s.take(i + 3).skip(i as int);
            assert(g =~= seq![s[i as int], s[i as int + 1], s[i as int + 2]]);
            assert(g.skip(3) =~= Seq::<u8>::empty());
            assert(spec_encode(g) == encode3(s[i as int], s[i as int + 1], s[i as int + 2])
                + spec_encode(g.skip(3)));
            assert(out@ =~= spec_encode(s.take(i + 3)));
        }
        i = i + 3;
    }
    proof {
        lemma_encode_split(input@, i as int);
    }
    if n - i == 2 {
        let b0 = input[i];
        let b1 = input[i + 1];
        out.push(b64_byte(b0 / 4));
        out.push(b64_byte((b0 % 4) * 16 + b1 / 16));
        out.push(b64_byte((b1 % 16) * 4));
        out.push(61);
        proof {
            let g = input@.skip(i as int);
            assert(g.len() == 2);
            assert(g[0] == input@[i as int] && g[1] == input@[i as int + 1]);
            assert(out@ =~= spec_encode(input@));
        }
    } else if n - i == 1 {
        let b0 = input[i];
        out.push(b64_byte(b0 / 4));
        out.push(b64_byte((b0 % 4) * 16));
        out.push(61);
        out.push(61);
        proof {
            let g = input@.skip(i as int);
            assert(g.len() == 1);
            assert(g[0] == input@[i as int]);
            assert(out@ =~= spec_encode(input@));
        }
    } else {
        proof {
            assert(input@.skip(i as int).len() == 0);
            assert(input@.take(i as int) =~= input@);
            assert(out@ =~= spec_encode(input@));
        }
    }
    out
}

/// Relies on `String::from_utf8`: a byte vector that is valid UTF-8 becomes a
/// string holding exactly those bytes, and ASCII bytes decode to one character
/// each, equal to the byte's code point.
#[verifier::external_body]
pub(crate) fn ascii_to_string(bytes: Vec<u8>) -> (r: String)
    requires
        forall|j: int| 0 <= j < bytes@.len() ==> bytes@[j] < 128,
    ensures
        r@ == spec_chars(bytes@),
{
    match String::from_utf8(bytes) {
        Ok(s) => s,
        Err(_) => String::new(),
    }
}

/// Encode the input as a base64 string of length `ceil(n / 3) * 4`.
pub fn encode(input: &[u8]) -> (r: String)
    ensures
        r@ == spec_chars(spec_encode(input@)),
        r@.len() == ((input@.len() + 2) / 3) * 4,
{
    proof {
        lemma_encode_ascii(input@);
        lemma_encode_len(input@);
    }
    let buf = encode_bytes(input);
    ascii_to_string(buf)
}

} // verus!


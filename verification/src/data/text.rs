//! The high-bit encoding of lexicons and signal descriptors.
//!
//! Both are ordinary text with the top bit set on every byte but the line
//! ends. Clearing it is the whole transform.
use vstd::prelude::*;
use super::chars::{chars_of, text_of};

verus! {

/// How much of a file is looked at to tell whether it is encoded.
pub const SAMPLE: usize = 4096;

/// The text of an encoded file.
pub open spec fn decoded(raw: Seq<u8>) -> Seq<char> {
    raw.map_values(|b: u8| (b % 128) as char)
}

/// The bytes as characters, one for one.
pub open spec fn latin1(raw: Seq<u8>) -> Seq<char> {
    raw.map_values(|b: u8| b as char)
}

/// The byte that stands for a character: itself up to 255, a question mark
/// beyond.
pub open spec fn narrow(c: char) -> u8 {
    if c <= '\u{ff}' {
        c as u8
    } else {
        63
    }
}

/// The byte that stands for a character in an encoded file.
pub open spec fn encoded_byte(c: char) -> u8 {
    let b = narrow(c);
    if b == 10 || b == 13 || b >= 128 {
        b
    } else {
        (b + 128) as u8
    }
}

/// The bytes of an encoded text.
pub open spec fn encoded(text: Seq<char>) -> Seq<u8> {
    text.map_values(|c: char| encoded_byte(c))
}

/// How many of the first `n` bytes have their top bit set.
pub open spec fn high_bytes(raw: Seq<u8>, n: nat) -> nat
    decreases n,
{
    if n == 0 {
        0
    } else {
        high_bytes(raw, (n - 1) as nat) + if raw[n - 1] >= 128 {
            1nat
        } else {
            0
        }
    }
}

/// How many bytes are looked at.
pub open spec fn sampled(raw: Seq<u8>) -> nat {
    if raw.len() < SAMPLE {
        raw.len()
    } else {
        SAMPLE as nat
    }
}

/// Whether most of the bytes looked at have their top bit set.
pub open spec fn is_encoded(raw: Seq<u8>) -> bool {
    high_bytes(raw, sampled(raw)) * 2 > sampled(raw)
}

/// The text of a file in either form.
pub open spec fn text_in(raw: Seq<u8>) -> Seq<char> {
    if is_encoded(raw) {
        decoded(raw)
    } else {
        latin1(raw)
    }
}

/// The bytes as characters, with their top bit cleared where `mask` says.
fn chars_in(raw: &[u8], mask: bool) -> (r: Vec<char>)
    ensures
        r@ == if mask {
            decoded(raw@)
        } else {
            latin1(raw@)
        },
{
    let mut out: Vec<char> = Vec::new();
    let mut i: usize = 0;
    while i < raw.len()
        invariant
            i <= raw@.len(),
            out@.len() == i,
            forall|k: int|
                0 <= k < i ==> out@[k] == if mask {
                    (raw@[k] % 128) as char
                } else {
                    raw@[k] as char
                },
        decreases raw@.len() - i,
    {
        let b: u8 = raw[i];
        out.push(
            if mask {
                (b % 128) as char
            } else {
                b as char
            },
        );
        i = i + 1;
    }
    assert(out@ =~= if mask {
        decoded(raw@)
    } else {
        latin1(raw@)
    });
    out
}

/// The bytes as characters, one for one.
pub fn latin1_chars(raw: &[u8]) -> (r: Vec<char>)
    ensures
        r@ == latin1(raw@),
{
    chars_in(raw, false)
}

/// The characters of a file in either form.
pub fn chars_auto(raw: &[u8]) -> (r: Vec<char>)
    ensures
        r@ == text_in(raw@),
{
    let encoded: bool = looks_encoded(raw);
    chars_in(raw, encoded)
}

/// Decodes a file by clearing the top bit of every byte.
pub fn decode(raw: &[u8]) -> (r: String)
    ensures
        r@ == decoded(raw@),
{
    text_of(chars_in(raw, true).as_slice())
}

/// Encodes a text. Line ends stay bare, and a character beyond 255 becomes a
/// question mark.
pub fn encode(text: &str) -> (r: Vec<u8>)
    ensures
        r@ == encoded(text@),
{
    let cs: Vec<char> = chars_of(text);
    let mut out: Vec<u8> = Vec::new();
    let mut i: usize = 0;
    while i < cs.len()
        invariant
            i <= cs@.len(),
            cs@ == text@,
            out@.len() == i,
            forall|k: int| 0 <= k < i ==> out@[k] == encoded_byte(cs@[k]),
        decreases cs@.len() - i,
    {
        let c: char = cs[i];
        let b: u8 = if c <= '\u{ff}' {
            c as u8
        } else {
            63
        };
        out.push(
            if b == 10 || b == 13 || b >= 128 {
                b
            } else {
                b + 128
            },
        );
        i = i + 1;
    }
    assert(out@ =~= encoded(text@));
    out
}

/// Whether a file looks encoded: most of its first bytes have the top bit set.
pub fn looks_encoded(raw: &[u8]) -> (r: bool)
    ensures
        r == is_encoded(raw@),
{
    let n: usize = if raw.len() < SAMPLE {
        raw.len()
    } else {
        SAMPLE
    };
    let mut high: usize = 0;
    let mut i: usize = 0;
    while i < n
        invariant
            i <= n <= SAMPLE,
            n == sampled(raw@),
            high <= i,
            high == high_bytes(raw@, i as nat),
        decreases n - i,
    {
        if raw[i] >= 128 {
            high = high + 1;
        }
        i = i + 1;
    }
    high * 2 > n
}

/// Decodes a file that looks encoded, and reads any other byte for byte.
pub fn decode_auto(raw: &[u8]) -> (r: String)
    ensures
        r@ == text_in(raw@),
{
    text_of(chars_auto(raw).as_slice())
}

/// Decoding undoes encoding on seven-bit text.
pub proof fn decoding_undoes_encoding(text: Seq<char>)
    requires
        forall|i: int| 0 <= i < text.len() ==> '\u{0}' <= #[trigger] text[i] <= '\u{7f}',
    ensures
        decoded(encoded(text)) == text,
{
    assert forall|i: int| 0 <= i < text.len() implies decoded(encoded(text))[i] == text[i] by {
        let c = text[i];
        assert('\u{0}' <= c <= '\u{7f}');
        assert(encoded(text)[i] == encoded_byte(c));
    }
    assert(decoded(encoded(text)) =~= text);
}

} // verus!

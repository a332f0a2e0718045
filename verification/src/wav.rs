//! A file around samples: the header of a mono recording of sixteen bits.
use vstd::prelude::*;
use crate::engine::cfmt::push_bytes;
use crate::xrt::mem::{half_bytes, word_bytes};

verus! {

/// The header for `data` bytes of samples.
pub open spec fn header(data: u32, rate: u32) -> Seq<u8> {
    seq![82u8, 73u8, 70u8, 70u8] + word_bytes((36 + data) as u32) + seq![
        87u8,
        65u8,
        86u8,
        69u8,
        102u8,
        109u8,
        116u8,
        32u8,
    ] + word_bytes(16) + half_bytes(1) + half_bytes(1) + word_bytes(rate) + word_bytes(
        (rate * 2) as u32,
    ) + half_bytes(2) + half_bytes(16) + seq![100u8, 97u8, 116u8, 97u8] + word_bytes(data)
}

fn push_half(out: &mut Vec<u8>, v: u16)
    ensures
        final(out)@ == old(out)@ + half_bytes(v),
{
    out.push((v % 0x100) as u8);
    out.push((v / 0x100) as u8);
    assert(out@ =~= old(out)@ + half_bytes(v));
}

fn push_word(out: &mut Vec<u8>, v: u32)
    ensures
        final(out)@ == old(out)@ + word_bytes(v),
{
    out.push((v % 0x100) as u8);
    out.push((v / 0x100 % 0x100) as u8);
    out.push((v / 0x1_0000 % 0x100) as u8);
    out.push((v / 0x100_0000) as u8);
    assert(out@ =~= old(out)@ + word_bytes(v));
}

/// Puts the header before samples: mono, sixteen bits, `rate` of them a second.
pub fn wav(pcm: &[u8], rate: u32) -> (r: Vec<u8>)
    requires
        pcm@.len() + 36 <= u32::MAX,
        rate * 2 <= u32::MAX,
    ensures
        r@ == header(pcm@.len() as u32, rate) + pcm@,
        r@.len() == 44 + pcm@.len(),
{
    let data: u32 = pcm.len() as u32;
    let mut out: Vec<u8> = vec![82u8, 73u8, 70u8, 70u8];
    assert(out@ =~= seq![82u8, 73u8, 70u8, 70u8]);
    push_word(&mut out, 36 + data);
    let kind: Vec<u8> = vec![87u8, 65u8, 86u8, 69u8, 102u8, 109u8, 116u8, 32u8];
    assert(kind@ =~= seq![87u8, 65u8, 86u8, 69u8, 102u8, 109u8, 116u8, 32u8]);
    push_bytes(&mut out, kind.as_slice());
    push_word(&mut out, 16);
    push_half(&mut out, 1);
    push_half(&mut out, 1);
    push_word(&mut out, rate);
    push_word(&mut out, rate * 2);
    push_half(&mut out, 2);
    push_half(&mut out, 16);
    let mark: Vec<u8> = vec![100u8, 97u8, 116u8, 97u8];
    assert(mark@ =~= seq![100u8, 97u8, 116u8, 97u8]);
    push_bytes(&mut out, mark.as_slice());
    push_word(&mut out, data);
    assert(out@.len() == 44);
    push_bytes(&mut out, pcm);
    out
}

/// Whether samples and a rate fit a header.
pub fn fits(pcm: &[u8], rate: u32) -> (r: bool)
    ensures
        r == (pcm@.len() + 36 <= u32::MAX && rate * 2 <= u32::MAX),
{
    pcm.len() as u64 <= (u32::MAX - 36) as u64 && rate <= u32::MAX / 2
}

/// The samples follow the header as they are.
pub proof fn samples_follow_the_header(pcm: Seq<u8>, rate: u32)
    requires
        pcm.len() + 36 <= u32::MAX,
    ensures
        header(pcm.len() as u32, rate).len() == 44,
        (header(pcm.len() as u32, rate) + pcm).subrange(44, 44 + pcm.len() as int) == pcm,
{
    let h = header(pcm.len() as u32, rate);
    assert((h + pcm).subrange(44, 44 + pcm.len() as int) =~= pcm);
}

/// The number that four bytes of a header make, the lowest first.
pub open spec fn four(h: Seq<u8>, i: int) -> int {
    h[i] + 0x100 * h[i + 1] + 0x1_0000 * h[i + 2] + 0x100_0000 * h[i + 3]
}

/// The number that two bytes of a header make, the lower first.
pub open spec fn two(h: Seq<u8>, i: int) -> int {
    h[i] + 0x100 * h[i + 1]
}

proof fn word_stands(h: Seq<u8>, i: int, v: u32)
    requires
        h.subrange(i, i + 4) == word_bytes(v),
        0 <= i,
        i + 4 <= h.len(),
    ensures
        four(h, i) == v,
{
    let s = h.subrange(i, i + 4);
    assert(s[0] == h[i] && s[1] == h[i + 1] && s[2] == h[i + 2] && s[3] == h[i + 3]);
}

proof fn half_stands(h: Seq<u8>, i: int, v: u16)
    requires
        h.subrange(i, i + 2) == half_bytes(v),
        0 <= i,
        i + 2 <= h.len(),
    ensures
        two(h, i) == v,
{
    let s = h.subrange(i, i + 2);
    assert(s[0] == h[i] && s[1] == h[i + 1]);
}

/// What a header's fields say of each other and of the file: how long the file
/// is past its first eight bytes, how much of it samples are, and how many bytes
/// make a second, from the rate, the channels and the bits of a sample.
pub proof fn header_fields_agree(data: u32, rate: u32)
    requires
        data + 36 <= u32::MAX,
        rate * 2 <= u32::MAX,
    ensures
        ({
            let h = header(data, rate);
            &&& h.len() == 44
            &&& four(h, 4) == h.len() - 8 + data
            &&& four(h, 40) == data
            &&& four(h, 16) == 36 - 20
            &&& two(h, 20) == 1
            &&& two(h, 22) == 1
            &&& four(h, 24) == rate
            &&& two(h, 34) == 16
            &&& two(h, 32) == two(h, 22) * two(h, 34) / 8
            &&& four(h, 28) == rate * two(h, 32)
        }),
{
    let h = header(data, rate);
    assert(h.len() == 44);
    assert(h.subrange(4, 8) =~= word_bytes((36 + data) as u32));
    word_stands(h, 4, (36 + data) as u32);
    assert(h.subrange(16, 20) =~= word_bytes(16));
    word_stands(h, 16, 16);
    assert(h.subrange(20, 22) =~= half_bytes(1));
    half_stands(h, 20, 1);
    assert(h.subrange(22, 24) =~= half_bytes(1));
    half_stands(h, 22, 1);
    assert(h.subrange(24, 28) =~= word_bytes(rate));
    word_stands(h, 24, rate);
    assert(h.subrange(28, 32) =~= word_bytes((rate * 2) as u32));
    word_stands(h, 28, (rate * 2) as u32);
    assert(h.subrange(32, 34) =~= half_bytes(2));
    half_stands(h, 32, 2);
    assert(h.subrange(34, 36) =~= half_bytes(16));
    half_stands(h, 34, 16);
    assert(h.subrange(40, 44) =~= word_bytes(data));
    word_stands(h, 40, data);
}

} // verus!

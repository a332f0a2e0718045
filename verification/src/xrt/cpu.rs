//! Registers, and the routines that take their arguments in them.
//!
//! Floating-point registers hold the bits of a double. A double in memory has
//! its upper word first; a saved register takes twelve bytes, its lower word
//! first, and ends in a tag.
use vstd::prelude::*;
use super::flags::Flags;
use super::mem::{word_bytes, Mem, Space};
use super::text::{
    comparable, compare, copy_forward, difference, fill, find_bytes, first_found, forward_copies,
    forward_keeps_regions, regions_decide, text_at, text_len,
};

verus! {

/// The last word of a saved floating-point register.
pub const EXT_TAG: u32 = 0x464C_4F51;

/// The registers.
#[derive(Clone, Debug)]
pub struct Cpu {
    /// The general registers.
    pub r: [u32; 16],
    /// The flags.
    pub f: Flags,
    /// The bits of the floating-point registers.
    pub fp: [u64; 8],
    /// The floating-point status.
    pub fpsr: u32,
}

impl Default for Cpu {
    fn default() -> (c: Self)
        ensures
            c.r@ == Seq::new(16, |i: int| 0u32),
            c.f == (Flags { n: false, z: false, c: false, v: false }),
            c.fp@ == Seq::new(8, |i: int| 0u64),
            c.fpsr == 0,
    {
        let c = Cpu { r: [0u32; 16], f: Flags::default(), fp: [0u64; 8], fpsr: 0 };
        assert(c.r@ =~= Seq::new(16, |i: int| 0u32));
        assert(c.fp@ =~= Seq::new(8, |i: int| 0u64));
        c
    }
}

impl Cpu {
    /// Whether only the general registers differ, and what they are.
    pub open spec fn became(self, before: Cpu, r: Seq<u32>) -> bool {
        self.r@ == r && self.f == before.f && self.fp == before.fp && self.fpsr == before.fpsr
    }

    /// Whether only the result register differs, and what it holds.
    pub open spec fn gives(self, before: Cpu, v: u32) -> bool {
        self.became(before, before.r@.update(0, v))
    }
}

/// Leaves a result.
pub fn give(c: &mut Cpu, v: u32)
    ensures
        final(c).gives(*old(c), v),
{
    c.r[0] = v;
}

/// Two words as one number.
pub open spec fn joined(hi: u32, lo: u32) -> u64 {
    (hi * 0x1_0000_0000 + lo) as u64
}

fn join(hi: u32, lo: u32) -> (r: u64)
    ensures
        r == joined(hi, lo),
{
    hi as u64 * 0x1_0000_0000 + lo as u64
}

/// A saved register's number.
pub open spec fn saved_at(m: Space, a: int) -> u64 {
    joined(m.word(a + 4), m.word(a))
}

/// The bytes of a saved register.
pub open spec fn saved(v: u64) -> Seq<u8> {
    word_bytes((v % 0x1_0000_0000) as u32) + word_bytes((v / 0x1_0000_0000) as u32) + word_bytes(
        EXT_TAG,
    )
}

/// Whether the two words of a number are there.
pub open spec fn pair(m: Space, a: int) -> bool {
    a + 8 <= 0x1_0000_0000 && m.mapped(a, 4) && m.mapped(a + 4, 4)
}

/// Whether the words of a saved register are there.
pub open spec fn slot(m: Space, a: int) -> bool {
    a + 12 <= 0x1_0000_0000 && m.mapped(a, 4) && m.mapped(a + 4, 4) && m.mapped(a + 8, 4)
}

/// What two numbers are to each other.
#[derive(Clone, Copy, Debug, PartialEq, Eq, Structural)]
pub enum Order {
    /// The first is less.
    Less,
    /// They are equal.
    Equal,
    /// The first is greater.
    Greater,
    /// One of them is no number.
    Unordered,
}

/// Sets the flags for a comparison.
pub fn fpa_order(c: &mut Cpu, order: Order)
    ensures
        final(c).r == old(c).r,
        final(c).fp == old(c).fp,
        final(c).fpsr == old(c).fpsr,
        final(c).f == (Flags {
            n: order == Order::Less,
            z: order == Order::Equal,
            c: order != Order::Less,
            v: order == Order::Unordered,
        }),
{
    c.f = Flags {
        n: order == Order::Less,
        z: order == Order::Equal,
        c: order != Order::Less,
        v: order == Order::Unordered,
    };
}

/// Loads a register from a double (`prec` 1) or from a saved register (above).
/// A single has to be widened first.
pub fn fpa_ldf(c: &mut Cpu, m: &Mem, fd: usize, prec: u32, a: u32)
    requires
        fd < 8,
        prec >= 1,
        pair(m@, a as int),
    ensures
        final(c).r == old(c).r,
        final(c).f == old(c).f,
        final(c).fpsr == old(c).fpsr,
        final(c).fp@ == old(c).fp@.update(
            fd as int,
            if prec == 1 {
                joined(m@.word(a as int), m@.word(a + 4))
            } else {
                saved_at(m@, a as int)
            },
        ),
{
    let (x, y) = (m.r32(a), m.r32(a + 4));
    c.fp[fd] = if prec == 1 {
        join(x, y)
    } else {
        join(y, x)
    };
}

/// Stores a register as a double (`prec` 1) or as a saved register (above).
pub fn fpa_stf(c: &Cpu, m: &mut Mem, fd: usize, prec: u32, a: u32)
    requires
        fd < 8,
        prec >= 1,
        pair(old(m)@, a as int),
        prec > 1 ==> slot(old(m)@, a as int),
    ensures
        prec == 1 ==> final(m)@ == old(m)@.write(
            a as int,
            word_bytes((c.fp@[fd as int] / 0x1_0000_0000) as u32) + word_bytes(
                (c.fp@[fd as int] % 0x1_0000_0000) as u32,
            ),
        ),
        prec > 1 ==> final(m)@ == old(m)@.write(a as int, saved(c.fp@[fd as int])),
{
    let v: u64 = c.fp[fd];
    if prec == 1 {
        let ghost before = m@;
        let (hi, lo) = ((v / 0x1_0000_0000) as u32, (v % 0x1_0000_0000) as u32);
        m.w32(a, hi);
        proof {
            regions_decide(before, m@);
        }
        m.w32(a + 4, lo);
        assert(m@ =~= before.write(a as int, word_bytes(hi) + word_bytes(lo)));
    } else {
        write_ext(m, a, v);
    }
}

/// Saves a number.
fn write_ext(m: &mut Mem, a: u32, v: u64)
    requires
        slot(old(m)@, a as int),
    ensures
        final(m)@ == old(m)@.write(a as int, saved(v)),
{
    let ghost before = m@;
    m.w32(a, (v % 0x1_0000_0000) as u32);
    proof {
        regions_decide(before, m@);
    }
    let ghost second = m@;
    m.w32(a + 4, (v / 0x1_0000_0000) as u32);
    proof {
        regions_decide(second, m@);
    }
    m.w32(a + 8, EXT_TAG);
    assert(m@ =~= before.write(a as int, saved(v)));
}

/// The registers after `n` saved ones were loaded, starting with `fd`.
pub open spec fn loaded(fp: Seq<u64>, m: Space, fd: int, a: int, n: nat) -> Seq<u64>
    decreases n,
{
    if n == 0 {
        fp
    } else {
        loaded(fp, m, fd, a, (n - 1) as nat).update(
            (fd + n - 1) % 8,
            saved_at(m, a + 12 * (n - 1)),
        )
    }
}

/// Memory after `n` registers were saved, starting with `fd`.
pub open spec fn stored(m: Space, fp: Seq<u64>, fd: int, a: int, n: nat) -> Space
    decreases n,
{
    if n == 0 {
        m
    } else {
        stored(m, fp, fd, a, (n - 1) as nat).write(a + 12 * (n - 1), saved(fp[(fd + n - 1) % 8]))
    }
}

/// Whether `n` saved registers are there.
pub open spec fn slots(m: Space, a: int, n: int) -> bool {
    forall|i: int| 0 <= i < n ==> #[trigger] slot(m, a + 12 * i)
}

/// Whether the numbers of `n` saved registers are there.
pub open spec fn pairs(m: Space, a: int, n: int) -> bool {
    forall|i: int| 0 <= i < n ==> #[trigger] pair(m, a + 12 * i)
}

/// Loads `count` saved registers.
pub fn fpa_lfm(c: &mut Cpu, m: &Mem, fd: usize, count: usize, a: u32)
    requires
        pairs(m@, a as int, count as int),
    ensures
        final(c).r == old(c).r,
        final(c).f == old(c).f,
        final(c).fpsr == old(c).fpsr,
        final(c).fp@ == loaded(old(c).fp@, m@, fd as int, a as int, count as nat),
{
    let ghost fp = c.fp@;
    let mut i: usize = 0;
    let mut at: usize = fd % 8;
    while i < count
        invariant
            i <= count,
            at == (fd + i) % 8,
            pairs(m@, a as int, count as int),
            c.r == old(c).r,
            c.f == old(c).f,
            c.fpsr == old(c).fpsr,
            c.fp@ == loaded(fp, m@, fd as int, a as int, i as nat),
        decreases count - i,
    {
        assert(pair(m@, a + 12 * i));
        let x: u32 = a + 12 * i as u32;
        let v: u64 = join(m.r32(x + 4), m.r32(x));
        c.fp[at] = v;
        i = i + 1;
        at = (at + 1) % 8;
    }
}

/// Saves `count` registers.
pub fn fpa_sfm(c: &Cpu, m: &mut Mem, fd: usize, count: usize, a: u32)
    requires
        slots(old(m)@, a as int, count as int),
    ensures
        final(m)@ == stored(old(m)@, c.fp@, fd as int, a as int, count as nat),
{
    let ghost before = m@;
    let mut i: usize = 0;
    let mut at: usize = fd % 8;
    while i < count
        invariant
            i <= count,
            at == (fd + i) % 8,
            slots(before, a as int, count as int),
            m@.extents == before.extents,
            m@ == stored(before, c.fp@, fd as int, a as int, i as nat),
        decreases count - i,
    {
        proof {
            regions_decide(before, m@);
            assert(slot(before, a + 12 * i));
        }
        write_ext(m, a + 12 * i as u32, c.fp[at]);
        i = i + 1;
        at = (at + 1) % 8;
    }
}

/// Loading what was saved gives the registers back.
pub proof fn saved_registers_come_back(
    m: Space,
    fp: Seq<u64>,
    other: Seq<u64>,
    fd: int,
    a: int,
    n: nat,
    i: int,
)
    requires
        fp.len() == 8,
        other.len() == 8,
        0 <= fd,
        n <= 8,
        0 <= i < n,
    ensures
        loaded(other, stored(m, fp, fd, a, n), fd, a, n)[(fd + i) % 8] == fp[(fd + i) % 8],
{
    stored_slots(m, fp, fd, a, n, i);
    loaded_slots(other, stored(m, fp, fd, a, n), fd, a, n, i);
}

proof fn loaded_slots(fp: Seq<u64>, m: Space, fd: int, a: int, n: nat, i: int)
    requires
        fp.len() == 8,
        0 <= fd,
        n <= 8,
        0 <= i < n,
    ensures
        loaded(fp, m, fd, a, n).len() == 8,
        loaded(fp, m, fd, a, n)[(fd + i) % 8] == saved_at(m, a + 12 * i),
    decreases n,
{
    loaded_len(fp, m, fd, a, (n - 1) as nat);
    if i < n - 1 {
        loaded_slots(fp, m, fd, a, (n - 1) as nat, i);
        assert((fd + i) % 8 != (fd + n - 1) % 8);
    }
}

proof fn loaded_len(fp: Seq<u64>, m: Space, fd: int, a: int, n: nat)
    requires
        fp.len() == 8,
    ensures
        loaded(fp, m, fd, a, n).len() == 8,
    decreases n,
{
    if n > 0 {
        loaded_len(fp, m, fd, a, (n - 1) as nat);
    }
}

proof fn stored_slots(m: Space, fp: Seq<u64>, fd: int, a: int, n: nat, i: int)
    requires
        0 <= i < n,
    ensures
        saved_at(stored(m, fp, fd, a, n), a + 12 * i) == fp[(fd + i) % 8],
    decreases n,
{
    let v = stored(m, fp, fd, a, (n - 1) as nat);
    let last = fp[(fd + n - 1) % 8];
    if i < n - 1 {
        stored_slots(m, fp, fd, a, (n - 1) as nat, i);
        words_elsewhere(v, a + 12 * (n - 1), saved(last), a + 12 * i);
        words_elsewhere(v, a + 12 * (n - 1), saved(last), a + 12 * i + 4);
    } else {
        saved_reads_back(v, a + 12 * i, last);
    }
}

proof fn words_elsewhere(m: Space, a: int, s: Seq<u8>, b: int)
    requires
        b + 4 <= a,
    ensures
        m.write(a, s).word(b) == m.word(b),
{
}

/// Four bytes of a word in memory are the word.
pub proof fn word_from_bytes(m: Space, a: int, v: u32)
    requires
        m.at(a) == word_bytes(v)[0],
        m.at(a + 1) == word_bytes(v)[1],
        m.at(a + 2) == word_bytes(v)[2],
        m.at(a + 3) == word_bytes(v)[3],
    ensures
        m.word(a) == v,
{
}

proof fn saved_reads_back(m: Space, b: int, x: u64)
    ensures
        saved_at(m.write(b, saved(x)), b) == x,
{
    let w = m.write(b, saved(x));
    let s = saved(x);
    let (lo, hi) = ((x % 0x1_0000_0000) as u32, (x / 0x1_0000_0000) as u32);
    assert(s.len() == 12);
    assert(w.at(b) == s[0] && w.at(b + 1) == s[1] && w.at(b + 2) == s[2] && w.at(b + 3) == s[3]);
    assert(w.at(b + 4) == s[4] && w.at(b + 5) == s[5] && w.at(b + 6) == s[6] && w.at(b + 7)
        == s[7]);
    word_from_bytes(w, b, lo);
    word_from_bytes(w, b + 4, hi);
}

/// Copies `r2` bytes from `r1` to `r0`.
pub fn memcpy(c: &Cpu, m: &mut Mem)
    requires
        old(m)@.mapped(c.r@[1] as int, c.r@[2] as int),
        old(m)@.mapped(c.r@[0] as int, c.r@[2] as int),
    ensures
        final(m)@ == old(m)@.write(
            c.r@[0] as int,
            old(m)@.read(c.r@[1] as int, c.r@[2] as nat),
        ),
{
    let (d, s, n) = (c.r[0], c.r[1], c.r[2]);
    let tmp: Vec<u8> = m.read(s, n as usize);
    m.write(d, tmp.as_slice());
}

/// Copies `r2` bytes from `r1` to `r0`, which may overlap.
pub fn memmove(c: &Cpu, m: &mut Mem)
    requires
        old(m)@.mapped(c.r@[1] as int, c.r@[2] as int),
        old(m)@.mapped(c.r@[0] as int, c.r@[2] as int),
    ensures
        final(m)@ == old(m)@.write(
            c.r@[0] as int,
            old(m)@.read(c.r@[1] as int, c.r@[2] as nat),
        ),
{
    memcpy(c, m);
}

/// Sets `r2` bytes at `r0` to the low byte of `r1`.
pub fn memset(c: &Cpu, m: &mut Mem)
    requires
        old(m)@.reachable(c.r@[0] as int, c.r@[2] as int),
    ensures
        final(m)@ == old(m)@.write(
            c.r@[0] as int,
            Seq::new(c.r@[2] as nat, |i: int| (c.r@[1] % 0x100) as u8),
        ),
{
    let (d, v, n) = (c.r[0], (c.r[1] % 0x100) as u8, c.r[2]);
    fill(m, d, v, n);
}

/// The length of the text at `r0`.
pub fn strlen(c: &mut Cpu, m: &Mem)
    requires
        m@.is_text(old(c).r@[0] as int),
    ensures
        final(c).gives(*old(c), m@.text_len(old(c).r@[0] as int) as u32),
{
    let n: u32 = text_len(m, c.r[0]);
    give(c, n);
}

/// A signed number as a word.
pub open spec fn as_word(x: int) -> u32 {
    (x % 0x1_0000_0000) as u32
}

/// A signed number as a word.
pub fn to_word(x: i32) -> (r: u32)
    ensures
        r == as_word(x as int),
{
    if x >= 0 {
        x as u32
    } else {
        (0x1_0000_0000i64 + x as i64) as u32
    }
}

/// Whether at most `n` bytes of the texts at `r0` and `r1` can be compared.
pub open spec fn can_compare(m: Space, r: Seq<u32>, n: u32) -> bool {
    comparable(m, r[0] as int, r[1] as int, n as int, true)
}

/// How at most `n` bytes of the texts at `r0` and `r1` compare.
pub open spec fn comparison(m: Space, r: Seq<u32>, n: u32) -> u32 {
    as_word(difference(m, r[0] as int, r[1] as int, n as int, true))
}

/// Compares the texts at `r0` and `r1`.
pub fn strcmp(c: &mut Cpu, m: &Mem)
    requires
        can_compare(m@, old(c).r@, u32::MAX),
    ensures
        final(c).gives(*old(c), comparison(m@, old(c).r@, u32::MAX)),
{
    let d: i32 = compare(m, c.r[0], c.r[1], u32::MAX, true);
    give(c, to_word(d));
}

/// Compares at most `r2` bytes of the texts at `r0` and `r1`.
pub fn strncmp(c: &mut Cpu, m: &Mem)
    requires
        can_compare(m@, old(c).r@, old(c).r@[2]),
    ensures
        final(c).gives(*old(c), comparison(m@, old(c).r@, old(c).r@[2])),
{
    let d: i32 = compare(m, c.r[0], c.r[1], c.r[2], true);
    give(c, to_word(d));
}

/// Where the text at `r1` first stands in the text at `r0`; zero where it does
/// not.
pub fn strstr(c: &mut Cpu, m: &Mem)
    requires
        m@.is_text(old(c).r@[0] as int),
        m@.is_text(old(c).r@[1] as int),
    ensures
        ({
            let (hay, needle) = (m@.text(old(c).r@[0] as int), m@.text(old(c).r@[1] as int));
            ||| exists|k: int|
                first_found(hay, needle, Some(k)) && #[trigger] final(c).gives(
                    *old(c),
                    (old(c).r@[0] + k) as u32,
                )
            ||| first_found(hay, needle, None) && final(c).gives(*old(c), 0)
        }),
{
    let (h, n) = (c.r[0], c.r[1]);
    let hay: Vec<u8> = text_at(m, h);
    let needle: Vec<u8> = text_at(m, n);
    match find_bytes(hay.as_slice(), needle.as_slice()) {
        Some(k) => {
            give(c, h + k as u32);
            assert(first_found(hay@, needle@, Some(k as int)) && c.gives(
                *old(c),
                (old(c).r@[0] + k as int) as u32,
            ));
        },
        None => {
            give(c, 0);
        },
    }
}

/// Copies the text at `r1` to `r0`, first byte to last.
///
/// A target that lies inside the text, past its start, would overwrite the end
/// before it is read.
pub fn strcpy(c: &Cpu, m: &mut Mem)
    requires
        old(m)@.is_text(c.r@[1] as int),
        old(m)@.reachable(c.r@[0] as int, old(m)@.text_len(c.r@[1] as int) + 1int),
        c.r@[0] <= c.r@[1] || c.r@[1] + old(m)@.text_len(c.r@[1] as int) < c.r@[0],
    ensures
        final(m)@ == old(m)@.write(c.r@[0] as int, old(m)@.text(c.r@[1] as int).push(0)),
{
    let (d, s) = (c.r[0], c.r[1]);
    let n: u32 = text_len(m, s);
    let ghost before = m@;
    if n == u32::MAX {
        assert(before.reachable(s as int, n + 1));
    }
    copy_forward(m, d, s, n);
    proof {
        forward_keeps_regions(before, d as int, s as int, n as nat);
        regions_decide(before, m@);
        forward_copies(before, d as int, s as int, n as nat);
        assert(before.mapped(d + n, 1));
    }
    m.w8(d + n, 0);
    assert(m@ =~= before.write(d as int, before.text(s as int).push(0)));
}

/// Memory after `n` bytes of a text were copied, with zeros once it ended, and
/// whether it ended.
pub open spec fn padded_copy(m: Space, d: int, s: int, n: nat) -> (Space, bool)
    decreases n,
{
    if n == 0 {
        (m, false)
    } else {
        let (w, ended) = padded_copy(m, d, s, (n - 1) as nat);
        let b = if ended {
            0u8
        } else {
            w.at(s + n - 1)
        };
        (w.write(d + n - 1, seq![b]), ended || b == 0)
    }
}

/// Whether each byte that a padded copy reads is there.
pub open spec fn padded_source(m: Space, d: int, s: int, n: nat) -> bool {
    forall|k: nat|
        k < n && !(#[trigger] padded_copy(m, d, s, k)).1 ==> m.mapped(s + k, 1) && s + k
            < 0x1_0000_0000
}

/// Copies at most `n` bytes of a text, and fills up with zeros.
pub fn copy_padded(m: &mut Mem, d: u32, s: u32, n: u32)
    requires
        old(m)@.reachable(d as int, n as int),
        padded_source(old(m)@, d as int, s as int, n as nat),
    ensures
        final(m)@ == padded_copy(old(m)@, d as int, s as int, n as nat).0,
{
    let ghost before = m@;
    let mut end: bool = false;
    let mut k: u32 = 0;
    while k < n
        invariant
            k <= n,
            before.reachable(d as int, n as int),
            padded_source(before, d as int, s as int, n as nat),
            m@.extents == before.extents,
            (m@, end) == padded_copy(before, d as int, s as int, k as nat),
        decreases n - k,
    {
        proof {
            regions_decide(before, m@);
            assert(before.mapped(d + k, 1));
        }
        let b: u8 = if end {
            0
        } else {
            assert(!padded_copy(before, d as int, s as int, k as nat).1);
            m.r8(s + k)
        };
        end = end || b == 0;
        m.w8(d + k, b);
        k = k + 1;
    }
}

/// Copies at most `r2` bytes of the text at `r1` to `r0`, and fills up with
/// zeros.
pub fn strncpy(c: &Cpu, m: &mut Mem)
    requires
        old(m)@.reachable(c.r@[0] as int, c.r@[2] as int),
        padded_source(old(m)@, c.r@[0] as int, c.r@[1] as int, c.r@[2] as nat),
    ensures
        final(m)@ == padded_copy(
            old(m)@,
            c.r@[0] as int,
            c.r@[1] as int,
            c.r@[2] as nat,
        ).0,
{
    let (d, s, n) = (c.r[0], c.r[1], c.r[2]);
    copy_padded(m, d, s, n);
}

} // verus!

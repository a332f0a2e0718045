//! The bitstream reader every decode path goes through.
//!
//! Bits come out most significant first. A read that would pass the end sets
//! a sticky flag, and from then on every read gives zero and moves nothing, so
//! a truncated frame degrades quietly and a caller can test for it once at the
//! end.
use vstd::prelude::*;
use super::fixed::{add32, lsl32, weight, weight_doubles, wrap32};

verus! {

/// Byte size of the bit-cursor record in the module's memory layout.
pub const SPEEX_BITS_LEN: u32 = 0x18;

/// A bitstream cursor over a borrowed buffer.
#[derive(Debug, Clone)]
pub struct Bits<'a> {
    /// The buffer.
    pub chars: &'a [u8],
    /// How many bits may be read.
    pub nb_bits: i32,
    /// The byte the next bit comes from.
    pub char_ptr: i32,
    /// The bit within that byte, counted from the most significant.
    pub bit_ptr: i32,
    /// Not zero once a read has run past the end.
    pub overflow: i32,
}

/// Bit `p` of a buffer, counted from the most significant bit of its first
/// byte. Past the end there are only zeros.
pub open spec fn bit_at(chars: Seq<u8>, p: int) -> int {
    if 0 <= p / 8 < chars.len() {
        (chars[p / 8] as int / weight((7 - p % 8) as nat)) % 2
    } else {
        0
    }
}

/// The number made of `nb` bits starting at `p`.
pub open spec fn field_at(chars: Seq<u8>, p: int, nb: nat) -> int
    decreases nb,
{
    if nb == 0 {
        0
    } else {
        2 * field_at(chars, p, (nb - 1) as nat) + bit_at(chars, p + nb - 1)
    }
}

/// A bitstream cursor as mathematics.
pub struct Cursor {
    /// The buffer.
    pub chars: Seq<u8>,
    /// How many bits may be read.
    pub nb_bits: i32,
    /// The byte the next bit comes from.
    pub char_ptr: i32,
    /// The bit within that byte.
    pub bit_ptr: i32,
    /// Not zero once a read has run past the end.
    pub overflow: i32,
}

impl<'a> View for Bits<'a> {
    type V = Cursor;

    open spec fn view(&self) -> Cursor {
        Cursor {
            chars: self.chars@,
            nb_bits: self.nb_bits,
            char_ptr: self.char_ptr,
            bit_ptr: self.bit_ptr,
            overflow: self.overflow,
        }
    }
}

impl Cursor {
    /// A usable cursor: it points at a bit of some byte.
    pub open spec fn wf(self) -> bool {
        0 <= self.char_ptr && 0 <= self.bit_ptr < 8
    }

    /// How many bits precede the cursor.
    pub open spec fn at(self) -> int {
        8 * self.char_ptr + self.bit_ptr
    }

    /// Whether a read of `nb` bits latches the flag, or finds it latched.
    pub open spec fn refuses(self, nb: int) -> bool {
        self.overflow != 0 || wrap32(self.at() + nb) > self.nb_bits
    }

    /// What a read of `nb` bits returns.
    pub open spec fn value(self, nb: int) -> u32 {
        if self.refuses(nb) || nb <= 0 {
            0
        } else {
            (field_at(self.chars, self.at(), nb as nat) % 0x1_0000_0000) as u32
        }
    }

    /// The cursor after a read of `nb` bits.
    pub open spec fn after(self, nb: int) -> Cursor {
        if wrap32(self.at() + nb) > self.nb_bits {
            Cursor { overflow: 1, ..self }
        } else if self.overflow != 0 || nb <= 0 {
            self
        } else {
            Cursor {
                char_ptr: ((self.at() + nb) / 8) as i32,
                bit_ptr: ((self.at() + nb) % 8) as i32,
                ..self
            }
        }
    }

    /// Room for a read of `nb` bits without the byte index leaving its type.
    pub open spec fn has_index_room(self, nb: int) -> bool {
        nb <= 0 || (self.at() + nb) / 8 <= i32::MAX
    }

    /// A cursor at the start of a buffer, with all of it to read.
    pub open spec fn start(chars: Seq<u8>) -> Cursor {
        Cursor {
            chars,
            nb_bits: wrap32(8 * chars.len() as int),
            char_ptr: 0,
            bit_ptr: 0,
            overflow: 0,
        }
    }

    /// A usable cursor whose byte index stays in its type over the next
    /// `total` bits.
    pub open spec fn holds(self, total: int) -> bool {
        self.wf() && (self.at() + total) / 8 <= i32::MAX
    }
}

impl<'a> Bits<'a> {
    /// A cursor at the start of `chars`, with the whole buffer to read.
    pub fn new(chars: &'a [u8]) -> (b: Self)
        ensures
            b.chars == chars,
            b@ == Cursor::start(chars@),
            b@.wf(),
    {
        let len: i32 = super::fixed::low32_of(chars.len());
        proof {
            super::fixed::wrap32_congruent(chars@.len() as int);
            let k = choose|k: int| chars@.len() - wrap32(chars@.len() as int) == #[trigger] (k * 0x1_0000_0000);
            super::fixed::wrap32_shift(8 * len, 8 * k);
        }
        Bits { chars, nb_bits: lsl32(len, 3), char_ptr: 0, bit_ptr: 0, overflow: 0 }
    }

    /// Reads `nb` bits, most significant first.
    pub fn unpack(&mut self, nb: i32) -> (r: u32)
        requires
            old(self)@.wf(),
            old(self)@.has_index_room(nb as int),
        ensures
            r == old(self)@.value(nb as int),
            final(self)@ == old(self)@.after(nb as int),
            final(self)@.wf(),
    {
        let ghost start = self@;
        if add32(self.position(), nb) > self.nb_bits {
            self.overflow = 1;
        }
        if self.overflow != 0 {
            return 0;
        }
        let mut d: u32 = 0;
        let mut i: i32 = 0;
        while i < nb
            invariant
                start.wf(),
                start.has_index_room(nb as int),
                0 <= i,
                i <= nb || nb <= 0,
                nb <= 0 ==> i == 0,
                self.chars@ == start.chars,
                self.nb_bits == start.nb_bits,
                self.overflow == start.overflow,
                self.char_ptr == (start.at() + i) / 8,
                self.bit_ptr == (start.at() + i) % 8,
                d == field_at(start.chars, start.at(), i as nat) % 0x1_0000_0000,
            decreases nb - i,
        {
            let one: u32 = if (self.char_ptr as usize) < self.chars.len() {
                bit_of(self.chars[self.char_ptr as usize], self.bit_ptr)
            } else {
                0
            };
            d = shift_in(d, one);
            self.bit_ptr = self.bit_ptr + 1;
            if self.bit_ptr == 8 {
                self.bit_ptr = 0;
                self.char_ptr = self.char_ptr + 1;
            }
            i = i + 1;
        }
        d
    }

    /// Bits consumed so far.
    pub fn position(&self) -> (r: i32)
        requires
            self@.wf(),
        ensures
            r == wrap32(self@.at()),
    {
        add32(lsl32(self.char_ptr, 3), self.bit_ptr)
    }

    /// Whether a read has run past the end.
    pub fn overflowed(&self) -> (r: bool)
        ensures
            r == (self.overflow != 0),
    {
        self.overflow != 0
    }
}

/// A stated width as a read takes it: one past the type comes out negative,
/// and nothing is read.
pub open spec fn width(nb: u32) -> int {
    wrap32(nb as int) as int
}

/// The bits that a read of a stated width uses up at most.
pub open spec fn room(nb: u32) -> int {
    if width(nb) > 0 {
        width(nb)
    } else {
        0
    }
}

/// A stated width as [`Bits::unpack`] takes it.
pub fn read_width(nb: u32) -> (r: i32)
    ensures
        r == width(nb),
{
    super::fixed::low32(nb as i64)
}

/// One bit of a byte, counted from the most significant.
fn bit_of(byte: u8, k: i32) -> (r: u32)
    requires
        0 <= k < 8,
    ensures
        r as int == (byte as int / weight((7 - k) as nat)) % 2,
        r < 2,
{
    let n: u32 = (7 - k) as u32;
    proof {
        weight_doubles(n as nat);
        vstd::arithmetic::div_mod::lemma_div_pos_is_pos(byte as int, weight(n as nat));
    }
    let b: i32 = super::fixed::asr32(byte as i32, n);
    (b % 2) as u32
}

/// Appends a bit at the low end, dropping the top one.
fn shift_in(d: u32, one: u32) -> (r: u32)
    requires
        one < 2,
    ensures
        r as int == (2 * d + one) % 0x1_0000_0000,
{
    if d >= 0x8000_0000 {
        (d - 0x8000_0000) * 2 + one
    } else {
        d * 2 + one
    }
}

/// A field of `nb` bits is below two to the power `nb`.
pub proof fn small_value(b: Cursor, nb: nat)
    requires
        nb <= 16,
    ensures
        b.value(nb as int) < 0x1_0000,
{
    small_field(b.chars, b.at(), nb);
    super::fixed::weight_values();
    super::fixed::weight_monotone(nb, 16);
}

proof fn small_field(chars: Seq<u8>, p: int, nb: nat)
    ensures
        0 <= field_at(chars, p, nb) < weight(nb),
    decreases nb,
{
    if nb > 0 {
        small_field(chars, p, (nb - 1) as nat);
        weight_doubles((nb - 1) as nat);
    }
}

/// The flag is sticky: once it is set, no read returns anything but zero and
/// none moves the cursor.
pub proof fn overflow_is_sticky(b: Cursor, nb: int)
    requires
        b.overflow != 0,
    ensures
        b.value(nb) == 0,
        b.after(nb).overflow != 0,
        b.after(nb).at() == b.at(),
{
}

/// A read that fits moves the cursor by exactly its width.
pub proof fn reads_advance(b: Cursor, nb: int)
    requires
        b.wf(),
        nb >= 0,
        !b.refuses(nb),
        b.has_index_room(nb),
    ensures
        b.after(nb).at() == b.at() + nb,
        b.after(nb).overflow == 0,
{
}

/// A read uses up no more than its width of what a cursor holds.
pub proof fn reads_keep_room(b: Cursor, nb: int, total: int)
    requires
        b.holds(total),
        0 <= total,
        nb <= total,
    ensures
        b.has_index_room(nb),
        b.after(nb).holds(
            total - if nb > 0 {
                nb
            } else {
                0
            },
        ),
{
}

/// Two reads in a row return what one read of their joint width does.
pub proof fn reads_join(chars: Seq<u8>, p: int, n: nat, m: nat)
    ensures
        field_at(chars, p, n + m) == field_at(chars, p, n) * weight(m) + field_at(chars, p + n, m),
    decreases m,
{
    if m > 0 {
        let k = (m - 1) as nat;
        reads_join(chars, p, n, k);
        weight_doubles(k);
        assert(field_at(chars, p, n) * weight(m) == 2 * (field_at(chars, p, n) * weight(k)))
            by (nonlinear_arith)
            requires
                weight(m) == 2 * weight(k),
        ;
        assert(n + m - 1 == n + k);
        assert(field_at(chars, p, n + m) == 2 * field_at(chars, p, (n + k) as nat) + bit_at(
            chars,
            p + n + m - 1,
        ));
    }
}

} // verus!

//! The coded unit bank.
//!
//! A bank starts with a header of big-endian words, a block of parameters and
//! the voice's codebooks, and goes on with coded frames of one size to its
//! end. Each codebook is stored once per context, and a byte for each frame
//! says which context it decodes with.
use vstd::prelude::*;
use vstd::arithmetic::power2::{lemma_pow2_pos, lemma_pow2_unfold, pow2};
use super::atm::{be32, four_at};
use super::chars::{number, push_all, push_str, text_of, written};
use super::error::{Error, Fault};

verus! {

/// The header's length in bytes.
pub const HEADER_LEN: usize = 48;

/// The header's length in words.
pub const HEADER_WORDS: usize = 12;

/// The fixed header.
#[derive(Debug, Clone, PartialEq, Eq)]
pub struct BankHeader {
    /// Word 0: the bitrate, in bits per second.
    pub bitrate_bps: u32,
    /// Word 3: the sample rate that the bank decodes to.
    pub output_rate: u32,
    /// Word 2: samples per frame.
    pub frame_samples: u32,
    /// Word 4: the size of a coded frame, in its low half.
    pub header_len: u32,
    /// Word 5: how many coded frames there are.
    pub frames: u32,
    /// Word 8: where the coded frames begin.
    pub data_offset: u32,
    /// All the words.
    pub raw: [u32; 12],
}

/// The word at index `i`.
pub open spec fn word(raw: Seq<u8>, i: int) -> u32 {
    four_at(raw, 4 * i) as u32
}

/// A sample rate that a bank can have.
pub open spec fn plausible(rate: u32) -> bool {
    0 < rate <= 192_000
}

/// `n`, then a text.
pub open spec fn counted(n: int, text: Seq<char>) -> Seq<char> {
    written(n as nat, 10) + text
}

/// A text, a number, a text, a number.
pub open spec fn compared(before: Seq<char>, n: int, between: Seq<char>, m: int) -> Seq<char> {
    before + written(n as nat, 10) + between + written(m as nat, 10)
}

fn say_counted(n: u128, text: &str) -> (r: String)
    ensures
        r@ == counted(n as int, text@),
{
    let mut out: Vec<char> = number(n, 10);
    push_str(&mut out, text);
    assert(out@ =~= counted(n as int, text@));
    text_of(out.as_slice())
}

fn say_compared(before: &str, n: u128, between: &str, m: u128, after: &str) -> (r: String)
    ensures
        r@ == compared(before@, n as int, between@, m as int) + after@,
{
    let mut out: Vec<char> = Vec::new();
    push_str(&mut out, before);
    push_all(&mut out, number(n, 10).as_slice());
    push_str(&mut out, between);
    push_all(&mut out, number(m, 10).as_slice());
    push_str(&mut out, after);
    assert(out@ =~= compared(before@, n as int, between@, m as int) + after@);
    text_of(out.as_slice())
}

impl BankHeader {
    /// Whether this is the header that `raw` begins with.
    pub open spec fn heads(&self, raw: Seq<u8>) -> bool {
        &&& self.raw@ == Seq::new(12, |i: int| word(raw, i))
        &&& self.bitrate_bps == word(raw, 0)
        &&& self.frame_samples == word(raw, 2)
        &&& self.output_rate == word(raw, 3)
        &&& self.header_len == word(raw, 4)
        &&& self.frames == word(raw, 5)
        &&& self.data_offset == word(raw, 8)
    }

    /// Reads the header. `name` appears in errors.
    pub fn parse(name: &str, raw: &[u8]) -> (r: Result<BankHeader, Error>)
        ensures
            match r {
                Ok(h) => raw@.len() >= 48 && plausible(word(raw@, 3)) && h.heads(raw@),
                Err(e) => e@.file == name@ && e@.line == 0 && if raw@.len() < 48 {
                    e@.what == counted(raw@.len() as int, " bytes is shorter than a 48-byte header"@)
                } else {
                    !plausible(word(raw@, 3)) && e@.what == "implausible output rate "@ + written(
                        word(raw@, 3) as nat,
                        10,
                    ) + " — wrong byte order?"@
                },
            },
    {
        if raw.len() < HEADER_LEN {
            return Err(
                Error::new(
                    name,
                    0,
                    say_counted(raw.len() as u128, " bytes is shorter than a 48-byte header"),
                ),
            );
        }
        let mut w: [u32; 12] = [0u32; 12];
        let mut i: usize = 0;
        while i < 12
            invariant
                i <= 12,
                raw@.len() >= 48,
                w@.len() == 12,
                forall|k: int| 0 <= k < i ==> #[trigger] w@[k] == word(raw@, k),
            decreases 12 - i,
        {
            w[i] = be32(raw, i * 4);
            i = i + 1;
        }
        assert(w@ =~= Seq::new(12, |k: int| word(raw@, k)));
        let h = BankHeader {
            bitrate_bps: w[0],
            output_rate: w[3],
            frame_samples: w[2],
            header_len: w[4],
            frames: w[5],
            data_offset: w[8],
            raw: w,
        };
        if h.output_rate == 0 || h.output_rate > 192_000 {
            let mut out: Vec<char> = Vec::new();
            push_str(&mut out, "implausible output rate ");
            push_all(&mut out, number(h.output_rate as u128, 10).as_slice());
            push_str(&mut out, " — wrong byte order?");
            assert(out@ =~= "implausible output rate "@ + written(word(raw@, 3) as nat, 10)
                + " — wrong byte order?"@);
            return Err(Error::new(name, 0, text_of(out.as_slice())));
        }
        Ok(h)
    }

    /// The tag that a bank's file name carries: the bitrate, a dot, the sample
    /// rate.
    pub fn rate_tag(&self) -> (r: String)
        ensures
            r@ == written(self.bitrate_bps as nat, 10) + "."@ + written(self.output_rate as nat, 10),
    {
        let mut out: Vec<char> = number(self.bitrate_bps as u128, 10);
        push_str(&mut out, ".");
        push_all(&mut out, number(self.output_rate as u128, 10).as_slice());
        text_of(out.as_slice())
    }

    /// Frames per second, or zero where frames hold no samples.
    pub open spec fn frames_per_second(&self) -> int {
        if self.frame_samples == 0 {
            0
        } else {
            self.output_rate as int / self.frame_samples as int
        }
    }

    /// Frames per second, from the sample rate and the frame size.
    pub fn frame_rate(&self) -> (r: u32)
        ensures
            r == self.frames_per_second(),
    {
        if self.frame_samples == 0 {
            return 0;
        }
        self.output_rate / self.frame_samples
    }

    /// Bytes per frame, as the bitrate gives them.
    pub open spec fn bytes_per_frame(&self) -> int {
        if self.frames_per_second() == 0 {
            0
        } else {
            self.bitrate_bps as int / self.frames_per_second() / 8
        }
    }

    /// Coded bytes per frame, from the bitrate.
    pub fn frame_bytes(&self) -> (r: u32)
        ensures
            r == self.bytes_per_frame(),
    {
        let fps: u32 = self.frame_rate();
        if fps == 0 {
            return 0;
        }
        self.bitrate_bps / fps / 8
    }

    /// Bytes per frame as a file's length gives them, where they come out
    /// whole.
    pub open spec fn measured(&self, len: int) -> Option<int> {
        let payload = len - self.data_offset;
        if payload >= 0 && self.frames > 0 && payload % self.frames as int == 0 && payload
            / self.frames as int <= u32::MAX {
            Some(payload / self.frames as int)
        } else {
            None
        }
    }

    /// Coded bytes per frame, from the file's length.
    pub fn frame_bytes_measured(&self, file_len: usize) -> (r: Option<u32>)
        ensures
            match (r, self.measured(file_len as int)) {
                (Some(n), Some(want)) => n == want,
                (None, None) => true,
                _ => false,
            },
    {
        if (file_len as u64) < self.data_offset as u64 || self.frames == 0 {
            return None;
        }
        let payload: u64 = file_len as u64 - self.data_offset as u64;
        if payload % self.frames as u64 != 0 {
            return None;
        }
        let n: u64 = payload / self.frames as u64;
        if n > 0xffff_ffff {
            return None;
        }
        Some(n as u32)
    }

    /// Whether the header, the file's length and the bitrate agree.
    pub fn consistent_with(&self, file_len: usize) -> (r: bool)
        ensures
            r == (self.measured(file_len as int) == Some(self.bytes_per_frame())),
    {
        match self.frame_bytes_measured(file_len) {
            Some(n) => n == self.frame_bytes(),
            None => false,
        }
    }

    /// Coded bytes per frame, as the header states them.
    pub fn frame_bytes_stated(&self) -> (r: u32)
        ensures
            r == self.raw@[4] % 0x1_0000,
    {
        self.raw[4] % 0x1_0000
    }

    /// How many contexts each codebook is stored for.
    pub fn contexts(&self) -> (r: u32)
        ensures
            r == self.raw@[9],
    {
        self.raw[9]
    }

    /// The key that every coded frame is combined with. Zero means that the
    /// bank is not scrambled.
    pub fn xor_key(&self) -> (r: u8)
        ensures
            r == self.raw@[6] % 0x100,
    {
        (self.raw[6] % 0x100) as u8
    }
}

/// How far a signal is scaled up, as a power of two.
pub const SIG_SHIFT: i32 = 14;

/// Where the codebooks begin.
pub const TABLES_OFFSET: usize = 0x7c;

/// One codebook.
#[derive(Debug, Clone, Copy, PartialEq, Eq, Structural)]
pub struct TableSpan {
    /// Where it is in the file.
    pub offset: usize,
    /// Bytes per context.
    pub per_context: usize,
    /// Bytes in all.
    pub len: usize,
}

impl TableSpan {
    /// Where it ends.
    pub open spec fn end(&self) -> int {
        self.offset + self.len
    }

    /// The whole table, where the file holds it.
    pub fn slice<'a>(&self, raw: &'a [u8]) -> (r: Option<&'a [u8]>)
        ensures
            match r {
                Some(s) => self.end() <= raw@.len() && s@ == raw@.subrange(
                    self.offset as int,
                    self.end(),
                ),
                None => self.end() > raw@.len(),
            },
    {
        if self.offset > raw.len() || self.len > raw.len() - self.offset {
            return None;
        }
        Some(vstd::slice::slice_subrange(raw, self.offset, self.offset + self.len))
    }

    /// Where a context's codebook starts.
    pub open spec fn start_of(&self, ctx: int) -> int {
        self.offset + self.per_context * ctx
    }

    /// One context's codebook, where the file holds it.
    pub fn context<'a>(&self, raw: &'a [u8], ctx: u32) -> (r: Option<&'a [u8]>)
        ensures
            match r {
                Some(s) => self.start_of(ctx as int) + self.per_context <= raw@.len() && s@
                    == raw@.subrange(
                    self.start_of(ctx as int),
                    self.start_of(ctx as int) + self.per_context,
                ),
                None => self.start_of(ctx as int) + self.per_context > raw@.len(),
            },
    {
        assert(0 <= self.per_context * ctx <= u64::MAX * u32::MAX) by (nonlinear_arith)
            requires
                0 <= self.per_context <= u64::MAX,
                0 <= ctx <= u32::MAX,
        ;
        let at: u128 = self.offset as u128 + self.per_context as u128 * ctx as u128;
        if at + self.per_context as u128 > raw.len() as u128 {
            return None;
        }
        Some(vstd::slice::slice_subrange(raw, at as usize, at as usize + self.per_context))
    }
}

/// The voice's codebooks, back to back from the end of the parameters to the
/// first coded frame.
#[derive(Debug, Clone, PartialEq, Eq)]
pub struct BankTables {
    /// How many contexts there are.
    pub contexts: u32,
    /// The scrambling key.
    pub xor_key: u8,
    /// Each frame's context, one byte per frame.
    pub idx: TableSpan,
    /// Narrowband spectrum, first stage.
    pub nb_cb1: TableSpan,
    /// Narrowband spectrum, second stage.
    pub nb_cb2: TableSpan,
    /// Narrowband spectrum, third stage.
    pub nb_cb3: TableSpan,
    /// Narrowband innovation.
    pub nb_innov: TableSpan,
    /// High-band spectrum, first stage.
    pub sb_cb1: TableSpan,
    /// High-band spectrum, second stage.
    pub sb_cb2: TableSpan,
    /// High-band innovation.
    pub sb_innov: TableSpan,
    /// How far a narrowband innovation byte is shifted up.
    pub nb_innov_shift: i32,
    /// How far a high-band innovation byte is shifted up.
    pub sb_innov_shift: i32,
}

/// The words that say how long a codebook is, in file order.
pub open spec fn size_word(k: int) -> int {
    if k < 6 {
        10 + k
    } else {
        18
    }
}

/// Where codebook `k` starts: past the contexts of the frames and the
/// codebooks before it.
pub open spec fn table_start(raw: Seq<u8>, frames: int, contexts: int, k: nat) -> int
    decreases k,
{
    if k == 0 {
        0x7c + frames
    } else {
        table_start(raw, frames, contexts, (k - 1) as nat) + word(raw, size_word(k - 1)) * contexts
    }
}

/// Codebook `k` is where and as long as the file says.
pub open spec fn spans(
    t: TableSpan,
    raw: Seq<u8>,
    frames: int,
    contexts: int,
    k: nat,
) -> bool {
    &&& t.offset == table_start(raw, frames, contexts, k)
    &&& t.per_context == word(raw, size_word(k as int))
    &&& t.len == t.per_context * contexts
    &&& t.offset + t.len == table_start(raw, frames, contexts, (k + 1) as nat)
}

/// The whole part of a number's base-two logarithm; zero for zero.
pub open spec fn floor_log2(x: int) -> int
    decreases x,
{
    if x <= 1 {
        0
    } else {
        1 + floor_log2(x / 2)
    }
}

impl BankTables {
    /// Whether these are the codebooks that `raw` holds under header `h`.
    pub open spec fn lie_in(&self, raw: Seq<u8>, h: BankHeader) -> bool {
        let n = h.frames as int;
        let c = h.raw@[9] as int;
        &&& self.contexts == c
        &&& self.xor_key == h.raw@[6] % 0x100
        &&& self.idx == (TableSpan {
            offset: 0x7c,
            per_context: h.frames as usize,
            len: h.frames as usize,
        })
        &&& spans(self.nb_cb1, raw, n, c, 0)
        &&& spans(self.nb_cb2, raw, n, c, 1)
        &&& spans(self.nb_cb3, raw, n, c, 2)
        &&& spans(self.nb_innov, raw, n, c, 3)
        &&& spans(self.sb_cb1, raw, n, c, 4)
        &&& spans(self.sb_cb2, raw, n, c, 5)
        &&& spans(self.sb_innov, raw, n, c, 6)
        &&& self.nb_innov_shift == 14 - floor_log2(word(raw, 19) as int)
        &&& self.sb_innov_shift == 14 - floor_log2(word(raw, 20) as int)
    }

    /// Finds the codebooks. They must end where the coded frames begin, and the
    /// words that say how long they are must be there.
    pub fn parse(name: &str, raw: &[u8], h: &BankHeader) -> (r: Result<BankTables, Error>)
        ensures
            h.data_offset <= raw@.len() < 0x4c ==> r is Err,
            match r {
                Ok(t) => h.data_offset <= raw@.len() && t.lie_in(raw@, *h) && h.data_offset
                    == table_start(raw@, h.frames as int, h.raw@[9] as int, 7),
                Err(e) => e@.file == name@ && e@.line == 0 && if raw@.len() < h.data_offset {
                    e@.what == compared(
                        Seq::empty(),
                        raw@.len() as int,
                        " bytes is shorter than the "@,
                        h.data_offset as int,
                    ) + "-byte preamble"@
                } else if raw@.len() < 0x4c {
                    e@.what == counted(
                        raw@.len() as int,
                        " bytes is shorter than the 124-byte parameter block"@,
                    )
                } else {
                    let end = table_start(raw@, h.frames as int, h.raw@[9] as int, 7);
                    end != h.data_offset && e@.what == compared(
                        "tables end at "@,
                        end,
                        ", but the payload starts at "@,
                        h.data_offset as int,
                    )
                },
            },
    {
        let wanted: u32 = h.data_offset;
        if (raw.len() as u64) < wanted as u64 {
            let text: String = say_compared(
                "",
                raw.len() as u128,
                " bytes is shorter than the ",
                wanted as u128,
                "-byte preamble",
            );
            proof {
                reveal_strlit("");
                assert(""@ =~= Seq::<char>::empty());
            }
            return Err(Error::new(name, 0, text));
        }
        if raw.len() < 0x4c {
            return Err(
                Error::new(
                    name,
                    0,
                    say_counted(
                        raw.len() as u128,
                        " bytes is shorter than the 124-byte parameter block",
                    ),
                ),
            );
        }
        let ghost n = h.frames as int;
        let contexts: u32 = h.contexts();
        let ghost c = contexts as int;
        let (sizes, end) = table_sizes(raw, h.frames, contexts);
        if end != wanted as u128 {
            let text: String = say_compared(
                "tables end at ",
                end,
                ", but the payload starts at ",
                wanted as u128,
                "",
            );
            proof {
                reveal_strlit("");
                assert(text@ =~= compared(
                    "tables end at "@,
                    end as int,
                    ", but the payload starts at "@,
                    wanted as int,
                ));
            }
            return Err(Error::new(name, 0, text));
        }
        proof {
            starts_grow(raw@, n, c, 0, 7);
            assert(table_start(raw@, n, c, 0) == 0x7c + n);
        }
        let a: usize = 0x7c + h.frames as usize;
        let nb_cb1: TableSpan = span_at(raw, sizes[0], a, contexts, Ghost(n), Ghost(0nat));
        let nb_cb2: TableSpan = span_at(raw, sizes[1], nb_cb1.offset + nb_cb1.len, contexts, Ghost(n), Ghost(1nat));
        let nb_cb3: TableSpan = span_at(raw, sizes[2], nb_cb2.offset + nb_cb2.len, contexts, Ghost(n), Ghost(2nat));
        let nb_innov: TableSpan = span_at(raw, sizes[3], nb_cb3.offset + nb_cb3.len, contexts, Ghost(n), Ghost(3nat));
        let sb_cb1: TableSpan = span_at(raw, sizes[4], nb_innov.offset + nb_innov.len, contexts, Ghost(n), Ghost(4nat));
        let sb_cb2: TableSpan = span_at(raw, sizes[5], sb_cb1.offset + sb_cb1.len, contexts, Ghost(n), Ghost(5nat));
        let sb_innov: TableSpan = span_at(raw, sizes[6], sb_cb2.offset + sb_cb2.len, contexts, Ghost(n), Ghost(6nat));
        let nb_log: i32 = ilog2(be32(raw, 0x4c));
        let sb_log: i32 = ilog2(be32(raw, 0x50));
        Ok(
            BankTables {
                contexts,
                xor_key: h.xor_key(),
                idx: TableSpan {
                    offset: TABLES_OFFSET,
                    per_context: h.frames as usize,
                    len: h.frames as usize,
                },
                nb_cb1,
                nb_cb2,
                nb_cb3,
                nb_innov,
                sb_cb1,
                sb_cb2,
                sb_innov,
                nb_innov_shift: SIG_SHIFT - nb_log,
                sb_innov_shift: SIG_SHIFT - sb_log,
            },
        )
    }

    /// The context that a frame decodes with, where the file holds it.
    pub fn context_of(&self, raw: &[u8], frame: u32) -> (r: Option<u8>)
        ensures
            match r {
                Some(c) => self.idx.offset + frame < raw@.len() && c == raw@[self.idx.offset
                    + frame],
                None => self.idx.offset + frame >= raw@.len(),
            },
    {
        let at: u128 = self.idx.offset as u128 + frame as u128;
        if at >= raw.len() as u128 {
            return None;
        }
        Some(raw[at as usize])
    }
}

/// The sizes of the codebooks, in file order, and where the last one ends.
fn table_sizes(raw: &[u8], frames: u32, contexts: u32) -> (r: (Vec<u32>, u128))
    requires
        raw@.len() >= 0x4c,
    ensures
        r.0@.len() == 7,
        forall|k: int| 0 <= k < 7 ==> #[trigger] r.0@[k] == word(raw@, size_word(k)),
        r.1 == table_start(raw@, frames as int, contexts as int, 7),
{
    let mut sizes: Vec<u32> = Vec::new();
    let mut end: u128 = 0x7c + frames as u128;
    let mut k: usize = 0;
    while k < 7
        invariant
            k <= 7,
            raw@.len() >= 0x4c,
            sizes@.len() == k,
            forall|j: int| 0 <= j < k ==> #[trigger] sizes@[j] == word(raw@, size_word(j)),
            end == table_start(raw@, frames as int, contexts as int, k as nat),
            end <= 0x2_0000_0000 + k * 0x1_0000_0000_0000_0000,
        decreases 7 - k,
    {
        let at: usize = if k < 6 {
            0x28 + 4 * k
        } else {
            0x48
        };
        let size: u32 = be32(raw, at);
        assert(0 <= size * contexts <= u32::MAX * u32::MAX) by (nonlinear_arith)
            requires
                0 <= size <= u32::MAX,
                0 <= contexts <= u32::MAX,
        ;
        sizes.push(size);
        end = end + size as u128 * contexts as u128;
        k = k + 1;
    }
    (sizes, end)
}

proof fn starts_grow(raw: Seq<u8>, frames: int, contexts: int, k: nat, m: nat)
    requires
        contexts >= 0,
    ensures
        forall|j: nat|
            k <= j <= m ==> #[trigger] table_start(raw, frames, contexts, j) <= table_start(
                raw,
                frames,
                contexts,
                m,
            ),
    decreases m,
{
    if k < m {
        starts_grow(raw, frames, contexts, k, (m - 1) as nat);
        assert(word(raw, size_word(m - 1)) * contexts >= 0) by (nonlinear_arith)
            requires
                word(raw, size_word(m - 1)) >= 0,
                contexts >= 0,
        ;
    }
}

/// Codebook `k`.
fn span_at(
    raw: &[u8],
    size: u32,
    offset: usize,
    contexts: u32,
    Ghost(frames): Ghost<int>,
    Ghost(k): Ghost<nat>,
) -> (r: TableSpan)
    requires
        size == word(raw@, size_word(k as int)),
        offset == table_start(raw@, frames, contexts as int, k),
        table_start(raw@, frames, contexts as int, (k + 1) as nat) <= raw@.len(),
    ensures
        spans(r, raw@, frames, contexts as int, k),
        r.offset + r.len <= usize::MAX,
{
    let total: usize = raw.len();
    assert(0 <= size * contexts) by (nonlinear_arith)
        requires
            size >= 0,
            contexts >= 0,
    ;
    let len: usize = size as usize * contexts as usize;
    TableSpan { offset, per_context: size as usize, len }
}

/// The whole part of a number's base-two logarithm; zero for zero.
pub fn ilog2(x: u32) -> (r: i32)
    ensures
        r == floor_log2(x as int),
        0 <= r <= 31,
{
    let mut v: u32 = x;
    let mut n: i32 = 0;
    proof {
        vstd::arithmetic::power2::lemma2_to64();
        logarithm_limit(x as int, 32);
    }
    while v > 1
        invariant
            floor_log2(x as int) == n + floor_log2(v as int),
            floor_log2(x as int) <= 31,
            0 <= n,
        decreases v,
    {
        proof {
            logarithm_sign(v as int / 2);
        }
        v = v / 2;
        n = n + 1;
    }
    n
}

proof fn logarithm_sign(x: int)
    ensures
        floor_log2(x) >= 0,
    decreases x,
{
    if x > 1 {
        logarithm_sign(x / 2);
    }
}

proof fn logarithm_limit(x: int, k: nat)
    requires
        x < pow2(k),
        k >= 1,
    ensures
        floor_log2(x) < k,
    decreases k,
{
    lemma_pow2_unfold(k);
    if x > 1 {
        vstd::arithmetic::power2::lemma2_to64();
        logarithm_limit(x / 2, (k - 1) as nat);
    }
}

/// A logarithm's whole part is the largest power of two that the number
/// reaches.
pub proof fn logarithm_bounds(x: int)
    requires
        x >= 1,
    ensures
        floor_log2(x) >= 0,
        pow2(floor_log2(x) as nat) <= x < 2 * pow2(floor_log2(x) as nat),
    decreases x,
{
    if x > 1 {
        logarithm_bounds(x / 2);
        lemma_pow2_unfold(floor_log2(x) as nat);
    } else {
        vstd::arithmetic::power2::lemma2_to64();
    }
}

/// The codebooks lie back to back: the contexts of the frames come first, and
/// the last codebook ends where the coded frames begin.
pub proof fn tables_tile_the_preamble(t: BankTables, raw: Seq<u8>, h: BankHeader)
    requires
        t.lie_in(raw, h),
        h.data_offset == table_start(raw, h.frames as int, h.raw@[9] as int, 7),
        h.frames <= usize::MAX,
    ensures
        t.idx.offset == 0x7c,
        t.idx.end() == t.nb_cb1.offset,
        t.nb_cb1.end() == t.nb_cb2.offset,
        t.nb_cb2.end() == t.nb_cb3.offset,
        t.nb_cb3.end() == t.nb_innov.offset,
        t.nb_innov.end() == t.sb_cb1.offset,
        t.sb_cb1.end() == t.sb_cb2.offset,
        t.sb_cb2.end() == t.sb_innov.offset,
        t.sb_innov.end() == h.data_offset,
{
}

/// Every context of a codebook lies inside it.
pub proof fn contexts_stay_inside(t: TableSpan, contexts: int, ctx: int)
    requires
        t.len == t.per_context * contexts,
        0 <= ctx < contexts,
    ensures
        t.offset <= t.start_of(ctx),
        t.start_of(ctx) + t.per_context <= t.end(),
{
    assert(t.per_context * ctx + t.per_context <= t.per_context * contexts && t.per_context * ctx
        >= 0) by (nonlinear_arith)
        requires
            0 <= ctx < contexts,
            t.per_context >= 0,
    ;
}

/// What the step between neighbours of the spectrum's ladder adds up to over
/// the whole order.
pub const LADDER_SPAN: u32 = 20480;

/// Where the narrowband ladder starts.
pub const LADDER_BASE_NB: i32 = 0x800;

/// Where the high-band ladder starts.
pub const LADDER_BASE_SB: i32 = 0x1800;

/// How one band decodes.
#[derive(Debug, Clone, PartialEq, Eq)]
pub struct BandParams {
    /// The order of its spectrum.
    pub order: usize,
    /// The ladder's step.
    pub spacing: u16,
    /// Where the ladder starts.
    pub base: i32,
    /// How wide each stage's index is.
    pub lsp_nbits: Vec<u32>,
    /// How many coefficients each stage refines.
    pub lsp_counts: Vec<usize>,
    /// The first coefficient that each stage refines.
    pub lsp_starts: Vec<usize>,
    /// How long an innovation subvector is.
    pub innov_subvect: usize,
    /// How wide its index is.
    pub innov_shape_bits: u32,
    /// How far an innovation byte is shifted up.
    pub innov_shift: i32,
}

/// How one band decodes, as mathematics.
pub struct Band {
    /// The order of its spectrum.
    pub order: int,
    /// The ladder's step.
    pub spacing: int,
    /// Where the ladder starts.
    pub base: int,
    /// How wide each stage's index is.
    pub lsp_nbits: Seq<u32>,
    /// How many coefficients each stage refines.
    pub lsp_counts: Seq<usize>,
    /// The first coefficient that each stage refines.
    pub lsp_starts: Seq<usize>,
    /// How long an innovation subvector is.
    pub innov_subvect: int,
    /// How wide its index is.
    pub innov_shape_bits: int,
    /// How far an innovation byte is shifted up.
    pub innov_shift: int,
}

impl View for BandParams {
    type V = Band;

    open spec fn view(&self) -> Band {
        Band {
            order: self.order as int,
            spacing: self.spacing as int,
            base: self.base as int,
            lsp_nbits: self.lsp_nbits@,
            lsp_counts: self.lsp_counts@,
            lsp_starts: self.lsp_starts@,
            innov_subvect: self.innov_subvect as int,
            innov_shape_bits: self.innov_shape_bits as int,
            innov_shift: self.innov_shift as int,
        }
    }
}

/// How both bands decode.
#[derive(Debug, Clone, PartialEq, Eq)]
pub struct BankParams {
    /// The narrow band.
    pub nb: BandParams,
    /// The high band.
    pub sb: BandParams,
}

/// Some power of two.
pub open spec fn is_power(n: int) -> bool {
    exists|k: nat| n == #[trigger] pow2(k)
}

/// How wide an index into a codebook of `size` bytes is, with entries of
/// `count` bytes; or what is wrong with it.
pub open spec fn index_width(size: int, count: int, what: Seq<char>) -> Result<int, Seq<char>> {
    if count == 0 || size % count != 0 {
        Err(compared(what + ": "@, size, " bytes does not divide by "@, count))
    } else if !is_power(size / count) {
        Err(what + ": "@ + counted(size / count, " entries is not a power of two"@))
    } else {
        Ok(floor_log2(size / count))
    }
}

/// A power of two is the power that its logarithm says.
pub proof fn powers_have_logarithms(k: nat)
    ensures
        floor_log2(pow2(k) as int) == k,
    decreases k,
{
    if k > 0 {
        powers_have_logarithms((k - 1) as nat);
        lemma_pow2_unfold(k);
        lemma_pow2_pos((k - 1) as nat);
    } else {
        vstd::arithmetic::power2::lemma2_to64();
    }
}

/// A power of two's exponent.
fn exponent(n: usize) -> (r: Option<u32>)
    ensures
        match r {
            Some(k) => is_power(n as int) && k == floor_log2(n as int),
            None => !is_power(n as int),
        },
{
    if n == 0 {
        proof {
            assert forall|k: nat| 0 != #[trigger] pow2(k) by {
                lemma_pow2_pos(k);
            }
        }
        return None;
    }
    let mut v: usize = n;
    let mut k: u32 = 0;
    proof {
        vstd::arithmetic::power2::lemma2_to64();
        vstd::arithmetic::power2::lemma2_to64_rest();
        logarithm_limit(n as int, 64);
        logarithm_sign(n as int);
    }
    while v % 2 == 0
        invariant
            1 <= v,
            n == v * pow2(k as nat),
            k + floor_log2(v as int) == floor_log2(n as int),
            0 <= k + floor_log2(v as int) <= 64,
            floor_log2(v as int) >= 0,
        decreases v,
    {
        proof {
            lemma_pow2_unfold((k + 1) as nat);
            let h = v / 2;
            let p = pow2(k as nat) as int;
            logarithm_sign(h as int);
            assert(v == 2 * h);
            assert((2 * h) * p == h * (2 * p)) by (nonlinear_arith);
        }
        v = v / 2;
        k = k + 1;
    }
    if v == 1 {
        assert(is_power(n as int)) by {
            assert(n as int == pow2(k as nat));
        }
        Some(k)
    } else {
        assert forall|j: nat| n as int != #[trigger] pow2(j) by {
            odd_part_is_one(n as int, v as int, k as nat, j);
        }
        None
    }
}

proof fn odd_part_is_one(n: int, v: int, k: nat, j: nat)
    requires
        v % 2 == 1,
        v > 1,
        n == v * pow2(k),
    ensures
        n != pow2(j),
    decreases k,
{
    if n == pow2(j) {
        lemma_pow2_pos(k);
        if k == 0 {
            vstd::arithmetic::power2::lemma2_to64();
            if j > 0 {
                lemma_pow2_unfold(j);
            }
        } else {
            lemma_pow2_unfold(k);
            let p = pow2((k - 1) as nat) as int;
            assert(v * (2 * p) == 2 * (v * p)) by (nonlinear_arith);
            if j == 0 {
                vstd::arithmetic::power2::lemma2_to64();
            } else {
                lemma_pow2_unfold(j);
                odd_part_is_one(v * p, v, (k - 1) as nat, (j - 1) as nat);
            }
        }
    }
}

/// How wide an index into a codebook is.
fn bits(name: &str, size: usize, count: usize, what: &str) -> (r: Result<u32, Error>)
    ensures
        match (r, index_width(size as int, count as int, what@)) {
            (Ok(n), Ok(want)) => n == want,
            (Err(e), Err(text)) => e@ == (Fault { file: name@, line: 0, what: text }),
            _ => false,
        },
{
    let mut before: Vec<char> = Vec::new();
    push_str(&mut before, what);
    push_str(&mut before, ": ");
    if count == 0 || size % count != 0 {
        let mut out: Vec<char> = before;
        push_all(&mut out, number(size as u128, 10).as_slice());
        push_str(&mut out, " bytes does not divide by ");
        push_all(&mut out, number(count as u128, 10).as_slice());
        return Err(Error::new(name, 0, text_of(out.as_slice())));
    }
    let entries: usize = size / count;
    match exponent(entries) {
        Some(k) => Ok(k),
        None => {
            let mut out: Vec<char> = before;
            push_all(&mut out, number(entries as u128, 10).as_slice());
            push_str(&mut out, " entries is not a power of two");
            proof {
                assert(out@ =~= what@ + ": "@ + counted(
                    entries as int,
                    " entries is not a power of two"@,
                ));
            }
            Err(Error::new(name, 0, text_of(out.as_slice())))
        },
    }
}

/// One codebook to index: its size, the size of its entries, and its name.
struct Stage<'a> {
    /// Bytes per context.
    pub size: usize,
    /// Bytes per entry.
    pub count: usize,
    /// Its name.
    pub what: &'a str,
}

/// The index widths of the first `n` codebooks, or what is wrong with the
/// first that has none.
pub open spec fn widths(stages: Seq<(int, int, Seq<char>)>, n: nat) -> Result<Seq<u32>, Seq<char>>
    decreases n,
{
    if n == 0 {
        Ok(Seq::empty())
    } else {
        match widths(stages, (n - 1) as nat) {
            Err(e) => Err(e),
            Ok(v) => match index_width(stages[n - 1].0, stages[n - 1].1, stages[n - 1].2) {
                Err(e) => Err(e),
                Ok(w) => Ok(v.push(w as u32)),
            },
        }
    }
}

/// Codebooks as mathematics.
spec fn staged(v: Seq<Stage<'_>>) -> Seq<(int, int, Seq<char>)> {
    v.map_values(|s: Stage<'_>| (s.size as int, s.count as int, s.what@))
}

proof fn bad_width_stays(stages: Seq<(int, int, Seq<char>)>, n: nat, m: nat)
    requires
        n <= m,
        widths(stages, n) is Err,
    ensures
        widths(stages, m) == widths(stages, n),
    decreases m,
{
    if n < m {
        bad_width_stays(stages, n, (m - 1) as nat);
    }
}

/// The index widths of some codebooks.
fn all_bits(name: &str, stages: &Vec<Stage<'_>>) -> (r: Result<Vec<u32>, Error>)
    ensures
        match (r, widths(staged(stages@), stages@.len())) {
            (Ok(v), Ok(want)) => v@ == want && v@.len() == stages@.len(),
            (Err(e), Err(text)) => e@ == (Fault { file: name@, line: 0, what: text }),
            _ => false,
        },
{
    let ghost all = staged(stages@);
    let mut out: Vec<u32> = Vec::new();
    let mut i: usize = 0;
    while i < stages.len()
        invariant
            i <= stages@.len(),
            all == staged(stages@),
            out@.len() == i,
            widths(all, i as nat) == Ok::<Seq<u32>, Seq<char>>(out@),
        decreases stages@.len() - i,
    {
        let s: &Stage<'_> = &stages[i];
        assert(all[i as int] == (s.size as int, s.count as int, s.what@));
        match bits(name, s.size, s.count, s.what) {
            Ok(w) => {
                out.push(w);
            },
            Err(e) => {
                proof {
                    bad_width_stays(all, (i + 1) as nat, stages@.len());
                }
                return Err(e);
            },
        }
        i = i + 1;
    }
    Ok(out)
}

/// The seven codebooks with the sizes of their entries, which the parameters
/// state.
pub open spec fn stages_of(raw: Seq<u8>, t: BankTables) -> Seq<(int, int, Seq<char>)> {
    seq![
        (t.nb_cb1.per_context as int, word(raw, 21) as int, "nb lsp stage 1"@),
        (t.nb_cb2.per_context as int, word(raw, 22) as int, "nb lsp stage 2"@),
        (t.nb_cb3.per_context as int, word(raw, 23) as int, "nb lsp stage 3"@),
        (t.nb_innov.per_context as int, word(raw, 28) as int, "nb innovation"@),
        (t.sb_cb1.per_context as int, word(raw, 24) as int, "sb lsp stage 1"@),
        (t.sb_cb2.per_context as int, word(raw, 25) as int, "sb lsp stage 2"@),
        (t.sb_innov.per_context as int, word(raw, 29) as int, "sb innovation"@),
    ]
}

/// How the narrow band decodes, with index widths `w`.
pub open spec fn nb_band(raw: Seq<u8>, t: BankTables, w: Seq<u32>) -> Band {
    Band {
        order: word(raw, 21) as int,
        spacing: 20480int / word(raw, 21) as int,
        base: 0x800,
        lsp_nbits: seq![w[0], w[1], w[2]],
        lsp_counts: seq![word(raw, 21) as usize, word(raw, 22) as usize, word(raw, 23) as usize],
        lsp_starts: seq![0usize, 0usize, word(raw, 22) as usize],
        innov_subvect: word(raw, 28) as int,
        innov_shape_bits: w[3] as int,
        innov_shift: t.nb_innov_shift as int,
    }
}

/// How the high band decodes, with index widths `w`.
pub open spec fn sb_band(raw: Seq<u8>, t: BankTables, w: Seq<u32>) -> Band {
    Band {
        order: word(raw, 24) as int,
        spacing: 20480int / word(raw, 24) as int,
        base: 0x1800,
        lsp_nbits: seq![w[4], w[5]],
        lsp_counts: seq![word(raw, 24) as usize, word(raw, 25) as usize],
        lsp_starts: seq![0usize, 0usize],
        innov_subvect: word(raw, 29) as int,
        innov_shape_bits: w[6] as int,
        innov_shift: t.sb_innov_shift as int,
    }
}

/// How both bands decode, or what is wrong with the bank.
pub open spec fn params_in(raw: Seq<u8>, t: BankTables) -> Result<(Band, Band), Seq<char>> {
    if raw.len() < 0x7c {
        Err(counted(raw.len() as int, " bytes is shorter than the 124-byte parameter block"@))
    } else if word(raw, 21) == 0 || word(raw, 24) == 0 {
        Err("bank states a zero LSP order"@)
    } else {
        match widths(stages_of(raw, t), 7) {
            Err(e) => Err(e),
            Ok(w) => Ok((nb_band(raw, t, w), sb_band(raw, t, w))),
        }
    }
}

impl BankParams {
    /// Derives both bands from the parameters and the codebooks' sizes.
    pub fn derive(name: &str, raw: &[u8], t: &BankTables) -> (r: Result<BankParams, Error>)
        ensures
            match (r, params_in(raw@, *t)) {
                (Ok(p), Ok((nb, sb))) => p.nb@ == nb && p.sb@ == sb,
                (Err(e), Err(text)) => e@ == (Fault { file: name@, line: 0, what: text }),
                _ => false,
            },
    {
        if raw.len() < TABLES_OFFSET {
            return Err(
                Error::new(
                    name,
                    0,
                    say_counted(
                        raw.len() as u128,
                        " bytes is shorter than the 124-byte parameter block",
                    ),
                ),
            );
        }
        let nb_order: usize = be32(raw, 84) as usize;
        let sb_order: usize = be32(raw, 96) as usize;
        if nb_order == 0 || sb_order == 0 {
            return Err(Error::new(name, 0, "bank states a zero LSP order".to_owned()));
        }
        let nb_low: usize = be32(raw, 88) as usize;
        let nb_high: usize = be32(raw, 92) as usize;
        let sb_split: usize = be32(raw, 100) as usize;
        let nb_sub: usize = be32(raw, 112) as usize;
        let sb_sub: usize = be32(raw, 116) as usize;
        let mut stages: Vec<Stage<'_>> = Vec::new();
        stages.push(Stage { size: t.nb_cb1.per_context, count: nb_order, what: "nb lsp stage 1" });
        stages.push(Stage { size: t.nb_cb2.per_context, count: nb_low, what: "nb lsp stage 2" });
        stages.push(Stage { size: t.nb_cb3.per_context, count: nb_high, what: "nb lsp stage 3" });
        stages.push(Stage { size: t.nb_innov.per_context, count: nb_sub, what: "nb innovation" });
        stages.push(Stage { size: t.sb_cb1.per_context, count: sb_order, what: "sb lsp stage 1" });
        stages.push(Stage { size: t.sb_cb2.per_context, count: sb_split, what: "sb lsp stage 2" });
        stages.push(Stage { size: t.sb_innov.per_context, count: sb_sub, what: "sb innovation" });
        assert(staged(stages@) =~= stages_of(raw@, *t));
        let w: Vec<u32> = match all_bits(name, &stages) {
            Ok(w) => w,
            Err(e) => {
                return Err(e);
            },
        };
        let nb = BandParams {
            order: nb_order,
            spacing: (LADDER_SPAN / nb_order as u32) as u16,
            base: LADDER_BASE_NB,
            lsp_nbits: vec![w[0], w[1], w[2]],
            lsp_counts: vec![nb_order, nb_low, nb_high],
            lsp_starts: vec![0, 0, nb_low],
            innov_subvect: nb_sub,
            innov_shape_bits: w[3],
            innov_shift: t.nb_innov_shift,
        };
        let sb = BandParams {
            order: sb_order,
            spacing: (LADDER_SPAN / sb_order as u32) as u16,
            base: LADDER_BASE_SB,
            lsp_nbits: vec![w[4], w[5]],
            lsp_counts: vec![sb_order, sb_split],
            lsp_starts: vec![0, 0],
            innov_subvect: sb_sub,
            innov_shape_bits: w[6],
            innov_shift: t.sb_innov_shift,
        };
        assert(nb@.lsp_nbits =~= seq![w@[0], w@[1], w@[2]]);
        assert(sb@.lsp_nbits =~= seq![w@[4], w@[5]]);
        assert(nb@.lsp_counts =~= nb_band(raw@, *t, w@).lsp_counts);
        assert(nb@.lsp_starts =~= nb_band(raw@, *t, w@).lsp_starts);
        assert(sb@.lsp_counts =~= sb_band(raw@, *t, w@).lsp_counts);
        assert(sb@.lsp_starts =~= sb_band(raw@, *t, w@).lsp_starts);
        assert(20480int / word(raw@, 21) as int <= 20480) by (nonlinear_arith)
            requires
                word(raw@, 21) >= 1,
        ;
        assert(20480int / word(raw@, 24) as int <= 20480) by (nonlinear_arith)
            requires
                word(raw@, 24) >= 1,
        ;
        Ok(BankParams { nb, sb })
    }
}

} // verus!

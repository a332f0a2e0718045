//! The two decoders at frame level: the top of the codec.
//!
//! A coded frame carries line spectral pairs and an excitation for each of two
//! bands. The low band is decoded first and drives the high band's gain; a
//! pair of half-band filters then joins them. In both bands the synthesis
//! filter runs one subframe behind the excitation, on the coefficients of the
//! subframe before.
//!
//! # Bits per frame
//!
//! ```text
//! narrowband   pairs 7 + 4 + 4                           =  15
//!              frame gain                                =   5
//!              4 subframes of (pitch 7 + gain 7
//!                              + subframe gain 3
//!                              + innovation 8 * 6)       = 260
//! wideband     pairs 5 + 3                               =   8
//!              4 subframes of (gain 4 + innovation 4 * 5) =  96
//!                                                          ----
//!                                                           384
//! ```
use vstd::prelude::*;
use super::bits::{reads_keep_room, small_value, width, Bits, Cursor};
use super::filters::{
    fir2x_run, fir_history, fir_output, fir_scratch, fir_taps, iir16, iir16_history, iir16_output,
    iir32, iir32_history, iir32_output, doubled, halved, mult16_32_q14, scaled_sample, signal_mul,
    tap16, tap32,
};
use super::fixed::{add32, asr32, asr64, low16, low32, lsl32, mul32, sub32, wrap16, wrap32, wrap32_add};
use super::innov::{cursor_at, indices_read, innovation, SplitCbParams, VoiceCodebook};
use super::lpc::{coefficient, lsp_to_lpc};
use super::lsp::{
    blend_weight, blended, enforce_margin, interpolate, ladder, margin_enforced, stage_bits,
    stage_cursor, staged, LspStage,
};
use super::ltp::{decoded_pitch, decoded_taps, predicted, LtpParams};
use super::math::{compute_rms16, level, trunc_div};
use super::nb::{fold_innovation, folded};
use super::sb::{combined, qmf_combine};
use super::tables::{EXC_GAIN_SCAL3, gain_codebook, gain_table, high_table, high_taps, low_table, low_taps, GC_QUANT_BOUND, OL_GAIN};

verus! {

/// Narrowband frame length, in samples.
pub const NB_FRAME: usize = 160;

/// Narrowband subframe length.
pub const NB_SUBFRAME: usize = 40;

/// Subframes per frame, both bands.
pub const SUBFRAMES: usize = 4;

/// Narrowband filter order.
pub const NB_ORDER: usize = 10;

/// Lowest pitch lag, added to the pitch field.
pub const PITCH_START: i32 = 17;

/// Highest pitch lag. It sizes the history.
pub const PITCH_END: i32 = 144;

/// Wideband filter order.
pub const SB_ORDER: usize = 8;

/// Samples per output frame: two bands of [`NB_FRAME`].
pub const FULL_FRAME: usize = 320;

/// Half-band filter length.
pub const QMF_ORDER: usize = 64;

/// Ladder spacing, narrowband.
pub const NB_SPACING: u16 = 2048;

/// Ladder spacing, wideband.
pub const SB_SPACING: u16 = 2560;

/// The Q15 factor applied to the frame gain ladder.
pub const OL_GAIN_FACTOR: i16 = 28406;

/// The Q15 factor applied to the high-band gain ladder.
pub const GC_FACTOR: i16 = 28626;

/// Excitation history, in samples: twice the highest pitch, a subframe and
/// twelve.
pub const NB_HIST: usize = 340;

/// The whole excitation buffer.
pub const NB_EXC_BUF: usize = 500;

/// Where the current frame starts in it.
pub const NB_EXC_OFF: usize = 334;

/// The seed of the analysis-gain sums.
pub const LPC_SCALING: i32 = 8192;

/// Narrowband innovation: eight subvectors of five, six-bit index, no sign.
#[verifier::allow_in_spec]
pub fn nb_split_cb() -> SplitCbParams
    returns
        (SplitCbParams { subvect_size: 5, nb_subvect: 8, shape_bits: 6, have_sign: false }),
{
    SplitCbParams { subvect_size: 5, nb_subvect: 8, shape_bits: 6, have_sign: false }
}

/// Wideband innovation: four subvectors of ten, five-bit index, no sign.
#[verifier::allow_in_spec]
pub fn sb_split_cb() -> SplitCbParams
    returns
        (SplitCbParams { subvect_size: 10, nb_subvect: 4, shape_bits: 5, have_sign: false }),
{
    SplitCbParams { subvect_size: 10, nb_subvect: 4, shape_bits: 5, have_sign: false }
}

/// Pitch predictor fields: seven bits each.
#[verifier::allow_in_spec]
pub fn nb_ltp() -> LtpParams
    returns
        (LtpParams { gain_bits: 7, pitch_bits: 7 }),
{
    LtpParams { gain_bits: 7, pitch_bits: 7 }
}

/// Why a frame was refused.
#[derive(Debug, Clone, Copy, PartialEq, Eq)]
pub enum DecodeError {
    /// The coded frame ran out of bits.
    Truncated,
    /// The frame index has no entry in the voice's context array.
    NoContext(usize),
    /// The output slice is too short.
    BadOutputLen(usize),
}

/// The per-voice codebooks, in the order a bank stores them.
#[derive(Debug, Clone, Copy)]
pub struct Voice<'a> {
    /// Codebook context of each frame.
    pub ctx: &'a [u8],
    /// Narrowband pair stages, 7 / 4 / 4 bits.
    pub nb_lsp: [&'a [i8]; 3],
    /// Narrowband innovation codebook.
    pub nb_innov: &'a [i8],
    /// Wideband pair stages, 5 / 3 bits.
    pub sb_lsp: [&'a [i8]; 2],
    /// Wideband innovation codebook.
    pub sb_innov: &'a [i8],
    /// Scaling shift of the narrowband innovation.
    pub nb_innov_log2: u8,
    /// Scaling shift of the wideband innovation.
    pub sb_innov_log2: u8,
}

impl<'a> Voice<'a> {
    /// The narrowband innovation codebook with its parameters.
    pub open spec fn nb_cbk(self) -> VoiceCodebook<'a> {
        VoiceCodebook { cb: self.nb_innov, entry_bytes: 5, shift: self.nb_innov_log2 }
    }

    /// The wideband innovation codebook with its parameters.
    pub open spec fn sb_cbk(self) -> VoiceCodebook<'a> {
        VoiceCodebook { cb: self.sb_innov, entry_bytes: 10, shift: self.sb_innov_log2 }
    }

    /// The narrowband pair stages.
    pub open spec fn nb_stages(self) -> Seq<LspStage<'a>> {
        seq![
            LspStage { cb: self.nb_lsp@[0], nbits: 7, count: 10, start: 0, shift: 5 },
            LspStage { cb: self.nb_lsp@[1], nbits: 4, count: 5, start: 0, shift: 4 },
            LspStage { cb: self.nb_lsp@[2], nbits: 4, count: 5, start: 5, shift: 4 },
        ]
    }

    /// The wideband pair stages.
    pub open spec fn sb_stages(self) -> Seq<LspStage<'a>> {
        seq![
            LspStage { cb: self.sb_lsp@[0], nbits: 5, count: 8, start: 0, shift: 5 },
            LspStage { cb: self.sb_lsp@[1], nbits: 3, count: 8, start: 0, shift: 4 },
        ]
    }

    /// The codebook context of a frame, which selects every per-voice table.
    pub fn context(&self, frame: usize) -> (r: Result<u8, DecodeError>)
        ensures
            r == if frame < self.ctx@.len() {
                Ok(self.ctx@[frame as int])
            } else {
                Err(DecodeError::NoContext(frame))
            },
    {
        if frame < self.ctx.len() {
            Ok(self.ctx[frame])
        } else {
            Err(DecodeError::NoContext(frame))
        }
    }

    /// The narrowband innovation codebook with its parameters.
    fn nb_codebook(&self) -> (r: VoiceCodebook<'a>)
        ensures
            r == self.nb_cbk(),
    {
        VoiceCodebook {
            cb: self.nb_innov,
            entry_bytes: nb_split_cb().subvect_size,
            shift: self.nb_innov_log2,
        }
    }

    /// The wideband innovation codebook with its parameters.
    fn sb_codebook(&self) -> (r: VoiceCodebook<'a>)
        ensures
            r == self.sb_cbk(),
    {
        VoiceCodebook {
            cb: self.sb_innov,
            entry_bytes: sb_split_cb().subvect_size,
            shift: self.sb_innov_log2,
        }
    }
}

/// The product of a 16-bit and a 32-bit number, in Q15: all 48 bits are kept
/// before the shift.
pub fn mult16_32_q15(x: i16, y: i32) -> (r: i32)
    ensures
        r == wrap32(x * y / 0x8000),
{
    assert(-0x1_0000_0000_0000 < x * y < 0x1_0000_0000_0000) by (nonlinear_arith)
        requires
            -0x8000 <= x <= 0x7fff,
            -0x8000_0000 <= y <= 0x7fff_ffff,
    ;
    low32(asr64(x as i64 * y as i64, 15))
}

/// What [`pdiv32_16`] returns.
pub open spec fn rounded_quotient(a: int, b: int) -> i16 {
    let d = wrap16(b) as int;
    if d == 0 {
        0
    } else {
        wrap16(trunc_div(wrap32(a + d / 2) as int, d))
    }
}

/// A division with half the divisor added first, rounded toward zero.
///
/// The divisor is narrowed to 16 bits, and one that narrows to zero gives
/// zero.
pub fn pdiv32_16(a: i32, b: i32) -> (r: i16)
    ensures
        r == rounded_quotient(a as int, b as int),
{
    let b16: i16 = low16(b);
    if b16 == 0 {
        return 0;
    }
    let num: i32 = add32(a, asr32(b16 as i32, 1));
    if num == i32::MIN && b16 == -1 {
        proof {
            vstd::arithmetic::div_mod::lemma_div_basics(0x8000_0000);
        }
        return 0;
    }
    low16(super::math::div_toward_zero(num, b16 as i32))
}

/// The narrowband decoder's state between frames.
#[derive(Debug, Clone)]
pub struct NbDecoder {
    /// Excitation: history, then the current frame.
    pub exc_buf: Vec<i16>,
    /// Filter coefficients of the last subframe.
    pub interp_qlpc: Vec<i16>,
    /// Line spectral pairs of the last frame.
    pub old_qlsp: Vec<i16>,
    /// Synthesis filter memory.
    pub mem_sp: Vec<i32>,
    /// Analysis gain of each subframe of the last frame.
    pub pi_gain: Vec<i32>,
    /// Whether no frame has been decoded yet.
    pub first: bool,
}

/// The narrowband decoder's state as mathematics.
pub struct NbState {
    /// Excitation: history, then the current frame.
    pub exc: Seq<i16>,
    /// Filter coefficients of the last subframe.
    pub lpc: Seq<i16>,
    /// Line spectral pairs of the last frame.
    pub lsp: Seq<i16>,
    /// Synthesis filter memory.
    pub mem: Seq<i32>,
    /// Analysis gain of each subframe of the last frame.
    pub pi_gain: Seq<i32>,
    /// Whether no frame has been decoded yet.
    pub first: bool,
}

impl View for NbDecoder {
    type V = NbState;

    open spec fn view(&self) -> NbState {
        NbState {
            exc: self.exc_buf@,
            lpc: self.interp_qlpc@,
            lsp: self.old_qlsp@,
            mem: self.mem_sp@,
            pi_gain: self.pi_gain@,
            first: self.first,
        }
    }
}

/// A buffer of `n` zeros.
pub open spec fn zeros16(n: nat) -> Seq<i16> {
    Seq::new(n, |i: int| 0i16)
}

/// A buffer of `n` zeros.
pub open spec fn zeros32(n: nat) -> Seq<i32> {
    Seq::new(n, |i: int| 0i32)
}

impl NbState {
    /// Every buffer has its length.
    pub open spec fn wf(self) -> bool {
        &&& self.exc.len() == 500
        &&& self.lpc.len() == 10
        &&& self.lsp.len() == 10
        &&& self.mem.len() == 10
        &&& self.pi_gain.len() == 4
    }

    /// A decoder that has decoded nothing.
    pub open spec fn fresh() -> NbState {
        NbState {
            exc: zeros16(500),
            lpc: zeros16(10),
            lsp: zeros16(10),
            mem: zeros32(10),
            pi_gain: zeros32(4),
            first: true,
        }
    }
}

/// The excitation buffer moved down by one frame.
pub open spec fn slid(exc: Seq<i16>) -> Seq<i16> {
    exc.map(
        |i: int, v: i16|
            if i < 340 {
                exc[i + 160]
            } else {
                v
            },
    )
}

/// The narrowband pairs of a frame.
pub open spec fn nb_pairs(voice: Voice, ctx: u8, b: Cursor) -> Seq<i16> {
    staged(ladder(zeros16(10), 10, 2048, 0x800), voice.nb_stages(), ctx, b, 3)
}

/// The cursor after the narrowband pairs and the frame gain.
pub open spec fn nb_header(voice: Voice, b: Cursor) -> Cursor {
    stage_cursor(voice.nb_stages(), b, 3).after(5)
}

/// The frame gain.
pub open spec fn frame_gain(voice: Voice, b: Cursor) -> int {
    let qe = stage_cursor(voice.nb_stages(), b, 3).value(5) as int;
    wrap32(28406 * OL_GAIN@[qe % 32] / 0x8000) as int
}

/// The cursor after the pitch fields of a subframe.
pub open spec fn past_pitch(b: Cursor) -> Cursor {
    b.after(7).after(7)
}

/// The cursor after a narrowband subframe.
pub open spec fn past_subframe(b: Cursor) -> Cursor {
    cursor_at(nb_split_cb(), past_pitch(b).after(3), 8)
}

/// The adaptive part of a subframe's excitation: the history seen through the
/// pitch predictor.
pub open spec fn adaptive_part(exc: Seq<i16>, b: Cursor, sub: int) -> Seq<i32> {
    predicted(
        exc.subrange(0, 334 + 40 * sub),
        decoded_pitch(17, nb_ltp(), b) as int,
        decoded_taps(nb_ltp(), gain_codebook(), b, 0),
        40,
        zeros32(40),
    )
}

/// The fixed part of a subframe's excitation: a codebook shape, scaled.
pub open spec fn fixed_part(voice: Voice, ctx: u8, gain: int, b: Cursor) -> Seq<i32> {
    let q = past_pitch(b).value(3) as int;
    let ener = wrap32(gain * EXC_GAIN_SCAL3@[q % 8] / 0x4000) as int;
    innovation(voice.nb_cbk(), ctx, nb_split_cb(), past_pitch(b).after(3), zeros32(40)).map_values(
        |v: i32| scaled_sample(v as int, ener),
    )
}

/// The excitation buffer after subframe `sub` has been written into it.
pub open spec fn excited_once(voice: Voice, ctx: u8, gain: int, exc: Seq<i16>, b: Cursor, sub: int) -> Seq<
    i16,
> {
    let adaptive = adaptive_part(exc, b, sub);
    let fixed = fixed_part(voice, ctx, gain, b);
    exc.map(
        |i: int, v: i16|
            if 334 + 40 * sub <= i < 374 + 40 * sub {
                folded(fixed[i - 334 - 40 * sub] as int, adaptive[i - 334 - 40 * sub] as int)
            } else {
                v
            },
    )
}

/// The cursor after `n` narrowband subframes.
pub open spec fn nb_cursor(b: Cursor, n: nat) -> Cursor
    decreases n,
{
    if n == 0 {
        b
    } else {
        past_subframe(nb_cursor(b, (n - 1) as nat))
    }
}

/// The excitation buffer after `n` subframes.
pub open spec fn excited(voice: Voice, ctx: u8, gain: int, exc: Seq<i16>, b: Cursor, n: nat) -> Seq<i16>
    decreases n,
{
    if n == 0 {
        exc
    } else {
        let m = (n - 1) as nat;
        excited_once(
            voice,
            ctx,
            gain,
            excited(voice, ctx, gain, exc, b, m),
            nb_cursor(b, m),
            m as int,
        )
    }
}

/// The coefficients that the pairs of subframe `sub` give.
pub open spec fn subframe_lpc(old_lsp: Seq<i16>, new_lsp: Seq<i16>, order: nat, margin: int, sub: int) -> Seq<
    i16,
> {
    let t = blend_weight(sub, 4) as int;
    let mix = Seq::new(order, |i: int| blended(old_lsp[i] as int, new_lsp[i] as int, t));
    let pairs = margin_enforced(mix, margin);
    Seq::new(order, |j: int| coefficient(pairs, order as int, j))
}

/// The coefficients that subframe `sub` is filtered with: those of the
/// subframe before it.
pub open spec fn lagged_lpc(
    first_lpc: Seq<i16>,
    old_lsp: Seq<i16>,
    new_lsp: Seq<i16>,
    order: nat,
    margin: int,
    sub: int,
) -> Seq<i16> {
    if sub <= 0 {
        first_lpc
    } else {
        subframe_lpc(old_lsp, new_lsp, order, margin, sub - 1)
    }
}

/// The response of a filter at the top of its band: the alternating sum of
/// its first `n` pairs of coefficients.
pub open spec fn band_edge(lpc: Seq<i16>, n: nat) -> i32
    decreases n,
{
    if n == 0 {
        LPC_SCALING
    } else {
        wrap32(band_edge(lpc, (n - 1) as nat) + lpc[2 * n - 1] - lpc[2 * n - 2])
    }
}

/// What the synthesis filter of subframe `sub` is fed: the excitation, one
/// subframe late.
pub open spec fn lagged_exc(exc: Seq<i16>, sub: int) -> Seq<i16> {
    exc.subrange(294 + 40 * sub, 334 + 40 * sub)
}

/// The narrowband synthesis of a frame: its excitation, its pairs, and where
/// the filter stands.
pub struct NbFrame {
    /// The excitation buffer, current frame included.
    pub exc: Seq<i16>,
    /// Coefficients left by the frame before.
    pub lpc: Seq<i16>,
    /// Pairs of the frame before.
    pub old_lsp: Seq<i16>,
    /// Pairs of this frame.
    pub new_lsp: Seq<i16>,
    /// Filter memory left by the frame before.
    pub mem: Seq<i32>,
}

impl NbFrame {
    /// The coefficients subframe `sub` is filtered with.
    pub open spec fn lpc_at(self, sub: int) -> Seq<i16> {
        lagged_lpc(self.lpc, self.old_lsp, self.new_lsp, 10, 16, sub)
    }

    /// The filter memory before subframe `sub`.
    pub open spec fn mem_at(self, sub: nat) -> Seq<i32>
        decreases sub,
    {
        if sub == 0 {
            self.mem
        } else {
            let s = (sub - 1) as nat;
            iir16_history(lagged_exc(self.exc, s as int), self.lpc_at(s as int), self.mem_at(s), 10, 40)
        }
    }

    /// Output sample `i`.
    pub open spec fn sample(self, i: int) -> int {
        let s = i / 40;
        let x = lagged_exc(self.exc, s);
        iir16_output(
            tap16(x, i % 40),
            iir16_history(x, self.lpc_at(s), self.mem_at(s as nat), 10, (i % 40) as nat),
        )
    }
}

impl NbState {
    /// The frame that a read at `b` decodes.
    pub open spec fn frame(self, voice: Voice, ctx: u8, b: Cursor) -> NbFrame {
        let lsp = nb_pairs(voice, ctx, b);
        NbFrame {
            exc: excited(
                voice,
                ctx,
                frame_gain(voice, b),
                slid(self.exc),
                nb_header(voice, b),
                4,
            ),
            lpc: self.lpc,
            old_lsp: if self.first {
                lsp
            } else {
                self.lsp
            },
            new_lsp: lsp,
            mem: self.mem,
        }
    }

    /// The state after a frame.
    pub open spec fn after(self, f: NbFrame) -> NbState {
        NbState {
            exc: f.exc,
            lpc: f.lpc_at(4),
            lsp: f.new_lsp,
            mem: f.mem_at(4),
            pi_gain: Seq::new(4, |s: int| band_edge(f.lpc_at(s), 5)),
            first: false,
        }
    }

    /// The state after a frame that ran out of bits: the excitation has been
    /// written, the filters have not run.
    pub open spec fn after_truncated(self, f: NbFrame) -> NbState {
        NbState { exc: f.exc, lsp: f.old_lsp, ..self }
    }
}

/// The cursor after a narrowband frame.
pub open spec fn past_nb_frame(voice: Voice, b: Cursor) -> Cursor {
    nb_cursor(nb_header(voice, b), 4)
}

/// Folds a subframe's two parts into the buffer at `at`.
fn fold_into(exc: &mut Vec<i16>, at: usize, fixed: &[i32], adaptive: &[i32])
    requires
        at + 40 <= old(exc)@.len(),
        fixed@.len() == 40,
        adaptive@.len() == 40,
    ensures
        final(exc)@ == old(exc)@.map(
            |i: int, v: i16|
                if at <= i < at + 40 {
                    folded(fixed@[i - at] as int, adaptive@[i - at] as int)
                } else {
                    v
                },
        ),
{
    let ghost e0 = exc@;
    let len: usize = exc.len();
    let mut i: usize = 0;
    while i < NB_SUBFRAME
        invariant
            i <= 40,
            exc@.len() == e0.len(),
            at + 40 <= e0.len() == len,
            adaptive@.len() == 40,
            fixed@.len() == 40,
            forall|k: int|
                at <= k < at + i ==> exc@[k] == folded(
                    fixed@[k - at] as int,
                    adaptive@[k - at] as int,
                ),
            forall|k: int| 0 <= k < at || at + i <= k < e0.len() ==> exc@[k] == e0[k],
        decreases 40 - i,
    {
        exc.set(at + i, fold_innovation(fixed[i], adaptive[i]));
        i = i + 1;
    }
}

/// Adds one narrowband subframe to the excitation buffer.
#[verifier::spinoff_prover]
#[verifier::rlimit(50)]
fn excite(voice: &Voice, ctx: u8, gain: i32, exc: &mut Vec<i16>, bits: &mut Bits, sub: usize)
    requires
        old(exc)@.len() == 500,
        sub < 4,
        old(bits)@.holds(65),
    ensures
        final(exc)@ == excited_once(*voice, ctx, gain as int, old(exc)@, old(bits)@, sub as int),
        final(exc)@.len() == 500,
        final(bits)@ == past_subframe(old(bits)@),
        final(bits)@.at() <= old(bits)@.at() + 65,
        final(bits)@.wf(),
{
    let ghost b0 = bits@;
    let ghost e0 = exc@;
    proof {
        reads_keep_room(b0, 7, 65);
        reads_keep_room(b0.after(7), 7, 58);
        reads_keep_room(past_pitch(b0), 3, 51);
        small_value(b0.after(7), 7);
    }
    let at: usize = NB_EXC_OFF + NB_SUBFRAME * sub;
    let mut adaptive: Vec<i32> = vec![0i32; NB_SUBFRAME];
    assert(adaptive@ =~= zeros32(40));
    let hist: &[i16] = vstd::slice::slice_subrange(exc.as_slice(), 0, at);
    let taps: [i8; 512] = gain_table();
    super::ltp::unquant(
        hist,
        adaptive.as_mut_slice(),
        PITCH_START,
        &nb_ltp(),
        taps.as_slice(),
        NB_SUBFRAME,
        bits,
        0,
    );
    assert(adaptive@ == adaptive_part(e0, b0, sub as int));
    let q: u32 = bits.unpack(3);
    let scal: [i16; 8] = EXC_GAIN_SCAL3;
    let ener: i32 = mult16_32_q14(scal[(q % 8) as usize], gain);
    let cbk: VoiceCodebook = voice.nb_codebook();
    let mut innov: Vec<i32> = vec![0i32; NB_SUBFRAME];
    assert(innov@ =~= zeros32(40));
    let par: SplitCbParams = nb_split_cb();
    assert(par.nb_subvect * par.subvect_size == 40) by (nonlinear_arith)
        requires
            par.nb_subvect == 8,
            par.subvect_size == 5,
    ;
    super::innov::unquant(&cbk, ctx, &par, bits, innov.as_mut_slice());
    let mut fixed: Vec<i32> = vec![0i32; NB_SUBFRAME];
    signal_mul(innov.as_slice(), fixed.as_mut_slice(), ener, NB_SUBFRAME as i32);
    assert(fixed@ =~= fixed_part(*voice, ctx, gain as int, b0));
    fold_into(exc, at, fixed.as_slice(), adaptive.as_slice());
    assert(exc@ =~= excited_once(*voice, ctx, gain as int, e0, b0, sub as int));
    proof {
        subframe_reads(b0);
    }
}

/// How far a narrowband subframe moves the cursor.
proof fn subframe_reads(b: Cursor)
    requires
        b.holds(65),
    ensures
        past_subframe(b).wf(),
        past_subframe(b).at() <= b.at() + 65,
{
    let c = past_pitch(b).after(3);
    reads_keep_room(b, 7, 65);
    reads_keep_room(b.after(7), 7, 58);
    reads_keep_room(past_pitch(b), 3, 51);
    indices_read(nb_split_cb(), c, 8);
}


/// The coefficients that the pairs of a subframe give.
fn subframe_filter(old_lsp: &[i16], new_lsp: &[i16], order: usize, margin: i16, sub: usize) -> (ak: Vec<
    i16,
>)
    requires
        2 <= order <= 16,
        old_lsp@.len() == order,
        new_lsp@.len() == order,
        sub < 4,
    ensures
        ak@ == subframe_lpc(old_lsp@, new_lsp@, order as nat, margin as int, sub as int),
{
    let mut mix: Vec<i16> = vec![0i16; order];
    interpolate(old_lsp, new_lsp, mix.as_mut_slice(), order, sub as i32, SUBFRAMES as i32);
    let ghost t = blend_weight(sub as int, 4) as int;
    assert(mix@ =~= Seq::new(
        order as nat,
        |i: int| blended(old_lsp@[i] as int, new_lsp@[i] as int, t),
    ));
    enforce_margin(mix.as_mut_slice(), margin);
    let mut ak: Vec<i16> = vec![0i16; order];
    lsp_to_lpc(mix.as_slice(), ak.as_mut_slice(), order as i32);
    assert(ak@ =~= subframe_lpc(old_lsp@, new_lsp@, order as nat, margin as int, sub as int));
    ak
}

/// The response of a filter at the top of its band.
fn edge_response(lpc: &[i16], pairs: usize) -> (r: i32)
    requires
        2 * pairs <= lpc@.len(),
        pairs <= 8,
    ensures
        r == band_edge(lpc@, pairs as nat),
{
    let mut sum: i32 = LPC_SCALING;
    let mut i: usize = 0;
    while i < pairs
        invariant
            i <= pairs <= 8,
            2 * pairs <= lpc@.len(),
            sum == band_edge(lpc@, i as nat),
        decreases pairs - i,
    {
        proof {
            wrap32_add(sum + lpc@[2 * i + 1], -lpc@[2 * i as int]);
        }
        sum = sub32(add32(sum, lpc[2 * i + 1] as i32), lpc[2 * i] as i32);
        i = i + 1;
    }
    sum
}

/// Copies a filtered subframe into the output.
fn place16(out: &mut [i16], at: usize, sub: &[i16])
    requires
        at + sub@.len() <= old(out)@.len(),
    ensures
        final(out)@ == old(out)@.map(
            |i: int, v: i16|
                if at <= i < at + sub@.len() {
                    sub@[i - at]
                } else {
                    v
                },
        ),
{
    let ghost o0 = out@;
    let len: usize = out.len();
    let mut i: usize = 0;
    while i < sub.len()
        invariant
            i <= sub@.len(),
            at + sub@.len() <= o0.len() == len,
            out@.len() == o0.len(),
            forall|k: int| at <= k < at + i ==> out@[k] == sub@[k - at],
            forall|k: int| 0 <= k < at || at + i <= k < o0.len() ==> out@[k] == o0[k],
        decreases sub@.len() - i,
    {
        out[at + i] = sub[i];
        i = i + 1;
    }
    assert(out@ =~= o0.map(
        |i: int, v: i16|
            if at <= i < at + sub@.len() {
                sub@[i - at]
            } else {
                v
            },
    ));
}

/// Filters a narrowband frame's excitation into `out`, one subframe behind.
fn nb_synthesis(
    exc: &[i16],
    lpc: &mut Vec<i16>,
    old_lsp: &[i16],
    new_lsp: &[i16],
    mem: &mut Vec<i32>,
    pi: &mut Vec<i32>,
    out: &mut [i16],
)
    requires
        exc@.len() == 500,
        old(lpc)@.len() == 10,
        old_lsp@.len() == 10,
        new_lsp@.len() == 10,
        old(mem)@.len() == 10,
        old(pi)@.len() == 4,
        old(out)@.len() >= 160,
    ensures
        ({
            let f = NbFrame {
                exc: exc@,
                lpc: old(lpc)@,
                old_lsp: old_lsp@,
                new_lsp: new_lsp@,
                mem: old(mem)@,
            };
            &&& final(lpc)@ == f.lpc_at(4)
            &&& final(mem)@ == f.mem_at(4)
            &&& final(mem)@.len() == 10
            &&& final(pi)@ == Seq::new(4, |s: int| band_edge(f.lpc_at(s), 5))
            &&& final(out)@.len() == old(out)@.len()
            &&& forall|i: int|
                0 <= i < old(out)@.len() ==> #[trigger] final(out)@[i] == if i < 160 {
                    f.sample(i)
                } else {
                    old(out)@[i] as int
                }
        }),
{
    let ghost f = NbFrame {
        exc: exc@,
        lpc: lpc@,
        old_lsp: old_lsp@,
        new_lsp: new_lsp@,
        mem: mem@,
    };
    let ghost o0 = out@;
    let mut sub: usize = 0;
    while sub < SUBFRAMES
        invariant
            sub <= 4,
            exc@.len() == 500,
            old_lsp@.len() == 10,
            new_lsp@.len() == 10,
            f.exc == exc@,
            f.old_lsp == old_lsp@,
            f.new_lsp == new_lsp@,
            lpc@ == f.lpc_at(sub as int),
            lpc@.len() == 10,
            mem@ == f.mem_at(sub as nat),
            mem@.len() == 10,
            pi@.len() == 4,
            forall|s: int| 0 <= s < sub ==> pi@[s] == band_edge(f.lpc_at(s), 5),
            out@.len() == o0.len() >= 160,
            forall|i: int|
                0 <= i < o0.len() ==> #[trigger] out@[i] == if i < 40 * sub {
                    f.sample(i)
                } else {
                    o0[i] as int
                },
        decreases 4 - sub,
    {
        let ak: Vec<i16> = subframe_filter(old_lsp, new_lsp, NB_ORDER, 16, sub);
        pi.set(sub, edge_response(lpc.as_slice(), 5));
        let at: usize = NB_EXC_OFF - NB_SUBFRAME + NB_SUBFRAME * sub;
        let src: &[i16] = vstd::slice::slice_subrange(exc, at, at + NB_SUBFRAME);
        assert(src@ == lagged_exc(exc@, sub as int));
        let mut filtered: Vec<i16> = vec![0i16; NB_SUBFRAME];
        let ghost m0 = mem@;
        iir16(
            src,
            lpc.as_slice(),
            NB_SUBFRAME as i32,
            NB_ORDER as i32,
            filtered.as_mut_slice(),
            mem.as_mut_slice(),
        );
        place16(out, NB_SUBFRAME * sub, filtered.as_slice());
        proof {
            assert forall|i: int| 40 * sub <= i < 40 * sub + 40 implies #[trigger] out@[i] == f.sample(i) by {
                assert(i / 40 == sub);
                assert(i % 40 == i - 40 * sub);
                assert(out@[i] == filtered@[i - 40 * sub]);
            }
            assert(mem@ == f.mem_at((sub + 1) as nat));
            history16_len(src@, lpc@, m0, 10, 40);
        }
        *lpc = ak;
        sub = sub + 1;
    }
    assert(pi@ =~= Seq::new(4, |s: int| band_edge(f.lpc_at(s), 5)));
}

/// The filter's memory keeps its length.
proof fn history16_len(x: Seq<i16>, den: Seq<i16>, mem: Seq<i32>, ord: int, i: nat)
    ensures
        iir16_history(x, den, mem, ord, i).len() == mem.len(),
    decreases i,
{
    if i > 0 {
        history16_len(x, den, mem, ord, (i - 1) as nat);
    }
}

impl NbDecoder {
    /// A decoder that has decoded nothing.
    pub fn new() -> (r: Self)
        ensures
            r@ == NbState::fresh(),
            r@.wf(),
    {
        let r = NbDecoder {
            exc_buf: vec![0i16; NB_EXC_BUF],
            interp_qlpc: vec![0i16; NB_ORDER],
            old_qlsp: vec![0i16; NB_ORDER],
            mem_sp: vec![0i32; NB_ORDER],
            pi_gain: vec![0i32; SUBFRAMES],
            first: true,
        };
        assert(r@.exc =~= zeros16(500));
        assert(r@.lpc =~= zeros16(10));
        assert(r@.lsp =~= zeros16(10));
        assert(r@.mem =~= zeros32(10));
        assert(r@.pi_gain =~= zeros32(4));
        r
    }

    /// The last frame's excitation.
    pub fn excitation(&self) -> (r: &[i16])
        requires
            self@.wf(),
        ensures
            r@ == self@.exc.subrange(334, 494),
    {
        vstd::slice::slice_subrange(
            self.exc_buf.as_slice(),
            NB_EXC_OFF,
            NB_EXC_OFF + NB_FRAME,
        )
    }

    /// The last frame's analysis gain, one per subframe.
    pub fn pi_gain(&self) -> (r: &[i32])
        ensures
            r@ == self@.pi_gain,
    {
        self.pi_gain.as_slice()
    }

    /// Moves the excitation down by one frame.
    fn slide(&mut self)
        requires
            old(self)@.wf(),
        ensures
            final(self)@ == (NbState { exc: slid(old(self)@.exc), ..old(self)@ }),
    {
        let ghost e0 = self.exc_buf@;
        let mut i: usize = 0;
        while i < NB_HIST
            invariant
                i <= 340,
                self@ == (NbState { exc: self.exc_buf@, ..old(self)@ }),
                e0.len() == 500,
                self.exc_buf@.len() == 500,
                forall|k: int| 0 <= k < i ==> self.exc_buf@[k] == e0[k + 160],
                forall|k: int| i <= k < 500 ==> self.exc_buf@[k] == e0[k],
            decreases 340 - i,
        {
            let v: i16 = self.exc_buf[i + NB_FRAME];
            self.exc_buf.set(i, v);
            i = i + 1;
        }
        assert(self.exc_buf@ =~= slid(e0));
    }

    /// Reads a frame's pairs, gain and excitation.
    ///
    /// Returns the pairs.
    fn read_frame(&mut self, voice: &Voice, ctx: u8, bits: &mut Bits) -> (lsp: Vec<i16>)
        requires
            old(self)@.wf(),
            old(bits)@.holds(280),
        ensures
            lsp@ == nb_pairs(*voice, ctx, old(bits)@),
            lsp@.len() == 10,
            final(self)@ == old(self)@.after_truncated(old(self)@.frame(*voice, ctx, old(bits)@)),
            final(self)@.wf(),
            final(bits)@ == past_nb_frame(*voice, old(bits)@),
            final(bits)@.wf(),
            final(bits)@.at() <= old(bits)@.at() + 280,
    {
        let ghost st = self@;
        let ghost b0 = bits@;
        self.slide();
        let mut lsp: Vec<i16> = vec![0i16; NB_ORDER];
        assert(lsp@ =~= zeros16(10));
        let stages: [LspStage; 3] = [
            LspStage::first(voice.nb_lsp[0], 7, NB_ORDER),
            LspStage::split(voice.nb_lsp[1], 4, 5, 0),
            LspStage::split(voice.nb_lsp[2], 4, 5, 5),
        ];
        proof {
            assert(stages@ =~= voice.nb_stages());
            nb_stage_reads(*voice, b0);
        }
        super::lsp::unquant(
            lsp.as_mut_slice(),
            NB_ORDER,
            NB_SPACING,
            super::lsp::BASE_NB,
            stages.as_slice(),
            ctx,
            bits,
        );
        if self.first {
            self.old_qlsp = copy16(lsp.as_slice());
        }
        let ghost b1 = bits@;
        proof {
            reads_keep_room(b1, 5, 265);
        }
        let qe: u32 = bits.unpack(super::nb::ol_gain_bits(NB_ORDER as u32) as i32);
        let gains: [i32; 32] = OL_GAIN;
        let gain: i32 = mult16_32_q15(OL_GAIN_FACTOR, gains[(qe % 32) as usize]);
        let ghost b2 = bits@;
        let ghost e0 = self.exc_buf@;
        let mut sub: usize = 0;
        while sub < SUBFRAMES
            invariant
                sub <= 4,
                e0.len() == 500,
                self.exc_buf@.len() == 500,
                self@ == (NbState { exc: self.exc_buf@, ..self@ }),
                self.interp_qlpc@ == st.lpc,
                self.old_qlsp@ == (if st.first {
                    lsp@
                } else {
                    st.lsp
                }),
                self.mem_sp@ == st.mem,
                self.pi_gain@ == st.pi_gain,
                self.first == st.first,
                bits@.wf(),
                b2.at() <= b0.at() + 20,
                b0.holds(280),
                bits@.at() <= b2.at() + 65 * sub,
                bits@ == nb_cursor(b2, sub as nat),
                self.exc_buf@ == excited(*voice, ctx, gain as int, e0, b2, sub as nat),
            decreases 4 - sub,
        {
            excite(voice, ctx, gain, &mut self.exc_buf, bits, sub);
            sub = sub + 1;
        }
        lsp
    }

    /// Decodes one narrowband frame into the first [`NB_FRAME`] samples of
    /// `out`.
    pub fn decode(
        &mut self,
        voice: &Voice,
        frame: usize,
        bits: &mut Bits,
        out: &mut [i16],
    ) -> (r: Result<(), DecodeError>)
        requires
            old(self)@.wf(),
            old(bits)@.holds(280),
        ensures
            final(self)@.wf(),
            final(bits)@.wf(),
            final(bits)@.at() <= old(bits)@.at() + 280,
            final(out)@.len() == old(out)@.len(),
            old(out)@.len() < 160 ==> {
                &&& r == Err::<(), DecodeError>(DecodeError::BadOutputLen(old(out)@.len() as usize))
                &&& final(self)@ == old(self)@
                &&& final(bits)@ == old(bits)@
                &&& final(out)@ == old(out)@
            },
            old(out)@.len() >= 160 && frame >= voice.ctx@.len() ==> {
                &&& r == Err::<(), DecodeError>(DecodeError::NoContext(frame))
                &&& final(self)@ == old(self)@
                &&& final(bits)@ == old(bits)@
                &&& final(out)@ == old(out)@
            },
            old(out)@.len() >= 160 && frame < voice.ctx@.len() ==> {
                let ctx = voice.ctx@[frame as int];
                let f = old(self)@.frame(*voice, ctx, old(bits)@);
                let b = past_nb_frame(*voice, old(bits)@);
                &&& final(bits)@ == b
                &&& b.overflow != 0 ==> {
                    &&& r == Err::<(), DecodeError>(DecodeError::Truncated)
                    &&& final(self)@ == old(self)@.after_truncated(f)
                    &&& final(out)@ == old(out)@
                }
                &&& b.overflow == 0 ==> {
                    &&& r == Ok::<(), DecodeError>(())
                    &&& final(self)@ == old(self)@.after(f)
                    &&& forall|i: int|
                        0 <= i < old(out)@.len() ==> #[trigger] final(out)@[i] == if i < 160 {
                            f.sample(i)
                        } else {
                            old(out)@[i] as int
                        }
                }
            },
    {
        if out.len() < NB_FRAME {
            return Err(DecodeError::BadOutputLen(out.len()));
        }
        let ctx: u8 = match voice.context(frame) {
            Ok(c) => c,
            Err(e) => {
                return Err(e);
            },
        };
        let lsp: Vec<i16> = self.read_frame(voice, ctx, bits);
        if bits.overflowed() {
            return Err(DecodeError::Truncated);
        }
        nb_synthesis(
            self.exc_buf.as_slice(),
            &mut self.interp_qlpc,
            self.old_qlsp.as_slice(),
            lsp.as_slice(),
            &mut self.mem_sp,
            &mut self.pi_gain,
            out,
        );
        self.old_qlsp = lsp;
        self.first = false;
        Ok(())
    }
}

impl Default for NbDecoder {
    fn default() -> (r: Self)
        ensures
            r@ == NbState::fresh(),
    {
        NbDecoder::new()
    }
}

/// A copy of a buffer.
fn copy16(s: &[i16]) -> (r: Vec<i16>)
    ensures
        r@ == s@,
{
    vstd::slice::slice_to_vec(s)
}

/// The narrowband stages read fifteen bits.
proof fn nb_stage_reads(voice: Voice, b: Cursor)
    requires
        b.holds(15),
    ensures
        stage_bits(voice.nb_stages(), 0) == 15,
        stage_cursor(voice.nb_stages(), b, 3).wf(),
        stage_cursor(voice.nb_stages(), b, 3).at() <= b.at() + 15,
{
    let st = voice.nb_stages();
    reveal_with_fuel(stage_bits, 4);
    reveal_with_fuel(stage_cursor, 4);
    reads_keep_room(b, 7, 15);
    reads_keep_room(b.after(7), 4, 8);
    reads_keep_room(b.after(7).after(4), 4, 4);
}

/// The wideband decoder's state between frames.
#[derive(Debug, Clone)]
pub struct SbDecoder {
    /// The low band, decoded first.
    pub low: NbDecoder,
    /// Half-band filter history, low band.
    pub g0_mem: Vec<i32>,
    /// Half-band filter history, high band.
    pub g1_mem: Vec<i32>,
    /// High-band excitation of the last subframe.
    pub exc_buf: Vec<i32>,
    /// High-band line spectral pairs of the last frame.
    pub old_qlsp: Vec<i16>,
    /// High-band filter coefficients of the last subframe.
    pub interp_qlpc: Vec<i16>,
    /// High-band synthesis filter memory.
    pub mem_sp: Vec<i32>,
    /// Whether no frame has been decoded yet.
    pub first: bool,
}

/// The wideband decoder's state as mathematics.
pub struct SbState {
    /// The low band.
    pub low: NbState,
    /// Half-band filter history, low band.
    pub g0: Seq<i32>,
    /// Half-band filter history, high band.
    pub g1: Seq<i32>,
    /// High-band excitation of the last subframe.
    pub exc: Seq<i32>,
    /// High-band line spectral pairs of the last frame.
    pub lsp: Seq<i16>,
    /// High-band filter coefficients of the last subframe.
    pub lpc: Seq<i16>,
    /// High-band synthesis filter memory.
    pub mem: Seq<i32>,
    /// Whether no frame has been decoded yet.
    pub first: bool,
}

impl View for SbDecoder {
    type V = SbState;

    open spec fn view(&self) -> SbState {
        SbState {
            low: self.low@,
            g0: self.g0_mem@,
            g1: self.g1_mem@,
            exc: self.exc_buf@,
            lsp: self.old_qlsp@,
            lpc: self.interp_qlpc@,
            mem: self.mem_sp@,
            first: self.first,
        }
    }
}

/// The high band of a frame, and the low band under it.
pub struct SbFrame {
    /// The low band.
    pub low: NbFrame,
    /// Coefficients left by the frame before.
    pub lpc: Seq<i16>,
    /// Pairs of the frame before.
    pub old_lsp: Seq<i16>,
    /// Pairs of this frame.
    pub new_lsp: Seq<i16>,
    /// Filter memory left by the frame before.
    pub mem: Seq<i32>,
    /// Excitation carried over from the frame before.
    pub carried: Seq<i32>,
    /// Excitation of each subframe.
    pub parts: Seq<Seq<i32>>,
}

/// The ratio of the two bands' responses where they meet.
pub open spec fn band_ratio(low_edge: int, high_edge: int) -> i16 {
    rounded_quotient(wrap32(4 * (low_edge + 82)) as int, (82 + high_edge) / 32)
}

/// The gain of a high-band subframe: the coded ladder step over the band
/// ratio, times the low band's level.
pub open spec fn high_gain(low_edge: int, high_edge: int, qgc: int, low_level: int) -> i32 {
    let gc = wrap16(wrap32(28626 * GC_QUANT_BOUND@[qgc % 16] / 0x8000) as int);
    let q = rounded_quotient(gc * 256, band_ratio(low_edge, high_edge) as int);
    wrap32(64 * wrap32(q * wrap32(low_level + 1)))
}

/// The cursor after `n` high-band subframes.
pub open spec fn sb_cursor(b: Cursor, n: nat) -> Cursor
    decreases n,
{
    if n == 0 {
        b
    } else {
        cursor_at(sb_split_cb(), sb_cursor(b, (n - 1) as nat).after(4), 4)
    }
}

/// A high-band subframe's excitation: a codebook shape, scaled.
pub open spec fn high_part(voice: Voice, ctx: u8, scale: int, b: Cursor) -> Seq<i32> {
    innovation(voice.sb_cbk(), ctx, sb_split_cb(), b, zeros32(40)).map_values(
        |v: i32| scaled_sample(v as int, scale),
    )
}

impl SbFrame {
    /// The coefficients subframe `sub` is filtered with.
    pub open spec fn lpc_at(self, sub: int) -> Seq<i16> {
        lagged_lpc(self.lpc, self.old_lsp, self.new_lsp, 8, 410, sub)
    }

    /// What the filter of subframe `sub` is fed: the excitation, one subframe
    /// late.
    pub open spec fn feed(self, sub: int) -> Seq<i32> {
        if sub <= 0 {
            self.carried
        } else {
            self.parts[sub - 1]
        }
    }

    /// The filter memory before subframe `sub`.
    pub open spec fn mem_at(self, sub: nat) -> Seq<i32>
        decreases sub,
    {
        if sub == 0 {
            self.mem
        } else {
            let s = (sub - 1) as nat;
            doubled(
                iir32_history(
                    self.feed(s as int),
                    self.lpc_at(s as int),
                    halved(self.mem_at(s), 8),
                    8,
                    40,
                ),
                8,
            )
        }
    }

    /// High-band sample `i`.
    pub open spec fn high(self, i: int) -> int {
        let s = i / 40;
        iir32_output(
            tap32(self.feed(s), i % 40),
            iir32_history(
                self.feed(s),
                self.lpc_at(s),
                halved(self.mem_at(s as nat), 8),
                8,
                (i % 40) as nat,
            ),
        )
    }

    /// The low band as the half-band filter takes it, in Q14.
    pub open spec fn low_signal(self) -> Seq<i32> {
        Seq::new(160, |i: int| (self.low.sample(i) * 0x4000) as i32)
    }

    /// The high band as the half-band filter takes it.
    pub open spec fn high_signal(self) -> Seq<i32> {
        Seq::new(160, |i: int| self.high(i) as i32)
    }
}

impl SbState {
    /// Every buffer has its length.
    pub open spec fn wf(self) -> bool {
        &&& self.low.wf()
        &&& self.g0.len() == 64
        &&& self.g1.len() == 64
        &&& self.exc.len() == 40
        &&& self.lsp.len() == 8
        &&& self.lpc.len() == 8
        &&& self.mem.len() == 16
    }

    /// A decoder that has decoded nothing.
    pub open spec fn fresh() -> SbState {
        SbState {
            low: NbState::fresh(),
            g0: zeros32(64),
            g1: zeros32(64),
            exc: zeros32(40),
            lsp: zeros16(8),
            lpc: zeros16(8),
            mem: zeros32(16),
            first: true,
        }
    }

    /// The frame that a read at `b` decodes.
    #[verifier::opaque]
    pub open spec fn frame(self, voice: Voice, ctx: u8, b: Cursor) -> SbFrame {
        let low = self.low.frame(voice, ctx, b);
        let b1 = past_nb_frame(voice, b);
        let lsp = sb_pairs(voice, ctx, b1);
        let old_lsp = if self.first {
            lsp
        } else {
            self.lsp
        };
        let b2 = stage_cursor(voice.sb_stages(), b1, 2);
        SbFrame {
            low,
            lpc: self.lpc,
            old_lsp,
            new_lsp: lsp,
            mem: self.mem,
            carried: self.exc,
            parts: Seq::new(
                4,
                |s: int|
                    high_part(
                        voice,
                        ctx,
                        high_scale(
                            low,
                            lagged_lpc(self.lpc, old_lsp, lsp, 8, 410, s),
                            sb_cursor(b2, s as nat),
                            s,
                        ) as int,
                        sb_cursor(b2, s as nat).after(4),
                    ),
            ),
        }
    }

    /// The state after a frame.
    #[verifier::opaque]
    pub open spec fn after(self, f: SbFrame) -> SbState {
        SbState {
            low: self.low.after(f.low),
            g0: fir_history(f.low_signal(), self.g0, 320, 64),
            g1: fir_history(f.high_signal(), self.g1, 320, 64),
            exc: f.feed(4),
            lsp: f.new_lsp,
            lpc: f.lpc_at(4),
            mem: f.mem_at(4),
            first: false,
        }
    }

    /// The state after a frame whose low band ran out of bits.
    #[verifier::opaque]
    pub open spec fn after_low_truncated(self, f: SbFrame) -> SbState {
        SbState { low: self.low.after_truncated(f.low), ..self }
    }

    /// The state after a frame whose high band ran out of bits: the bands
    /// have not been joined.
    #[verifier::opaque]
    pub open spec fn after_truncated(self, f: SbFrame) -> SbState {
        SbState { g0: self.g0, g1: self.g1, lsp: f.old_lsp, first: self.first, ..self.after(f) }
    }

    /// Output sample `o` of a frame.
    #[verifier::opaque]
    pub open spec fn sample(self, f: SbFrame, o: int) -> int {
        combined(
            fir_output(
                fir_scratch(f.low_signal(), self.g0, 320, 64),
                fir_taps(low_taps(), 64),
                320,
                64,
                o,
            ) as int,
            fir_output(
                fir_scratch(f.high_signal(), self.g1, 320, 64),
                fir_taps(high_taps(), 64),
                320,
                64,
                o,
            ) as int,
        )
    }
}

/// The wideband pairs of a frame.
pub open spec fn sb_pairs(voice: Voice, ctx: u8, b: Cursor) -> Seq<i16> {
    staged(ladder(zeros16(8), 8, 2560, 0x1800), voice.sb_stages(), ctx, b, 2)
}

/// The gain of high-band subframe `s`, whose fields start at `b`.
pub open spec fn high_scale(low: NbFrame, lpc: Seq<i16>, b: Cursor, s: int) -> i32 {
    high_gain(
        band_edge(low.lpc_at(s), 5) as int,
        band_edge(lpc, 4) as int,
        b.value(4) as int,
        level(low.exc.subrange(334, 494).subrange(40 * s, 160), 40),
    )
}

/// The cursor after a whole frame.
pub open spec fn past_frame(voice: Voice, b: Cursor) -> Cursor {
    sb_cursor(stage_cursor(voice.sb_stages(), past_nb_frame(voice, b), 2), 4)
}

/// The wideband stages read eight bits.
proof fn sb_stage_reads(voice: Voice, b: Cursor)
    requires
        b.holds(8),
    ensures
        stage_bits(voice.sb_stages(), 0) == 8,
        stage_cursor(voice.sb_stages(), b, 2).wf(),
        stage_cursor(voice.sb_stages(), b, 2).at() <= b.at() + 8,
{
    reveal_with_fuel(stage_bits, 3);
    reveal_with_fuel(stage_cursor, 3);
    reads_keep_room(b, 5, 8);
    reads_keep_room(b.after(5), 3, 3);
}

/// The response of a filter stays small.
proof fn edge_bound(lpc: Seq<i16>, n: nat)
    requires
        n <= 8,
    ensures
        -0x9_0000 <= band_edge(lpc, n) <= 0x9_0000,
        LPC_SCALING - 65535 * n <= band_edge(lpc, n) <= LPC_SCALING + 65535 * n,
    decreases n,
{
    if n > 0 {
        edge_bound(lpc, (n - 1) as nat);
    }
}

/// The gain of a high-band subframe.
fn subframe_gain(low_edge: i32, lpc: &[i16], qgc: u32, low_level: i32) -> (r: i32)
    requires
        lpc@.len() == 8,
    ensures
        r == high_gain(
            low_edge as int,
            band_edge(lpc@, 4) as int,
            qgc as int,
            low_level as int,
        ),
{
    let rh: i32 = edge_response(lpc, 4);
    proof {
        edge_bound(lpc@, 4);
        super::fixed::wrap32_congruent(low_edge + 82);
        let k = choose|k: int| low_edge + 82 - wrap32(low_edge + 82) == #[trigger] (k * 0x1_0000_0000);
        super::fixed::wrap32_shift(wrap32(low_edge + 82) * 4, k * 4);
    }
    let ratio: i16 = pdiv32_16(lsl32(add32(low_edge, 82), 2), asr32(82 + rh, 5));
    let ladder_steps: [i16; 16] = GC_QUANT_BOUND;
    let gc: i16 = low16(mult16_32_q15(GC_FACTOR, ladder_steps[(qgc % 16) as usize] as i32));
    let q: i16 = pdiv32_16(gc as i32 * 256, ratio as i32);
    lsl32(mul32(q as i32, add32(low_level, 1)), 6)
}

/// Reads one high-band subframe's excitation.
fn high_excite(voice: &Voice, ctx: u8, scale: i32, bits: &mut Bits) -> (part: Vec<i32>)
    requires
        old(bits)@.holds(20),
    ensures
        part@ == high_part(*voice, ctx, scale as int, old(bits)@),
        part@.len() == 40,
        final(bits)@ == cursor_at(sb_split_cb(), old(bits)@, 4),
        final(bits)@.wf(),
        final(bits)@.at() <= old(bits)@.at() + 20,
{
    let ghost b0 = bits@;
    let cbk: VoiceCodebook = voice.sb_codebook();
    let par: SplitCbParams = sb_split_cb();
    assert(par.nb_subvect * par.subvect_size == 40) by (nonlinear_arith)
        requires
            par.nb_subvect == 4,
            par.subvect_size == 10,
    ;
    let mut innov: Vec<i32> = vec![0i32; NB_SUBFRAME];
    assert(innov@ =~= zeros32(40));
    super::innov::unquant(&cbk, ctx, &par, bits, innov.as_mut_slice());
    let mut part: Vec<i32> = vec![0i32; NB_SUBFRAME];
    signal_mul(innov.as_slice(), part.as_mut_slice(), scale, NB_SUBFRAME as i32);
    assert(part@ =~= high_part(*voice, ctx, scale as int, b0));
    proof {
        indices_read(par, b0, 4);
    }
    part
}

/// Samples scaled to Q14.
fn in_q14(low: &[i16]) -> (r: Vec<i32>)
    ensures
        r@ == low@.map_values(|v: i16| (v * 0x4000) as i32),
{
    let mut r: Vec<i32> = Vec::new();
    let mut i: usize = 0;
    while i < low.len()
        invariant
            i <= low@.len(),
            r@.len() == i,
            forall|k: int| 0 <= k < i ==> r@[k] == low@[k] * 0x4000,
        decreases low@.len() - i,
    {
        r.push(low[i] as i32 * 0x4000);
        i = i + 1;
    }
    assert(r@ =~= low@.map_values(|v: i16| (v * 0x4000) as i32));
    r
}

/// Reads the wideband pairs.
fn read_sb_pairs(voice: &Voice, ctx: u8, bits: &mut Bits) -> (lsp: Vec<i16>)
    requires
        old(bits)@.holds(8),
    ensures
        lsp@ == sb_pairs(*voice, ctx, old(bits)@),
        lsp@.len() == 8,
        final(bits)@ == stage_cursor(voice.sb_stages(), old(bits)@, 2),
        final(bits)@.wf(),
        final(bits)@.at() <= old(bits)@.at() + 8,
{
    let mut lsp: Vec<i16> = vec![0i16; SB_ORDER];
    assert(lsp@ =~= zeros16(8));
    let stages: [LspStage; 2] = [
        LspStage::first(voice.sb_lsp[0], 5, SB_ORDER),
        LspStage::split(voice.sb_lsp[1], 3, SB_ORDER, 0),
    ];
    proof {
        assert(stages@ =~= voice.sb_stages());
        sb_stage_reads(*voice, bits@);
    }
    super::lsp::unquant(
        lsp.as_mut_slice(),
        SB_ORDER,
        SB_SPACING,
        super::lsp::BASE_SB,
        stages.as_slice(),
        ctx,
        bits,
    );
    lsp
}

/// Copies a filtered subframe into the high band.
fn place32(out: &mut Vec<i32>, at: usize, sub: &[i32])
    requires
        at + sub@.len() <= old(out)@.len(),
    ensures
        final(out)@ == old(out)@.map(
            |i: int, v: i32|
                if at <= i < at + sub@.len() {
                    sub@[i - at]
                } else {
                    v
                },
        ),
{
    let ghost o0 = out@;
    let len: usize = out.len();
    let mut i: usize = 0;
    while i < sub.len()
        invariant
            i <= sub@.len(),
            at + sub@.len() <= o0.len() == len,
            out@.len() == o0.len(),
            forall|k: int| at <= k < at + i ==> out@[k] == sub@[k - at],
            forall|k: int| 0 <= k < at || at + i <= k < o0.len() ==> out@[k] == o0[k],
        decreases sub@.len() - i,
    {
        out.set(at + i, sub[i]);
        i = i + 1;
    }
    assert(out@ =~= o0.map(
        |i: int, v: i32|
            if at <= i < at + sub@.len() {
                sub@[i - at]
            } else {
                v
            },
    ));
}

/// The filter's memory keeps its length.
proof fn history32_len(x: Seq<i32>, den: Seq<i16>, mem: Seq<i32>, ord: int, i: nat)
    ensures
        iir32_history(x, den, mem, ord, i).len() == mem.len(),
    decreases i,
{
    if i > 0 {
        history32_len(x, den, mem, ord, (i - 1) as nat);
    }
}

impl SbDecoder {
    /// A decoder that has decoded nothing.
    pub fn new() -> (r: Self)
        ensures
            r@ == SbState::fresh(),
            r@.wf(),
    {
        let r = SbDecoder {
            low: NbDecoder::new(),
            g0_mem: vec![0i32; QMF_ORDER],
            g1_mem: vec![0i32; QMF_ORDER],
            exc_buf: vec![0i32; NB_SUBFRAME],
            old_qlsp: vec![0i16; SB_ORDER],
            interp_qlpc: vec![0i16; SB_ORDER],
            mem_sp: vec![0i32; 16],
            first: true,
        };
        assert(r@.g0 =~= zeros32(64));
        assert(r@.g1 =~= zeros32(64));
        assert(r@.exc =~= zeros32(40));
        assert(r@.lsp =~= zeros16(8));
        assert(r@.lpc =~= zeros16(8));
        assert(r@.mem =~= zeros32(16));
        r
    }

    /// Reads and filters the high band's subframes.
    fn high_band(
        &mut self,
        voice: &Voice,
        ctx: u8,
        bits: &mut Bits,
        lsp: &[i16],
        Ghost(f): Ghost<SbFrame>,
    ) -> (high: Vec<i32>)
        requires
            old(self)@.wf(),
            old(self)@.low.exc == f.low.exc,
            old(self)@.low.pi_gain == Seq::new(4, |s: int| band_edge(f.low.lpc_at(s), 5)),
            old(self)@.lsp == f.old_lsp,
            old(self)@.lpc == f.lpc,
            old(self)@.mem == f.mem,
            old(self)@.exc == f.carried,
            lsp@ == f.new_lsp,
            lsp@.len() == 8,
            old(bits)@.holds(96),
            f.parts == Seq::new(
                4,
                |s: int|
                    high_part(
                        *voice,
                        ctx,
                        high_scale(
                            f.low,
                            f.lpc_at(s),
                            sb_cursor(old(bits)@, s as nat),
                            s,
                        ) as int,
                        sb_cursor(old(bits)@, s as nat).after(4),
                    ),
            ),
        ensures
            high@ == f.high_signal(),
            final(self)@ == (SbState {
                exc: f.feed(4),
                lpc: f.lpc_at(4),
                mem: f.mem_at(4),
                ..old(self)@
            }),
            final(self)@.wf(),
            final(bits)@ == sb_cursor(old(bits)@, 4),
            final(bits)@.wf(),
            final(bits)@.at() <= old(bits)@.at() + 96,
    {
        let ghost st = self@;
        let ghost b0 = bits@;
        let mut high: Vec<i32> = vec![0i32; NB_FRAME];
        let mut sub: usize = 0;
        while sub < SUBFRAMES
            invariant
                sub <= 4,
                st.wf(),
                self@ == (SbState { exc: self@.exc, lpc: self@.lpc, mem: self@.mem, ..st }),
                self@.wf(),
                st.low.exc == f.low.exc,
                st.low.pi_gain == Seq::new(4, |s: int| band_edge(f.low.lpc_at(s), 5)),
                st.lsp == f.old_lsp,
                lsp@ == f.new_lsp,
                lsp@.len() == 8,
                self@.exc == f.feed(sub as int),
                self@.lpc == f.lpc_at(sub as int),
                self@.mem == f.mem_at(sub as nat),
                b0.holds(96),
                bits@.wf(),
                bits@.at() <= b0.at() + 24 * sub,
                bits@ == sb_cursor(b0, sub as nat),
                f.parts == Seq::new(
                    4,
                    |s: int|
                        high_part(
                            *voice,
                            ctx,
                            high_scale(f.low, f.lpc_at(s), sb_cursor(b0, s as nat), s) as int,
                            sb_cursor(b0, s as nat).after(4),
                        ),
                ),
                high@.len() == 160,
                forall|i: int| 0 <= i < 40 * sub ==> #[trigger] high@[i] == f.high(i),
            decreases 4 - sub,
        {
            let ak: Vec<i16> = subframe_filter(self.old_qlsp.as_slice(), lsp, SB_ORDER, 410, sub);
            proof {
                reads_keep_room(bits@, 4, 24);
            }
            let qgc: u32 = bits.unpack(4);
            let low_exc: &[i16] = self.low.excitation();
            let from_here: &[i16] = vstd::slice::slice_subrange(low_exc, NB_SUBFRAME * sub, NB_FRAME);
            let el: i32 = compute_rms16(from_here, NB_SUBFRAME);
            let scale: i32 = subframe_gain(
                self.low.pi_gain[sub],
                self.interp_qlpc.as_slice(),
                qgc,
                el,
            );
            assert(scale == high_scale(
                f.low,
                f.lpc_at(sub as int),
                sb_cursor(b0, sub as nat),
                sub as int,
            ));
            let part: Vec<i32> = high_excite(voice, ctx, scale, bits);
            assert(part@ == f.parts[sub as int]);
            let mut filtered: Vec<i32> = vec![0i32; NB_SUBFRAME];
            let ghost m0 = self.mem_sp@;
            iir32(
                self.exc_buf.as_slice(),
                self.interp_qlpc.as_slice(),
                NB_SUBFRAME as i32,
                SB_ORDER as i32,
                filtered.as_mut_slice(),
                self.mem_sp.as_mut_slice(),
            );
            place32(&mut high, NB_SUBFRAME * sub, filtered.as_slice());
            proof {
                assert forall|i: int| 40 * sub <= i < 40 * sub + 40 implies #[trigger] high@[i] == f.high(
                    i,
                ) by {
                    assert(i / 40 == sub);
                    assert(i % 40 == i - 40 * sub);
                    assert(high@[i] == filtered@[i - 40 * sub]);
                }
                assert(self.mem_sp@ == f.mem_at((sub + 1) as nat));
                history32_len(
                    f.feed(sub as int),
                    f.lpc_at(sub as int),
                    halved(m0, 8),
                    8,
                    40,
                );
            }
            self.exc_buf = part;
            self.interp_qlpc = ak;
            sub = sub + 1;
        }
        assert(high@ =~= f.high_signal());
        high
    }

    /// Joins the two bands into `out`.
    fn join(&mut self, low: &[i32], high: &[i32], out: &mut [i16])
        requires
            old(self)@.wf(),
            low@.len() == 160,
            high@.len() == 160,
            old(out)@.len() >= 320,
        ensures
            final(self)@ == (SbState {
                g0: fir_history(low@, old(self)@.g0, 320, 64),
                g1: fir_history(high@, old(self)@.g1, 320, 64),
                ..old(self)@
            }),
            final(self)@.wf(),
            final(out)@.len() == old(out)@.len(),
            forall|o: int|
                0 <= o < old(out)@.len() ==> #[trigger] final(out)@[o] == if o < 320 {
                    combined(
                        fir_output(
                            fir_scratch(low@, old(self)@.g0, 320, 64),
                            fir_taps(low_taps(), 64),
                            320,
                            64,
                            o,
                        ) as int,
                        fir_output(
                            fir_scratch(high@, old(self)@.g1, 320, 64),
                            fir_taps(high_taps(), 64),
                            320,
                            64,
                            o,
                        ) as int,
                    )
                } else {
                    old(out)@[o] as int
                },
    {
        let ghost st = self@;
        let ghost o0 = out@;
        let h0: [i16; 64] = low_table();
        let h1: [i16; 64] = high_table();
        let mut y0: Vec<i32> = vec![0i32; FULL_FRAME];
        let mut y1: Vec<i32> = vec![0i32; FULL_FRAME];
        fir2x_run(
            low,
            h0.as_slice(),
            y0.as_mut_slice(),
            FULL_FRAME as i32,
            QMF_ORDER as i32,
            self.g0_mem.as_mut_slice(),
        );
        fir2x_run(
            high,
            h1.as_slice(),
            y1.as_mut_slice(),
            FULL_FRAME as i32,
            QMF_ORDER as i32,
            self.g1_mem.as_mut_slice(),
        );
        let mut i: usize = 0;
        while i < FULL_FRAME
            invariant
                i <= 320,
                y0@.len() == 320,
                y1@.len() == 320,
                out@.len() == o0.len() >= 320,
                forall|k: int| 0 <= k < i ==> out@[k] == combined(y0@[k] as int, y1@[k] as int),
                forall|k: int| i <= k < o0.len() ==> out@[k] == o0[k],
            decreases 320 - i,
        {
            out[i] = qmf_combine(y0[i], y1[i]);
            i = i + 1;
        }
    }

    /// Decodes one coded frame into the first [`FULL_FRAME`] samples of `out`.
    ///
    /// `frame` is the frame's index in the bank; it selects the codebook
    /// context of both bands.
    #[verifier::rlimit(60)]
    pub fn decode(
        &mut self,
        voice: &Voice,
        frame: usize,
        bits: &mut Bits,
        out: &mut [i16],
    ) -> (r: Result<(), DecodeError>)
        requires
            old(self)@.wf(),
            old(bits)@.holds(384),
        ensures
            final(self)@.wf(),
            final(out)@.len() == old(out)@.len(),
            old(out)@.len() < 320 ==> {
                &&& r == Err::<(), DecodeError>(DecodeError::BadOutputLen(old(out)@.len() as usize))
                &&& final(self)@ == old(self)@
                &&& final(bits)@ == old(bits)@
            },
            old(out)@.len() >= 320 && frame >= voice.ctx@.len() ==> {
                &&& r == Err::<(), DecodeError>(DecodeError::NoContext(frame))
                &&& final(self)@ == old(self)@
                &&& final(bits)@ == old(bits)@
            },
            old(out)@.len() >= 320 && frame < voice.ctx@.len() ==> {
                let f = old(self)@.frame(*voice, voice.ctx@[frame as int], old(bits)@);
                let low_end = past_nb_frame(*voice, old(bits)@);
                let end = past_frame(*voice, old(bits)@);
                &&& low_end.overflow != 0 ==> {
                    &&& r == Err::<(), DecodeError>(DecodeError::Truncated)
                    &&& final(self)@ == old(self)@.after_low_truncated(f)
                    &&& final(bits)@ == low_end
                }
                &&& low_end.overflow == 0 && end.overflow != 0 ==> {
                    &&& r == Err::<(), DecodeError>(DecodeError::Truncated)
                    &&& final(self)@ == old(self)@.after_truncated(f)
                    &&& final(bits)@ == end
                }
                &&& low_end.overflow == 0 && end.overflow == 0 ==> {
                    &&& r == Ok::<(), DecodeError>(())
                    &&& final(self)@ == old(self)@.after(f)
                    &&& final(bits)@ == end
                    &&& forall|o: int|
                        0 <= o < old(out)@.len() ==> #[trigger] final(out)@[o] == if o < 320 {
                            old(self)@.sample(f, o)
                        } else {
                            old(out)@[o] as int
                        }
                }
            },
            r is Err ==> final(out)@ == old(out)@,
    {
        if out.len() < FULL_FRAME {
            return Err(DecodeError::BadOutputLen(out.len()));
        }
        let ctx: u8 = match voice.context(frame) {
            Ok(c) => c,
            Err(e) => {
                return Err(e);
            },
        };
        let ghost st = self@;
        let ghost b0 = bits@;
        let ghost f = st.frame(*voice, ctx, b0);
        proof {
            reveal(SbState::frame);
            reveal(SbState::after);
            reveal(SbState::after_low_truncated);
            reveal(SbState::after_truncated);
            reveal(SbState::sample);
        }
        let mut low: Vec<i16> = vec![0i16; NB_FRAME];
        match self.low.decode(voice, frame, bits, low.as_mut_slice()) {
            Ok(()) => {},
            Err(e) => {
                return Err(e);
            },
        }
        let x0d: Vec<i32> = in_q14(low.as_slice());
        assert(x0d@ =~= f.low_signal());
        let lsp: Vec<i16> = read_sb_pairs(voice, ctx, bits);
        if self.first {
            self.old_qlsp = copy16(lsp.as_slice());
        }
        assert(self@.low.pi_gain =~= Seq::new(4, |s: int| band_edge(f.low.lpc_at(s), 5)));
        assert(f.parts =~= Seq::new(
            4,
            |s: int|
                high_part(
                    *voice,
                    ctx,
                    high_scale(f.low, f.lpc_at(s), sb_cursor(bits@, s as nat), s) as int,
                    sb_cursor(bits@, s as nat).after(4),
                ),
        ));
        let high: Vec<i32> = self.high_band(voice, ctx, bits, lsp.as_slice(), Ghost(f));
        assert(bits@ == past_frame(*voice, b0));
        if bits.overflowed() {
            return Err(DecodeError::Truncated);
        }
        self.join(x0d.as_slice(), high.as_slice(), out);
        self.old_qlsp = lsp;
        self.first = false;
        Ok(())
    }
}

impl Default for SbDecoder {
    fn default() -> (r: Self)
        ensures
            r@ == SbState::fresh(),
    {
        SbDecoder::new()
    }
}

/// Whatever a frame holds, the state it leaves has its lengths.
pub proof fn frames_keep_lengths(st: SbState, voice: Voice, ctx: u8, b: Cursor)
    requires
        st.wf(),
    ensures
        ({
            let f = st.frame(voice, ctx, b);
            st.after(f).wf() && st.after_truncated(f).wf() && st.after_low_truncated(f).wf()
        }),
{
    reveal(SbState::frame);
    reveal(SbState::after);
    reveal(SbState::after_low_truncated);
    reveal(SbState::after_truncated);
    let f = st.frame(voice, ctx, b);
    nb_lengths(st.low, voice, ctx, b);
    pairs_len(zeros16(8), voice.sb_stages(), ctx, past_nb_frame(voice, b), 8, 2560, 0x1800, 2);
    sb_mem_len(f, 4);
}

proof fn sb_mem_len(f: SbFrame, sub: nat)
    ensures
        f.mem_at(sub).len() == f.mem.len(),
    decreases sub,
{
    if sub > 0 {
        let s = (sub - 1) as nat;
        sb_mem_len(f, s);
        history32_len(f.feed(s as int), f.lpc_at(s as int), halved(f.mem_at(s), 8), 8, 40);
    }
}

proof fn nb_mem_len(f: NbFrame, sub: nat)
    ensures
        f.mem_at(sub).len() == f.mem.len(),
    decreases sub,
{
    if sub > 0 {
        let s = (sub - 1) as nat;
        nb_mem_len(f, s);
        history16_len(lagged_exc(f.exc, s as int), f.lpc_at(s as int), f.mem_at(s), 10, 40);
    }
}

proof fn nb_lengths(st: NbState, voice: Voice, ctx: u8, b: Cursor)
    requires
        st.wf(),
    ensures
        ({
            let f = st.frame(voice, ctx, b);
            st.after(f).wf() && st.after_truncated(f).wf()
        }),
{
    let f = st.frame(voice, ctx, b);
    pairs_len(zeros16(10), voice.nb_stages(), ctx, b, 10, 2048, 0x800, 3);
    nb_mem_len(f, 4);
    excited_len(voice, ctx, frame_gain(voice, b), slid(st.exc), nb_header(voice, b), 4);
}

proof fn excited_len(voice: Voice, ctx: u8, gain: int, exc: Seq<i16>, b: Cursor, n: nat)
    ensures
        excited(voice, ctx, gain, exc, b, n).len() == exc.len(),
    decreases n,
{
    if n > 0 {
        excited_len(voice, ctx, gain, exc, b, (n - 1) as nat);
    }
}

proof fn pairs_len(
    lsp: Seq<i16>,
    stages: Seq<LspStage>,
    selector: u8,
    b: Cursor,
    order: int,
    spacing: int,
    base: int,
    k: nat,
)
    ensures
        staged(ladder(lsp, order, spacing, base), stages, selector, b, k).len() == lsp.len(),
    decreases k,
{
    if k > 0 {
        let j = (k - 1) as nat;
        pairs_len(lsp, stages, selector, b, order, spacing, base, j);
        let id = stage_cursor(stages, b, j).value(width(stages[j as int].nbits));
        refined_len(
            staged(ladder(lsp, order, spacing, base), stages, selector, b, j),
            stages[j as int],
            selector,
            id,
            stages[j as int].count as nat,
        );
    }
}

proof fn refined_len(lsp: Seq<i16>, st: LspStage, selector: u8, id: u32, n: nat)
    ensures
        super::lsp::refined(lsp, st, selector, id, n).len() == lsp.len(),
    decreases n,
{
    if n > 0 {
        refined_len(lsp, st, selector, id, (n - 1) as nat);
    }
}

/// `e` is where a cursor stands that was at `b` and has read `n` bits: it has
/// moved by exactly `n` where they fit, and is latched where they do not.
pub open spec fn has_read(b: Cursor, e: Cursor, n: int) -> bool {
    &&& e.wf()
    &&& e.at() <= b.at() + n
    &&& e.nb_bits == b.nb_bits
    &&& (e.overflow == 0) == (b.overflow == 0 && b.at() + n <= b.nb_bits)
    &&& e.overflow == 0 ==> e.at() == b.at() + n
}

/// No test for the end wraps over the next `total` bits, read at most seven at
/// a time: the end is known to be passed, or the position stays in its type, or
/// the end comes before the type's own.
pub open spec fn unwrapped(b: Cursor, total: int) -> bool {
    &&& b.wf()
    &&& {
        ||| b.overflow != 0
        ||| b.at() + total <= i32::MAX
        ||| b.at() <= b.nb_bits <= i32::MAX - 7
    }
}

proof fn one_read(b: Cursor, n: int, left: int)
    requires
        unwrapped(b, left),
        0 < n <= left,
        n <= 7,
    ensures
        has_read(b, b.after(n), n),
        unwrapped(b.after(n), left - n),
{
}

proof fn two_reads(b: Cursor, c: Cursor, e: Cursor, n: int, m: int)
    requires
        0 <= n,
        0 <= m,
        has_read(b, c, n),
        has_read(c, e, m),
    ensures
        has_read(b, e, n + m),
{
}

/// A read after others adds its width to theirs.
proof fn next_read(b: Cursor, c: Cursor, n: int, m: int, left: int)
    requires
        unwrapped(b, left),
        has_read(b, c, n),
        0 <= n,
        0 < m <= 7,
        n + m <= left,
    ensures
        has_read(b, c.after(m), n + m),
{
    assert(unwrapped(c, left - n));
    one_read(c, m, left - n);
    two_reads(b, c, c.after(m), n, m);
}

#[verifier::spinoff_prover]
proof fn index_reads(par: SplitCbParams, b: Cursor, n: nat, left: int)
    requires
        !par.have_sign,
        0 < par.shape_bits <= 7,
        n >= 1,
        unwrapped(b, left),
        n * par.shape_bits <= left,
    ensures
        has_read(b, cursor_at(par, b, n), n * par.shape_bits),
    decreases n,
{
    let w = par.shape_bits as int;
    if n == 1 {
        reveal_with_fuel(cursor_at, 2);
        assert(n * w == w) by (nonlinear_arith)
            requires
                n == 1,
        ;
        one_read(b, w, left);
    } else {
        let m = (n - 1) as nat;
        assert(n * w == m * w + w && m * w >= 0) by (nonlinear_arith)
            requires
                n == m + 1,
                w > 0,
        ;
        index_reads(par, b, m, left);
        let c = cursor_at(par, b, m);
        assert(cursor_at(par, b, n) == c.after(w));
        next_read(b, c, m * w, w, left);
    }
}

/// Four reads in a row read their widths together.
proof fn four_reads(b: Cursor, k: int, l: int, m: int, n: int, left: int)
    requires
        unwrapped(b, left),
        0 < k <= 7,
        0 < l <= 7,
        0 < m <= 7,
        0 < n <= 7,
        k + l + m + n <= left,
    ensures
        has_read(b, b.after(k).after(l).after(m).after(n), k + l + m + n),
        unwrapped(b.after(k).after(l).after(m).after(n), left - k - l - m - n),
{
    let c = b.after(k);
    let d = c.after(l);
    let e = d.after(m);
    assert(has_read(b, c, k) && unwrapped(c, left - k)) by {
        one_read(b, k, left);
    }
    assert(has_read(b, d, k + l) && unwrapped(d, left - k - l)) by {
        one_read(c, l, left - k);
        two_reads(b, c, d, k, l);
    }
    assert(has_read(b, e, k + l + m) && unwrapped(e, left - k - l - m)) by {
        one_read(d, m, left - k - l);
        two_reads(b, d, e, k + l, m);
    }
    one_read(e, n, left - k - l - m);
    two_reads(b, e, e.after(n), k + l + m, n);
}

proof fn nb_header_reads(voice: Voice, b: Cursor)
    requires
        unwrapped(b, 280),
    ensures
        has_read(b, nb_header(voice, b), 20),
        unwrapped(nb_header(voice, b), 260),
{
    four_reads(b, 7, 4, 4, 5, 280);
    nb_stage_cursors(voice, b);
}

/// Where the narrowband stages leave the cursor.
pub(crate) proof fn nb_stage_cursors(voice: Voice, b: Cursor)
    ensures
        stage_cursor(voice.nb_stages(), b, 3) == b.after(7).after(4).after(4),
{
    let st = voice.nb_stages();
    assert(width(st[0].nbits) == 7 && width(st[1].nbits) == 4 && width(st[2].nbits) == 4);
    reveal_with_fuel(stage_cursor, 4);
}

/// Where the wideband stages leave the cursor.
pub(crate) proof fn sb_stage_cursors(voice: Voice, b: Cursor)
    ensures
        stage_cursor(voice.sb_stages(), b, 2) == b.after(5).after(3),
{
    let st = voice.sb_stages();
    assert(width(st[0].nbits) == 5 && width(st[1].nbits) == 3);
    reveal_with_fuel(stage_cursor, 3);
}

/// A narrowband frame is 280 bits, wherever no test for the end wraps.
pub proof fn nb_frame_is_280_bits(voice: Voice, b: Cursor)
    requires
        unwrapped(b, 280),
    ensures
        has_read(b, past_nb_frame(voice, b), 280),
{
    let h = nb_header(voice, b);
    nb_header_reads(voice, b);
    nb_subframe_reads(h, 4);
    two_reads(b, h, past_nb_frame(voice, b), 20, 260);
}

proof fn nb_subframe_reads(b: Cursor, n: nat)
    requires
        unwrapped(b, (65 * n) as int),
        n >= 1,
    ensures
        has_read(b, nb_cursor(b, n), (65 * n) as int),
    decreases n,
{
    let c = nb_cursor(b, (n - 1) as nat);
    if n > 1 {
        nb_subframe_reads(b, (n - 1) as nat);
    }
    one_read(c, 7, 65);
    let d1 = c.after(7);
    one_read(d1, 7, 58);
    let d2 = d1.after(7);
    one_read(d2, 3, 51);
    let d3 = d2.after(3);
    index_reads(nb_split_cb(), d3, 8, 48);
    two_reads(c, d1, d2, 7, 7);
    two_reads(c, d2, d3, 14, 3);
    two_reads(c, d3, past_subframe(c), 17, 48);
    if n > 1 {
        two_reads(b, c, nb_cursor(b, n), 65 * (n - 1), 65);
    }
}

proof fn sb_subframe_reads(b: Cursor, n: nat)
    requires
        unwrapped(b, (24 * n) as int),
        n >= 1,
    ensures
        has_read(b, sb_cursor(b, n), (24 * n) as int),
    decreases n,
{
    let c = sb_cursor(b, (n - 1) as nat);
    if n > 1 {
        sb_subframe_reads(b, (n - 1) as nat);
    }
    one_read(c, 4, 24);
    let d = c.after(4);
    index_reads(sb_split_cb(), d, 4, 20);
    two_reads(c, d, sb_cursor(b, n), 4, 20);
    if n > 1 {
        two_reads(b, c, sb_cursor(b, n), 24 * (n - 1), 24);
    }
}

/// A whole frame is 384 bits, forty-eight bytes, wherever no test for the end
/// wraps: decoding one moves the cursor by exactly that where they are there,
/// and reports truncation exactly where they are not.
pub proof fn frame_is_384_bits(voice: Voice, b: Cursor)
    requires
        unwrapped(b, 384),
    ensures
        has_read(b, past_frame(voice, b), 384),
{
    nb_frame_is_280_bits(voice, b);
    let c = past_nb_frame(voice, b);
    let c2 = c.after(5).after(3);
    assert(has_read(b, c2, 288) && unwrapped(c2, 96)) by {
        let c1 = c.after(5);
        one_read(c, 5, 104);
        one_read(c1, 3, 99);
        two_reads(b, c, c1, 280, 5);
        two_reads(b, c1, c2, 285, 3);
    }
    sb_stage_cursors(voice, c);
    sb_subframe_reads(c2, 4);
    two_reads(b, c2, past_frame(voice, b), 288, 96);
}

} // verus!

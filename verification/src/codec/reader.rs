//! Random access into a bank, and the rendering of unit lists.
//!
//! The decoder decodes a frame given all the frames before it; a caller asks
//! for a range of samples. A reader keeps two decoded frames. One that is
//! neither of them nor the next is reached by starting the decoder afresh a
//! few frames early, so when a seek happens is part of what comes out.
use vstd::prelude::*;
use super::bits::{Bits, Cursor};
use super::decoder::{past_frame, past_nb_frame, DecodeError, SbDecoder, SbState, Voice, FULL_FRAME};
use super::driver::{descramble, scrambled};
use super::filters::{clamped, tap16};
use super::fixed::mult16_16;
use super::math::trunc_div;
use super::window::{WINDOW_LAST, WINDOW_LEN};

verus! {

/// Frames decoded before a sought frame.
pub const PREROLL: u32 = 6;

/// Samples added to every requested start position: the codec's own delay.
pub const OUTPUT_DELAY: u64 = 170;

/// Samples of overlap either side of a join.
pub const JOIN_HALF: usize = 32;

/// One decoded frame, with the frame index it came from.
#[derive(Debug, Clone)]
pub struct Cached {
    /// The frame's index, once something has been decoded.
    pub frame: Option<u32>,
    /// The samples.
    pub pcm: Vec<i16>,
}

/// One decoded frame as mathematics.
pub struct Slot {
    /// The frame's index, once something has been decoded.
    pub frame: Option<u32>,
    /// The samples.
    pub pcm: Seq<i16>,
}

impl View for Cached {
    type V = Slot;

    open spec fn view(&self) -> Slot {
        Slot { frame: self.frame, pcm: self.pcm@ }
    }
}

impl Cached {
    /// An empty slot.
    fn new() -> (r: Self)
        ensures
            r@ == Slot::empty(),
    {
        let r = Cached { frame: None, pcm: vec![0i16; FULL_FRAME] };
        assert(r@.pcm =~= Slot::empty().pcm);
        r
    }
}

impl Slot {
    /// A slot that holds nothing yet.
    pub open spec fn empty() -> Slot {
        Slot { frame: None, pcm: Seq::new(320, |i: int| 0i16) }
    }
}

/// Where the coded frames come from.
pub trait CodedFrames {
    /// How many frames there are.
    spec fn total(&self) -> u32;

    /// The coded bytes of one frame.
    spec fn coded(&self, index: u32) -> Option<Seq<u8>>;

    /// Total frames available.
    fn frames(&self) -> (r: u32)
        ensures
            r == self.total(),
    ;

    /// The coded bytes of one frame, or `None` out of range.
    fn frame(&self, index: u32) -> (r: Option<&[u8]>)
        ensures
            match (r, self.coded(index)) {
                (Some(bytes), Some(want)) => bytes@ == want,
                (None, None) => true,
                _ => false,
            },
    ;
}

/// A flat buffer of coded frames.
pub struct FlatFrames<'a> {
    data: &'a [u8],
    frame_bytes: usize,
}

impl<'a> FlatFrames<'a> {
    /// The buffer.
    pub closed spec fn bytes(self) -> Seq<u8> {
        self.data@
    }

    /// Bytes per frame.
    pub closed spec fn stride(self) -> int {
        self.frame_bytes as int
    }

    /// Frames of `frame_bytes` bytes laid end to end.
    pub fn new(data: &'a [u8], frame_bytes: usize) -> (r: Self)
        ensures
            r.bytes() == data@,
            r.stride() == frame_bytes,
    {
        FlatFrames { data, frame_bytes }
    }
}

impl<'a> CodedFrames for FlatFrames<'a> {
    open spec fn total(&self) -> u32 {
        if self.stride() == 0 {
            0
        } else {
            (self.bytes().len() as int / self.stride() % 0x1_0000_0000) as u32
        }
    }

    open spec fn coded(&self, index: u32) -> Option<Seq<u8>> {
        if self.stride() > 0 && (index + 1) * self.stride() <= self.bytes().len() {
            Some(self.bytes().subrange(index * self.stride(), (index + 1) * self.stride()))
        } else {
            None
        }
    }

    fn frames(&self) -> (r: u32) {
        if self.frame_bytes == 0 {
            0
        } else {
            low_word(self.data.len() / self.frame_bytes)
        }
    }

    fn frame(&self, index: u32) -> (r: Option<&[u8]>) {
        if self.frame_bytes == 0 {
            return None;
        }
        proof {
            assert((index + 1) * self.stride() == index * self.stride() + self.stride())
                by (nonlinear_arith);
            assert(0 <= index * self.stride()) by (nonlinear_arith)
                requires
                    0 <= index,
                    0 <= self.stride(),
            ;
        }
        let len: usize = self.data.len();
        let at: usize = match (index as usize).checked_mul(self.frame_bytes) {
            Some(a) => a,
            None => {
                return None;
            },
        };
        if at <= len && self.frame_bytes <= len - at {
            Some(vstd::slice::slice_subrange(self.data, at, at + self.frame_bytes))
        } else {
            None
        }
    }
}

/// A frame is there exactly where its index is below the total, while the total
/// fits in its type.
pub proof fn frames_are_there_below_the_total(f: FlatFrames<'_>, index: u32)
    requires
        f.stride() > 0 ==> f.bytes().len() as int / f.stride() <= u32::MAX,
    ensures
        f.coded(index) is Some <==> index < f.total(),
        f.coded(index) is Some ==> f.coded(index)->Some_0.len() == f.stride(),
{
    let (n, s) = (f.bytes().len() as int, f.stride());
    if s > 0 {
        vstd::arithmetic::div_mod::lemma_fundamental_div_mod(n, s);
        let q = n / s;
        assert((index + 1) * s == index * s + s) by (nonlinear_arith);
        if index < q {
            assert((index + 1) * s <= s * q) by (nonlinear_arith)
                requires
                    index + 1 <= q,
                    s > 0,
            ;
            assert(0 <= index * s) by (nonlinear_arith)
                requires
                    0 <= index,
                    s > 0,
            ;
        } else {
            assert((index + 1) * s >= s * q + s) by (nonlinear_arith)
                requires
                    index >= q,
                    s > 0,
            ;
        }
    }
}

/// The low 32 bits of a machine word.
fn low_word(x: usize) -> (r: u32)
    ensures
        r == x as int % 0x1_0000_0000,
{
    let w: u64 = x as u64;
    (w % 0x1_0000_0000) as u32
}

/// A reader's state as mathematics.
pub struct ReaderState {
    /// The decoder.
    pub dec: SbState,
    /// The last frame decoded.
    pub cur: Slot,
    /// The one before it.
    pub prev: Slot,
}

impl ReaderState {
    /// Every buffer has its length.
    pub open spec fn wf(self) -> bool {
        self.dec.wf() && self.cur.pcm.len() == 320 && self.prev.pcm.len() == 320
    }

    /// A reader that has read nothing.
    pub open spec fn fresh() -> ReaderState {
        ReaderState { dec: SbState::fresh(), cur: Slot::empty(), prev: Slot::empty() }
    }

    /// The decoder started afresh, with nothing cached.
    pub open spec fn reseated(self) -> ReaderState {
        ReaderState {
            dec: SbState::fresh(),
            cur: Slot { frame: None, ..self.cur },
            prev: Slot { frame: None, ..self.prev },
        }
    }

    /// The samples of a cached frame.
    pub open spec fn cached(self, frame: u32) -> Option<Seq<i16>> {
        if self.cur.frame == Some(frame) {
            Some(self.cur.pcm)
        } else if self.prev.frame == Some(frame) {
            Some(self.prev.pcm)
        } else {
            None
        }
    }
}

/// A reader's state after a step, and the error if there was one.
pub struct Outcome {
    /// The state.
    pub state: ReaderState,
    /// Why it stopped.
    pub error: Option<DecodeError>,
}

/// Decoding one frame: the current frame becomes the previous one, and the
/// decoded frame the current.
#[verifier::opaque]
pub open spec fn advanced(
    st: ReaderState,
    voice: Voice,
    key: u8,
    coded: Option<Seq<u8>>,
    frame: u32,
) -> Outcome {
    match coded {
        None => Outcome { state: st, error: Some(DecodeError::NoContext(frame as usize)) },
        Some(bytes) => {
            let b = Cursor::start(scrambled(bytes, key));
            let f = st.dec.frame(voice, voice.ctx@[frame as int], b);
            let turned = ReaderState { dec: st.dec, cur: st.prev, prev: st.cur };
            if frame >= voice.ctx@.len() {
                Outcome { state: turned, error: Some(DecodeError::NoContext(frame as usize)) }
            } else if past_nb_frame(voice, b).overflow != 0 {
                Outcome {
                    state: ReaderState { dec: st.dec.after_low_truncated(f), ..turned },
                    error: Some(DecodeError::Truncated),
                }
            } else if past_frame(voice, b).overflow != 0 {
                Outcome {
                    state: ReaderState { dec: st.dec.after_truncated(f), ..turned },
                    error: Some(DecodeError::Truncated),
                }
            } else {
                Outcome {
                    state: ReaderState {
                        dec: st.dec.after(f),
                        cur: Slot {
                            frame: Some(frame),
                            pcm: Seq::new(320, |o: int| st.dec.sample(f, o) as i16),
                        },
                        prev: st.cur,
                    },
                    error: None,
                }
            }
        },
    }
}

/// Decoding `n` frames from `from` on, up to the first error.
pub open spec fn rolled<F: CodedFrames>(
    st: ReaderState,
    voice: Voice,
    key: u8,
    src: F,
    from: u32,
    n: nat,
) -> Outcome
    decreases n,
{
    if n == 0 {
        Outcome { state: st, error: None }
    } else {
        let o = rolled(st, voice, key, src, from, (n - 1) as nat);
        if o.error is Some {
            o
        } else {
            let frame = (from + n - 1) as u32;
            advanced(o.state, voice, key, src.coded(frame), frame)
        }
    }
}

/// The first frame decoded when seeking to `frame`.
pub open spec fn preroll_start(frame: u32) -> u32 {
    if frame < PREROLL {
        0
    } else {
        (frame - PREROLL) as u32
    }
}

/// Making a frame available: at once where it is cached, by one step where it
/// is the next, and by a seek otherwise.
#[verifier::opaque]
pub open spec fn reached<F: CodedFrames>(
    st: ReaderState,
    voice: Voice,
    key: u8,
    src: F,
    frame: u32,
) -> Outcome {
    if st.cur.frame == Some(frame) || st.prev.frame == Some(frame) {
        Outcome { state: st, error: None }
    } else if frame > 0 && st.cur.frame == Some((frame - 1) as u32) {
        advanced(st, voice, key, src.coded(frame), frame)
    } else {
        let start = preroll_start(frame);
        rolled(st.reseated(), voice, key, src, start, (frame - start + 1) as nat)
    }
}

/// What a read has produced, and where the reader stands.
pub struct Reading {
    /// The reader.
    pub state: ReaderState,
    /// The samples.
    pub out: Seq<i16>,
    /// Why it stopped.
    pub error: Option<DecodeError>,
}

/// The frame that holds sample `at`.
pub open spec fn frame_of(at: int) -> u32 {
    (at / 320 % 0x1_0000_0000) as u32
}

/// How many of `left` samples the frame that holds `at` can give.
pub open spec fn share(at: int, left: int) -> int {
    if 320 - at % 320 < left {
        320 - at % 320
    } else {
        left
    }
}

/// Reading `left` samples from `at` on, frame by frame, onto `out`.
pub open spec fn reading<F: CodedFrames>(
    st: ReaderState,
    voice: Voice,
    key: u8,
    src: F,
    at: int,
    left: nat,
    out: Seq<i16>,
) -> Reading
    decreases left,
{
    if left == 0 {
        Reading { state: st, out, error: None }
    } else {
        let frame = frame_of(at);
        let o = reached(st, voice, key, src, frame);
        if o.error is Some {
            Reading { state: o.state, out, error: o.error }
        } else {
            let pcm = o.state.cached(frame)->Some_0;
            let within = at % 320;
            let take = share(at, left as int);
            reading(
                o.state,
                voice,
                key,
                src,
                at + take,
                (left - take) as nat,
                out + pcm.subrange(within, within + take),
            )
        }
    }
}

/// Where a read of position `pos` starts in the decoder's output.
pub open spec fn delayed(pos: int) -> int {
    (pos + OUTPUT_DELAY) % 0x1_0000_0000_0000_0000
}

/// A range whose last sample has a position.
pub open spec fn readable(pos: int, count: int) -> bool {
    delayed(pos) + count <= u64::MAX
}

/// Reads arbitrary sample ranges out of a bank.
pub struct BankReader<'v> {
    /// The voice's codebooks.
    pub voice: Voice<'v>,
    /// The decoder.
    pub dec: SbDecoder,
    /// The last frame decoded.
    pub cur: Cached,
    /// The one before it.
    pub prev: Cached,
    /// The scrambling key.
    pub key: u8,
}

impl<'v> View for BankReader<'v> {
    type V = ReaderState;

    open spec fn view(&self) -> ReaderState {
        ReaderState { dec: self.dec@, cur: self.cur@, prev: self.prev@ }
    }
}

impl<'v> BankReader<'v> {
    /// The voice and the key are the same.
    pub open spec fn same_bank(self, other: Self) -> bool {
        self.voice == other.voice && self.key == other.key
    }

    /// A reader that has read nothing.
    pub fn new(voice: Voice<'v>, key: u8) -> (r: Self)
        ensures
            r@ == ReaderState::fresh(),
            r@.wf(),
            r.voice == voice,
            r.key == key,
    {
        BankReader { voice, dec: SbDecoder::new(), cur: Cached::new(), prev: Cached::new(), key }
    }

    /// Starts the decoder afresh.
    fn reseat(&mut self)
        requires
            old(self)@.wf(),
        ensures
            final(self)@ == old(self)@.reseated(),
            final(self)@.wf(),
            final(self).same_bank(*old(self)),
    {
        self.dec = SbDecoder::new();
        self.cur.frame = None;
        self.prev.frame = None;
    }

    /// Decodes one frame.
    fn advance<F: CodedFrames>(&mut self, src: &F, frame: u32) -> (r: Result<(), DecodeError>)
        requires
            old(self)@.wf(),
        ensures
            ({
                let o = advanced(
                    old(self)@,
                    old(self).voice,
                    old(self).key,
                    src.coded(frame),
                    frame,
                );
                &&& final(self)@ == o.state
                &&& r == match o.error {
                    Some(e) => Err(e),
                    None => Ok(()),
                }
            }),
            final(self)@.wf(),
            final(self).same_bank(*old(self)),
    {
        reveal(advanced);
        let coded: &[u8] = match src.frame(frame) {
            Some(c) => c,
            None => {
                return Err(DecodeError::NoContext(frame as usize));
            },
        };
        let mut buf: Vec<u8> = vstd::slice::slice_to_vec(coded);
        descramble(buf.as_mut_slice(), self.key);
        let ghost st = self@;
        std::mem::swap(&mut self.cur, &mut self.prev);
        let mut bits: Bits = Bits::new(buf.as_slice());
        let mut out: Vec<i16> = vec![0i16; FULL_FRAME];
        match self.dec.decode(&self.voice, frame as usize, &mut bits, out.as_mut_slice()) {
            Ok(()) => {},
            Err(e) => {
                return Err(e);
            },
        }
        proof {
            let f = st.dec.frame(
                self.voice,
                self.voice.ctx@[frame as int],
                Cursor::start(scrambled(coded@, self.key)),
            );
            assert(out@ =~= Seq::new(320, |o: int| st.dec.sample(f, o) as i16));
        }
        self.cur.frame = Some(frame);
        self.cur.pcm = out;
        Ok(())
    }

    /// Makes a frame available.
    fn reach<F: CodedFrames>(&mut self, src: &F, frame: u32) -> (r: Result<(), DecodeError>)
        requires
            old(self)@.wf(),
        ensures
            ({
                let o = reached(old(self)@, old(self).voice, old(self).key, *src, frame);
                &&& final(self)@ == o.state
                &&& r == match o.error {
                    Some(e) => Err(e),
                    None => Ok(()),
                }
            }),
            r is Ok ==> final(self)@.cached(frame) is Some,
            final(self)@.wf(),
            final(self).same_bank(*old(self)),
    {
        proof {
            reveal(reached);
            advanced_is_current(self@, self.voice, self.key, src.coded(frame), frame);
        }
        if self.cur.frame == Some(frame) || self.prev.frame == Some(frame) {
            return Ok(());
        }
        if frame > 0 && self.cur.frame == Some(frame - 1) {
            return self.advance(src, frame);
        }
        self.reseat();
        let ghost st = self@;
        let start: u32 = frame.saturating_sub(PREROLL);
        let mut f: u32 = start;
        let mut n: u32 = 0;
        let count: u32 = if frame < PREROLL {
            frame + 1
        } else {
            PREROLL + 1
        };
        while n < count
            invariant
                n <= count,
                start == preroll_start(frame),
                count == frame - start + 1,
                n < count ==> f == start + n,
                self@.wf(),
                self.same_bank(*old(self)),
                rolled(st, self.voice, self.key, *src, start, n as nat) == (Outcome {
                    state: self@,
                    error: None,
                }),
                n == count ==> self@.cur.frame == Some(frame),
                reached(old(self)@, self.voice, self.key, *src, frame) == rolled(
                    st,
                    self.voice,
                    self.key,
                    *src,
                    start,
                    count as nat,
                ),
            decreases count - n,
        {
            proof {
                advanced_is_current(self@, self.voice, self.key, src.coded(f), f);
            }
            match self.advance(src, f) {
                Ok(()) => {},
                Err(e) => {
                    proof {
                        error_stops(st, self.voice, self.key, *src, start, (n + 1) as nat, count as nat);
                    }
                    return Err(e);
                },
            }
            n = n + 1;
            if n < count {
                f = f + 1;
            }
        }
        Ok(())
    }

    /// The samples of a cached frame.
    fn cached(&self, frame: u32) -> (r: Option<&[i16]>)
        ensures
            match (r, self@.cached(frame)) {
                (Some(pcm), Some(want)) => pcm@ == want,
                (None, None) => true,
                _ => false,
            },
    {
        if self.cur.frame == Some(frame) {
            Some(self.cur.pcm.as_slice())
        } else if self.prev.frame == Some(frame) {
            Some(self.prev.pcm.as_slice())
        } else {
            None
        }
    }

    /// Reads `count` samples starting at absolute sample `pos`, onto the end
    /// of `out`.
    ///
    /// On an error, `out` keeps what had been read.
    pub fn read<F: CodedFrames>(
        &mut self,
        src: &F,
        pos: u64,
        count: usize,
        out: &mut Vec<i16>,
    ) -> (r: Result<(), DecodeError>)
        requires
            old(self)@.wf(),
            readable(pos as int, count as int),
        ensures
            ({
                let o = reading(
                    old(self)@,
                    old(self).voice,
                    old(self).key,
                    *src,
                    delayed(pos as int),
                    count as nat,
                    old(out)@,
                );
                &&& final(self)@ == o.state
                &&& final(out)@ == o.out
                &&& r == match o.error {
                    Some(e) => Err(e),
                    None => Ok(()),
                }
            }),
            final(self)@.wf(),
            final(self).same_bank(*old(self)),
    {
        let mut at: u64 = pos.wrapping_add(OUTPUT_DELAY);
        let mut left: usize = count;
        let ghost whole = reading(
            self@,
            self.voice,
            self.key,
            *src,
            delayed(pos as int),
            count as nat,
            out@,
        );
        while left > 0
            invariant
                self@.wf(),
                self.same_bank(*old(self)),
                at + left <= u64::MAX,
                whole == reading(
                    old(self)@,
                    old(self).voice,
                    old(self).key,
                    *src,
                    delayed(pos as int),
                    count as nat,
                    old(out)@,
                ),
                whole == reading(self@, self.voice, self.key, *src, at as int, left as nat, out@),
            decreases left,
        {
            let frame: u32 = (at / 320 % 0x1_0000_0000) as u32;
            let within: usize = (at % 320) as usize;
            match self.reach(src, frame) {
                Ok(()) => {},
                Err(e) => {
                    return Err(e);
                },
            }
            let take: usize = if FULL_FRAME - within < left {
                FULL_FRAME - within
            } else {
                left
            };
            match self.cached(frame) {
                Some(pcm) => {
                    let part: &[i16] = vstd::slice::slice_subrange(pcm, within, within + take);
                    append(out, part);
                },
                None => {
                    return Err(DecodeError::NoContext(frame as usize));
                },
            }
            at = at + take as u64;
            left = left - take;
        }
        Ok(())
    }
}

/// Puts a run of samples at the end of a buffer.
fn append(out: &mut Vec<i16>, part: &[i16])
    ensures
        final(out)@ == old(out)@ + part@,
{
    let ghost o0 = out@;
    let mut i: usize = 0;
    while i < part.len()
        invariant
            i <= part@.len(),
            out@ == o0 + part@.subrange(0, i as int),
        decreases part@.len() - i,
    {
        out.push(part[i]);
        assert(part@.subrange(0, i + 1) =~= part@.subrange(0, i as int).push(part@[i as int]));
        i = i + 1;
    }
    assert(part@.subrange(0, part@.len() as int) =~= part@);
}

/// A roll that has met an error goes no further.
proof fn error_stops<F: CodedFrames>(
    st: ReaderState,
    voice: Voice,
    key: u8,
    src: F,
    from: u32,
    n: nat,
    m: nat,
)
    requires
        n <= m,
        rolled(st, voice, key, src, from, n).error is Some,
    ensures
        rolled(st, voice, key, src, from, m) == rolled(st, voice, key, src, from, n),
    decreases m,
{
    if n < m {
        error_stops(st, voice, key, src, from, n, (m - 1) as nat);
    }
}

/// A frame that has been decoded is the current one.
proof fn advanced_is_current(
    st: ReaderState,
    voice: Voice,
    key: u8,
    coded: Option<Seq<u8>>,
    frame: u32,
)
    ensures
        advanced(st, voice, key, coded, frame).error is None ==> advanced(
            st,
            voice,
            key,
            coded,
            frame,
        ).state.cur.frame == Some(frame),
{
    reveal(advanced);
}

/// A frame that is already cached is reached at once.
proof fn cached_is_reached<F: CodedFrames>(st: ReaderState, voice: Voice, key: u8, src: F, frame: u32)
    requires
        st.cached(frame) is Some,
    ensures
        reached(st, voice, key, src, frame) == (Outcome { state: st, error: None }),
{
    reveal(reached);
}

/// What has been reached is cached.
pub(crate) proof fn reached_is_cached<F: CodedFrames>(
    st: ReaderState,
    voice: Voice,
    key: u8,
    src: F,
    frame: u32,
)
    requires
        reached(st, voice, key, src, frame).error is None,
    ensures
        reached(st, voice, key, src, frame).state.cached(frame) is Some,
{
    let start = preroll_start(frame);
    let n = (frame - start + 1) as nat;
    reveal(reached);
    assert((start + n - 1) as u32 == frame);
    advanced_is_current(st, voice, key, src.coded(frame), frame);
    let o = rolled(st.reseated(), voice, key, src, start, (n - 1) as nat);
    advanced_is_current(o.state, voice, key, src.coded(frame), frame);
}

/// A read appends exactly the samples it was asked for.
pub proof fn reads_have_their_length<F: CodedFrames>(
    st: ReaderState,
    voice: Voice,
    key: u8,
    src: F,
    at: int,
    left: nat,
    out: Seq<i16>,
)
    requires
        st.wf(),
        reading(st, voice, key, src, at, left, out).error is None,
    ensures
        reading(st, voice, key, src, at, left, out).out.len() == out.len() + left,
        reading(st, voice, key, src, at, left, out).out.subrange(0, out.len() as int) == out,
        reading(st, voice, key, src, at, left, out).state.wf(),
    decreases left,
{
    if left > 0 {
        let frame = frame_of(at);
        let o = reached(st, voice, key, src, frame);
        reached_is_cached(st, voice, key, src, frame);
        reached_keeps_lengths(st, voice, key, src, frame);
        let pcm = o.state.cached(frame)->Some_0;
        let within = at % 320;
        let take = share(at, left as int);
        let next = out + pcm.subrange(within, within + take);
        reads_have_their_length(o.state, voice, key, src, at + take, (left - take) as nat, next);
        let r = reading(st, voice, key, src, at, left, out);
        assert(r.out.subrange(0, out.len() as int) =~= r.out.subrange(0, next.len() as int).subrange(
            0,
            out.len() as int,
        ));
        assert(next.subrange(0, out.len() as int) =~= out);
    } else {
        assert(out.subrange(0, out.len() as int) =~= out);
    }
}

/// A step keeps every buffer's length.
proof fn advanced_keeps_lengths(
    st: ReaderState,
    voice: Voice,
    key: u8,
    coded: Option<Seq<u8>>,
    frame: u32,
)
    requires
        st.wf(),
    ensures
        advanced(st, voice, key, coded, frame).state.wf(),
{
    reveal(advanced);
    if let Some(bytes) = coded {
        let b = Cursor::start(scrambled(bytes, key));
        super::decoder::frames_keep_lengths(st.dec, voice, voice.ctx@[frame as int], b);
    }
}

proof fn rolled_keeps_lengths<F: CodedFrames>(
    st: ReaderState,
    voice: Voice,
    key: u8,
    src: F,
    from: u32,
    n: nat,
)
    requires
        st.wf(),
    ensures
        rolled(st, voice, key, src, from, n).state.wf(),
    decreases n,
{
    if n > 0 {
        rolled_keeps_lengths(st, voice, key, src, from, (n - 1) as nat);
        let o = rolled(st, voice, key, src, from, (n - 1) as nat);
        let frame = (from + n - 1) as u32;
        advanced_keeps_lengths(o.state, voice, key, src.coded(frame), frame);
    }
}

pub(crate) proof fn reached_keeps_lengths<F: CodedFrames>(
    st: ReaderState,
    voice: Voice,
    key: u8,
    src: F,
    frame: u32,
)
    requires
        st.wf(),
    ensures
        reached(st, voice, key, src, frame).state.wf(),
{
    reveal(reached);
    advanced_keeps_lengths(st, voice, key, src.coded(frame), frame);
    let start = preroll_start(frame);
    fresh_has_lengths();
    rolled_keeps_lengths(st.reseated(), voice, key, src, start, (frame - start + 1) as nat);
}

proof fn fresh_has_lengths()
    ensures
        SbState::fresh().wf(),
{
}

/// Reading a range in two parts gives what reading it at once gives.
pub proof fn reads_split<F: CodedFrames>(
    st: ReaderState,
    voice: Voice,
    key: u8,
    src: F,
    at: int,
    a: nat,
    b: nat,
    out: Seq<i16>,
)
    requires
        st.wf(),
        0 <= at,
    ensures
        ({
            let first = reading(st, voice, key, src, at, a, out);
            reading(st, voice, key, src, at, a + b, out) == if first.error is Some {
                first
            } else {
                reading(first.state, voice, key, src, at + a, b, first.out)
            }
        }),
    decreases a,
{
    if a > 0 && b > 0 {
        let frame = frame_of(at);
        let o = reached(st, voice, key, src, frame);
        if o.error is None {
            reached_is_cached(st, voice, key, src, frame);
            reached_keeps_lengths(st, voice, key, src, frame);
            let pcm = o.state.cached(frame)->Some_0;
            let w = at % 320;
            let ta = share(at, a as int);
            let tab = share(at, (a + b) as int);
            if ta == tab {
                reads_split(
                    o.state,
                    voice,
                    key,
                    src,
                    at + ta,
                    (a - ta) as nat,
                    b,
                    out + pcm.subrange(w, w + ta),
                );
                assert((a + b - ta) as nat == (a - ta) as nat + b);
                assert(at + ta + (a - ta) == at + a);
            } else {
                assert(ta == a);
                assert(w + a < 320);
                let mid = out + pcm.subrange(w, w + a);
                assert(reading(o.state, voice, key, src, at + a, 0, mid) == (Reading {
                    state: o.state,
                    out: mid,
                    error: None,
                }));
                assert((at + a) % 320 == w + a && (at + a) / 320 == at / 320);
                cached_is_reached(o.state, voice, key, src, frame);
                let tb = share(at + a, b as int);
                assert(tab == a + tb);
                assert(mid + pcm.subrange(w + a, w + a + tb) =~= out + pcm.subrange(w, w + tab));
                assert(at + a + tb == at + tab);
                assert((b - tb) as nat == (a + b - tab) as nat);
            }
        }
    } else if a == 0 {
    } else {
        assert(a + b == a);
    }
}

/// One unit to render: a sample range in the bank.
#[derive(Debug, Clone, Copy, PartialEq, Eq)]
pub struct Unit {
    /// First sample.
    pub start: u64,
    /// How many.
    pub count: usize,
}

impl Unit {
    /// The samples from `from` up to `to`; none where `to` comes first.
    pub fn between(from: u64, to: u64) -> (r: Unit)
        requires
            to - from <= usize::MAX,
        ensures
            r.start == from,
            r.count == if to > from {
                to - from
            } else {
                0
            },
    {
        Unit {
            start: from,
            count: if to > from {
                (to - from) as usize
            } else {
                0
            },
        }
    }
}

/// Rendering the first `k` units end to end.
pub open spec fn rendering<F: CodedFrames>(
    st: ReaderState,
    voice: Voice,
    key: u8,
    src: F,
    units: Seq<Unit>,
    k: nat,
) -> Reading
    decreases k,
{
    if k == 0 {
        Reading { state: st, out: Seq::empty(), error: None }
    } else {
        let r = rendering(st, voice, key, src, units, (k - 1) as nat);
        if r.error is Some {
            r
        } else {
            let u = units[k - 1];
            reading(r.state, voice, key, src, delayed(u.start as int), u.count as nat, r.out)
        }
    }
}

/// Renders a unit list by plain concatenation.
pub fn render<F: CodedFrames>(reader: &mut BankReader, src: &F, units: &[Unit]) -> (r: Result<
    Vec<i16>,
    DecodeError,
>)
    requires
        old(reader)@.wf(),
        forall|i: int|
            0 <= i < units@.len() ==> #[trigger] readable(
                units@[i].start as int,
                units@[i].count as int,
            ),
    ensures
        ({
            let o = rendering(
                old(reader)@,
                old(reader).voice,
                old(reader).key,
                *src,
                units@,
                units@.len(),
            );
            &&& final(reader)@ == o.state
            &&& match r {
                Ok(out) => o.error is None && out@ == o.out,
                Err(e) => o.error == Some(e),
            }
        }),
        final(reader)@.wf(),
        final(reader).same_bank(*old(reader)),
{
    let mut out: Vec<i16> = Vec::new();
    let ghost st = reader@;
    let mut i: usize = 0;
    while i < units.len()
        invariant
            i <= units@.len(),
            reader@.wf(),
            reader.same_bank(*old(reader)),
            st == old(reader)@,
            rendering(st, reader.voice, reader.key, *src, units@, i as nat) == (Reading {
                state: reader@,
                out: out@,
                error: None,
            }),
            forall|i: int|
                0 <= i < units@.len() ==> #[trigger] readable(
                    units@[i].start as int,
                    units@[i].count as int,
                ),
        decreases units@.len() - i,
    {
        let u: Unit = units[i];
        assert(readable(units@[i as int].start as int, units@[i as int].count as int));
        match reader.read(src, u.start, u.count, &mut out) {
            Ok(()) => {},
            Err(e) => {
                proof {
                    rendering_stops(
                        st,
                        reader.voice,
                        reader.key,
                        *src,
                        units@,
                        (i + 1) as nat,
                        units@.len(),
                    );
                }
                return Err(e);
            },
        }
        i = i + 1;
    }
    Ok(out)
}

/// A rendering that has met an error goes no further.
proof fn rendering_stops<F: CodedFrames>(
    st: ReaderState,
    voice: Voice,
    key: u8,
    src: F,
    units: Seq<Unit>,
    n: nat,
    m: nat,
)
    requires
        n <= m,
        rendering(st, voice, key, src, units, n).error is Some,
    ensures
        rendering(st, voice, key, src, units, m) == rendering(st, voice, key, src, units, n),
    decreases m,
{
    if n < m {
        rendering_stops(st, voice, key, src, units, n, (m - 1) as nat);
    }
}

/// The samples of the first `k` units together.
pub open spec fn total_count(units: Seq<Unit>, k: nat) -> int
    decreases k,
{
    if k == 0 {
        0
    } else {
        total_count(units, (k - 1) as nat) + units[k - 1].count
    }
}

/// A rendering is as long as its units together.
pub proof fn renderings_have_their_length<F: CodedFrames>(
    st: ReaderState,
    voice: Voice,
    key: u8,
    src: F,
    units: Seq<Unit>,
    k: nat,
)
    requires
        st.wf(),
        k <= units.len(),
        rendering(st, voice, key, src, units, k).error is None,
    ensures
        rendering(st, voice, key, src, units, k).out.len() == total_count(units, k),
        rendering(st, voice, key, src, units, k).state.wf(),
    decreases k,
{
    if k > 0 {
        let r = rendering(st, voice, key, src, units, (k - 1) as nat);
        renderings_have_their_length(st, voice, key, src, units, (k - 1) as nat);
        let u = units[k - 1];
        reads_have_their_length(
            r.state,
            voice,
            key,
            src,
            delayed(u.start as int),
            u.count as nat,
            r.out,
        );
    }
}

/// Scales a sample by a window entry in Q15, rounding toward zero.
pub fn window_scale(sample: i16, win: i16) -> (r: i32)
    ensures
        r == trunc_div(sample * win, 0x8000),
        -0x8000 <= r <= 0x8000,
{
    let p: i32 = mult16_16(sample, win);
    if p < 0 {
        -((-p) / 0x8000)
    } else {
        p / 0x8000
    }
}

/// The smaller of a window index and the last one.
pub open spec fn in_window(i: int) -> int {
    if i < 627 {
        i
    } else {
        627
    }
}

/// Window index of the leg that fades out: it rises across `n` samples.
pub open spec fn out_index(j: int, n: int) -> int {
    if n == 0 {
        0
    } else {
        in_window(627 * j / n)
    }
}

/// Window index of the leg that fades in: it falls across `n` samples.
pub open spec fn in_index(j: int, n: int) -> int {
    if n == 0 {
        0
    } else {
        in_window(
            627 * (n - if j < n {
                j
            } else {
                n
            }) / n,
        )
    }
}

/// Window index of the leg that fades out: it rises across `n` samples.
pub fn fade_out_index(j: usize, n: usize) -> (r: usize)
    requires
        n == 0 || 627 * j <= usize::MAX,
    ensures
        r == out_index(j as int, n as int),
{
    if n == 0 {
        return 0;
    }
    let i: usize = WINDOW_LAST as usize * j / n;
    if i < WINDOW_LEN - 1 {
        i
    } else {
        WINDOW_LEN - 1
    }
}

/// Window index of the leg that fades in: it falls across `n` samples.
pub fn fade_in_index(j: usize, n: usize) -> (r: usize)
    requires
        j >= n || 627 * (n - j) <= usize::MAX,
    ensures
        r == in_index(j as int, n as int),
{
    if n == 0 {
        return 0;
    }
    let k: usize = if j < n {
        j
    } else {
        n
    };
    let i: usize = WINDOW_LAST as usize * (n - k) / n;
    if i < WINDOW_LEN - 1 {
        i
    } else {
        WINDOW_LEN - 1
    }
}

/// Both indices stay inside the window, and the two legs mirror each other:
/// the one that fades in runs through the other's indices backwards.
pub proof fn fades_mirror(j: int, n: int)
    requires
        0 < n,
        0 <= j <= n,
    ensures
        0 <= out_index(j, n) <= 627,
        0 <= in_index(j, n) <= 627,
        in_index(j, n) == out_index(n - j, n),
        out_index(0, n) == 0,
        in_index(0, n) == 627,
{
    vstd::arithmetic::div_mod::lemma_div_pos_is_pos(627 * j, n);
    vstd::arithmetic::div_mod::lemma_div_pos_is_pos(627 * (n - j), n);
    vstd::arithmetic::div_mod::lemma_div_multiples_vanish(627, n);
    vstd::arithmetic::div_mod::lemma_div_of0(n);
    assert(627 * n == n * 627) by (nonlinear_arith);
}

/// Sample `j` of a join: the two legs weighted, added and saturated.
pub open spec fn joined_sample(win: Seq<i16>, left: Seq<i16>, right: Seq<i16>, n: int, j: int) -> i16 {
    clamped(
        trunc_div(tap16(left, j) * tap16(win, out_index(j, n)), 0x8000) + trunc_div(
            tap16(right, j) * tap16(win, in_index(j, n)),
            0x8000,
        ),
        -32768,
        32767,
    ) as i16
}

/// Entry `i` of a buffer that reads as zero outside its bounds.
fn entry16(s: &[i16], i: usize) -> (r: i16)
    ensures
        r == tap16(s@, i as int),
{
    if i < s.len() {
        s[i]
    } else {
        0
    }
}

/// Overlap-adds two segments across a join of `n` samples: `left` fades out
/// while `right` fades in.
pub fn crossfade(win: &[i16], left: &[i16], right: &[i16], n: usize) -> (out: Vec<i16>)
    requires
        627 * n <= usize::MAX,
    ensures
        out@ == Seq::new(n as nat, |j: int| joined_sample(win@, left@, right@, n as int, j)),
{
    let mut out: Vec<i16> = Vec::new();
    let mut j: usize = 0;
    while j < n
        invariant
            j <= n,
            627 * n <= usize::MAX,
            out@.len() == j,
            forall|k: int| 0 <= k < j ==> out@[k] == joined_sample(win@, left@, right@, n as int, k),
        decreases n - j,
    {
        let lo: i16 = entry16(win, fade_out_index(j, n));
        let hi: i16 = entry16(win, fade_in_index(j, n));
        let a: i32 = window_scale(entry16(left, j), lo);
        let b: i32 = window_scale(entry16(right, j), hi);
        let v: i32 = a + b;
        out.push(
            if v < -32768 {
                -32768
            } else if v > 32767 {
                32767
            } else {
                v as i16
            },
        );
        j = j + 1;
    }
    assert(out@ =~= Seq::new(n as nat, |j: int| joined_sample(win@, left@, right@, n as int, j)));
    out
}

/// Whether unit `i` is joined to the next one: asked for, and both long enough.
pub open spec fn is_joined(units: Seq<Unit>, joins: Seq<bool>, i: int) -> bool {
    &&& i + 1 < units.len()
    &&& i < joins.len()
    &&& joins[i]
    &&& units[i].count >= 32
    &&& units[i + 1].count >= 32
    &&& units[i + 1].start >= 32
}

/// A rendering in progress.
pub struct Joining {
    /// The reader.
    pub state: ReaderState,
    /// The samples so far.
    pub out: Seq<i16>,
    /// The second half of a join, to lay over the next unit's head.
    pub pending: Option<Seq<i16>>,
    /// Why it stopped.
    pub error: Option<DecodeError>,
}

/// `over` laid on `out` from `at` on, as far as `out` reaches.
pub open spec fn overlaid(out: Seq<i16>, at: int, over: Seq<i16>) -> Seq<i16> {
    out.map(
        |i: int, v: i16|
            if at <= i < at + over.len() {
                over[i - at]
            } else {
                v
            },
    )
}

/// A unit's samples added, with the pending half of a join laid over them.
pub open spec fn unit_added<F: CodedFrames>(
    s: Joining,
    voice: Voice,
    key: u8,
    src: F,
    u: Unit,
) -> Joining {
    let r = reading(s.state, voice, key, src, delayed(u.start as int), u.count as nat, s.out);
    Joining {
        state: r.state,
        out: match s.pending {
            Some(p) => overlaid(r.out, s.out.len() as int, p),
            None => r.out,
        },
        pending: None,
        error: r.error,
    }
}

/// A join made between a unit just added and the next.
pub open spec fn join_made<F: CodedFrames>(
    s: Joining,
    voice: Voice,
    key: u8,
    src: F,
    u: Unit,
    next: Unit,
    win: Seq<i16>,
) -> Joining {
    let tail = s.out.len() - 32;
    let l = reading(
        s.state,
        voice,
        key,
        src,
        delayed(u.start + u.count),
        32,
        s.out.subrange(tail, s.out.len() as int),
    );
    if l.error is Some {
        Joining { state: l.state, error: l.error, ..s }
    } else {
        let r = reading(l.state, voice, key, src, delayed(next.start - 32), 64, Seq::empty());
        if r.error is Some {
            Joining { state: r.state, error: r.error, ..s }
        } else {
            let blend = Seq::new(64, |j: int| joined_sample(win, l.out, r.out, 64, j));
            Joining {
                state: r.state,
                out: overlaid(s.out, tail, blend.subrange(0, 32)),
                pending: Some(blend.subrange(32, 64)),
                error: None,
            }
        }
    }
}

/// Rendering the first `k` units with joins.
pub open spec fn joining<F: CodedFrames>(
    st: ReaderState,
    voice: Voice,
    key: u8,
    src: F,
    units: Seq<Unit>,
    joins: Seq<bool>,
    win: Seq<i16>,
    k: nat,
) -> Joining
    decreases k,
{
    if k == 0 {
        Joining { state: st, out: Seq::empty(), pending: None, error: None }
    } else {
        let i = k - 1;
        let s = joining(st, voice, key, src, units, joins, win, i as nat);
        if s.error is Some {
            s
        } else {
            let a = unit_added(s, voice, key, src, units[i]);
            if a.error is Some || !is_joined(units, joins, i) {
                a
            } else {
                join_made(a, voice, key, src, units[i], units[i + 1], win)
            }
        }
    }
}

/// Every range that a rendering with joins reads has positions.
pub open spec fn join_readable(units: Seq<Unit>, joins: Seq<bool>, i: int) -> bool {
    &&& readable(units[i].start as int, units[i].count as int)
    &&& is_joined(units, joins, i) ==> {
        &&& units[i].start + units[i].count <= u64::MAX
        &&& readable(units[i].start + units[i].count, 32)
        &&& readable(units[i + 1].start - 32, 64)
    }
}

/// Lays samples over a buffer from `at` on, as far as it reaches.
fn overlay(out: &mut Vec<i16>, at: usize, over: &[i16])
    requires
        at <= old(out)@.len(),
    ensures
        final(out)@ == overlaid(old(out)@, at as int, over@),
{
    let ghost o0 = out@;
    let len: usize = out.len();
    let mut k: usize = 0;
    while k < over.len() && k < len - at
        invariant
            at <= len == out@.len() == o0.len(),
            k <= over@.len(),
            k <= len - at,
            forall|i: int| at <= i < at + k ==> out@[i] == over@[i - at],
            forall|i: int| 0 <= i < at || at + k <= i < o0.len() ==> out@[i] == o0[i],
        decreases len - k,
    {
        out.set(at + k, over[k]);
        k = k + 1;
    }
    assert(out@ =~= overlaid(o0, at as int, over@));
}

/// A join, once made, and the half that is still to be laid.
struct Blend {
    first: Vec<i16>,
    second: Vec<i16>,
}

/// Reads the two legs of a join and blends them.
fn blend_legs<F: CodedFrames>(
    reader: &mut BankReader,
    src: &F,
    tail: &[i16],
    u: Unit,
    next: Unit,
    win: &[i16],
) -> (r: Result<Blend, DecodeError>)
    requires
        old(reader)@.wf(),
        tail@.len() == 32,
        next.start >= 32,
        u.start + u.count <= u64::MAX,
        readable(u.start + u.count, 32),
        readable(next.start - 32, 64),
    ensures
        ({
            let s = Joining { state: old(reader)@, out: tail@, pending: None, error: None };
            let o = join_made(s, old(reader).voice, old(reader).key, *src, u, next, win@);
            &&& final(reader)@ == o.state
            &&& match r {
                Ok(b) => o.error is None && o.pending == Some(b.second@) && o.out == b.first@,
                Err(e) => o.error == Some(e),
            }
        }),
        final(reader)@.wf(),
        final(reader).same_bank(*old(reader)),
{
    let mut left: Vec<i16> = vstd::slice::slice_to_vec(tail);
    assert(tail@.subrange(0, 32) =~= tail@);
    match reader.read(src, u.start + u.count as u64, JOIN_HALF, &mut left) {
        Ok(()) => {},
        Err(e) => {
            return Err(e);
        },
    }
    let mut right: Vec<i16> = Vec::new();
    match reader.read(src, next.start - 32, 64, &mut right) {
        Ok(()) => {},
        Err(e) => {
            return Err(e);
        },
    }
    let blend: Vec<i16> = crossfade(win, left.as_slice(), right.as_slice(), 64);
    let first: Vec<i16> = vstd::slice::slice_to_vec(
        vstd::slice::slice_subrange(blend.as_slice(), 0, JOIN_HALF),
    );
    let second: Vec<i16> = vstd::slice::slice_to_vec(
        vstd::slice::slice_subrange(blend.as_slice(), JOIN_HALF, 64),
    );
    assert(overlaid(tail@, 0, first@) =~= first@);
    Ok(Blend { first, second })
}

/// Renders a unit list, overlap-adding at the tail of every unit whose
/// `joins` entry is set.
///
/// Each leg reads [`JOIN_HALF`] samples past its own unit: the left one beyond
/// this unit's end, the right one before the next unit's start. A unit too
/// short for that is cut hard.
pub fn render_joined<F: CodedFrames>(
    reader: &mut BankReader,
    src: &F,
    units: &[Unit],
    joins: &[bool],
    win: &[i16],
) -> (r: Result<Vec<i16>, DecodeError>)
    requires
        old(reader)@.wf(),
        forall|i: int| 0 <= i < units@.len() ==> #[trigger] join_readable(units@, joins@, i),
    ensures
        ({
            let o = joining(
                old(reader)@,
                old(reader).voice,
                old(reader).key,
                *src,
                units@,
                joins@,
                win@,
                units@.len(),
            );
            &&& final(reader)@ == o.state
            &&& match r {
                Ok(out) => o.error is None && out@ == o.out,
                Err(e) => o.error == Some(e),
            }
        }),
        final(reader)@.wf(),
        final(reader).same_bank(*old(reader)),
{
    let mut out: Vec<i16> = Vec::new();
    let mut pending: Option<Vec<i16>> = None;
    let ghost st = reader@;
    let mut i: usize = 0;
    while i < units.len()
        invariant
            i <= units@.len(),
            reader@.wf(),
            reader.same_bank(*old(reader)),
            st == old(reader)@,
            forall|i: int| 0 <= i < units@.len() ==> #[trigger] join_readable(units@, joins@, i),
            ({
                let s = joining(st, reader.voice, reader.key, *src, units@, joins@, win@, i as nat);
                &&& s.state == reader@
                &&& s.out == out@
                &&& s.error is None
                &&& match pending {
                    Some(p) => s.pending == Some(p@),
                    None => s.pending is None,
                }
            }),
        decreases units@.len() - i,
    {
        assert(join_readable(units@, joins@, i as int));
        let ghost s0 = joining(st, reader.voice, reader.key, *src, units@, joins@, win@, i as nat);
        let u: Unit = units[i];
        let at: usize = out.len();
        match reader.read(src, u.start, u.count, &mut out) {
            Ok(()) => {},
            Err(e) => {
                proof {
                    joining_stops(
                        st,
                        reader.voice,
                        reader.key,
                        *src,
                        units@,
                        joins@,
                        win@,
                        (i + 1) as nat,
                        units@.len(),
                    );
                }
                return Err(e);
            },
        }
        proof {
            reads_have_their_length(
                s0.state,
                reader.voice,
                reader.key,
                *src,
                delayed(u.start as int),
                u.count as nat,
                s0.out,
            );
        }
        if let Some(p) = pending {
            overlay(&mut out, at, p.as_slice());
        }
        pending = None;
        let ghost a = unit_added(s0, reader.voice, reader.key, *src, u);
        assert(out@ == a.out && reader@ == a.state && a.error is None);
        let wanted: bool = i < joins.len() && joins[i];
        if wanted && i + 1 < units.len() {
            let next: Unit = units[i + 1];
            if u.count >= JOIN_HALF && next.count >= JOIN_HALF && next.start >= 32 {
                assert(is_joined(units@, joins@, i as int));
                let tail: usize = out.len() - JOIN_HALF;
                let last: &[i16] = vstd::slice::slice_subrange(out.as_slice(), tail, out.len());
                let ghost made = join_made(a, reader.voice, reader.key, *src, u, next, win@);
                assert(last@.subrange(0, 32) =~= last@);
                match blend_legs(reader, src, last, u, next, win) {
                    Ok(b) => {
                        overlay(&mut out, tail, b.first.as_slice());
                        assert(overlaid(last@, 0, made.pending->Some_0) =~= made.pending->Some_0);
                        pending = Some(b.second);
                    },
                    Err(e) => {
                        proof {
                            joining_stops(
                                st,
                                reader.voice,
                                reader.key,
                                *src,
                                units@,
                                joins@,
                                win@,
                                (i + 1) as nat,
                                units@.len(),
                            );
                        }
                        return Err(e);
                    },
                }
            }
        }
        i = i + 1;
    }
    Ok(out)
}

/// A rendering that has met an error goes no further.
proof fn joining_stops<F: CodedFrames>(
    st: ReaderState,
    voice: Voice,
    key: u8,
    src: F,
    units: Seq<Unit>,
    joins: Seq<bool>,
    win: Seq<i16>,
    n: nat,
    m: nat,
)
    requires
        n <= m,
        joining(st, voice, key, src, units, joins, win, n).error is Some,
    ensures
        joining(st, voice, key, src, units, joins, win, m) == joining(
            st,
            voice,
            key,
            src,
            units,
            joins,
            win,
            n,
        ),
    decreases m,
{
    if n < m {
        joining_stops(st, voice, key, src, units, joins, win, n, (m - 1) as nat);
    }
}

/// A rendering with joins is as long as its units together: a join changes
/// samples and moves none.
pub proof fn joined_renderings_have_their_length<F: CodedFrames>(
    st: ReaderState,
    voice: Voice,
    key: u8,
    src: F,
    units: Seq<Unit>,
    joins: Seq<bool>,
    win: Seq<i16>,
    k: nat,
)
    requires
        st.wf(),
        k <= units.len(),
        joining(st, voice, key, src, units, joins, win, k).error is None,
    ensures
        joining(st, voice, key, src, units, joins, win, k).out.len() == total_count(units, k),
        joining(st, voice, key, src, units, joins, win, k).state.wf(),
    decreases k,
{
    if k > 0 {
        let i = k - 1;
        let s = joining(st, voice, key, src, units, joins, win, i as nat);
        joined_renderings_have_their_length(st, voice, key, src, units, joins, win, i as nat);
        let u = units[i];
        reads_have_their_length(
            s.state,
            voice,
            key,
            src,
            delayed(u.start as int),
            u.count as nat,
            s.out,
        );
        let a = unit_added(s, voice, key, src, u);
        if is_joined(units, joins, i) {
            let tail = a.out.len() - 32;
            let end = a.out.subrange(tail, a.out.len() as int);
            reads_have_their_length(
                a.state,
                voice,
                key,
                src,
                delayed(u.start + u.count),
                32,
                end,
            );
            let l = reading(a.state, voice, key, src, delayed(u.start + u.count), 32, end);
            let next = units[i + 1];
            reads_have_their_length(
                l.state,
                voice,
                key,
                src,
                delayed(next.start - 32),
                64,
                Seq::empty(),
            );
        }
    }
}

/// Without joins a rendering is the units end to end.
pub proof fn unjoined_renderings_are_plain<F: CodedFrames>(
    st: ReaderState,
    voice: Voice,
    key: u8,
    src: F,
    units: Seq<Unit>,
    joins: Seq<bool>,
    win: Seq<i16>,
    k: nat,
)
    requires
        k <= units.len(),
        forall|i: int| 0 <= i < joins.len() ==> !#[trigger] joins[i],
    ensures
        ({
            let j = joining(st, voice, key, src, units, joins, win, k);
            let r = rendering(st, voice, key, src, units, k);
            j.state == r.state && j.out == r.out && j.error == r.error && j.pending is None
        }),
    decreases k,
{
    if k > 0 {
        unjoined_renderings_are_plain(st, voice, key, src, units, joins, win, (k - 1) as nat);
    }
}

} // verus!

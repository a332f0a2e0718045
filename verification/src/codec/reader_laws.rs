//! What holds of reads and of joins, whatever a bank holds.
use vstd::prelude::*;
use super::bits::Cursor;
use super::decoder::{
    frame_is_384_bits, nb_frame_is_280_bits, past_frame, past_nb_frame, DecodeError, SbState, Voice,
};
use super::driver::{scrambled, scrambling_is_an_involution, zero_key_is_identity};
use super::filters::tap16;
use super::laws::in_range;
use super::math::trunc_div;
use super::reader::{
    advanced, delayed, frame_of, in_index, join_made, joined_sample, out_index, reached,
    reached_is_cached, reached_keeps_lengths, reading, rolled, share, CodedFrames, Joining,
    Outcome, ReaderState, Unit,
};

verus! {

/// A decoder that started afresh at frame `from` and decoded `n` frames, one
/// after the other.
pub open spec fn warmed<F: CodedFrames>(voice: Voice, key: u8, src: F, from: int, n: nat) -> SbState
    decreases n,
{
    if n == 0 {
        SbState::fresh()
    } else {
        decoded(warmed(voice, key, src, from, (n - 1) as nat), voice, key, src, from + n - 1)
    }
}

/// A decoder after one more frame.
pub open spec fn decoded<F: CodedFrames>(
    dec: SbState,
    voice: Voice,
    key: u8,
    src: F,
    frame: int,
) -> SbState {
    dec.after(
        dec.frame(
            voice,
            voice.ctx@[frame],
            Cursor::start(scrambled(src.coded(frame as u32)->Some_0, key)),
        ),
    )
}

/// The samples that a decoder gives for a frame.
pub open spec fn decoded_samples<F: CodedFrames>(
    dec: SbState,
    voice: Voice,
    key: u8,
    src: F,
    frame: int,
) -> Seq<i16> {
    let f = dec.frame(
        voice,
        voice.ctx@[frame],
        Cursor::start(scrambled(src.coded(frame as u32)->Some_0, key)),
    );
    Seq::new(320, |o: int| dec.sample(f, o) as i16)
}

proof fn one_frame<F: CodedFrames>(st: ReaderState, voice: Voice, key: u8, src: F, frame: u32)
    requires
        advanced(st, voice, key, src.coded(frame), frame).error is None,
    ensures
        ({
            let o = advanced(st, voice, key, src.coded(frame), frame);
            &&& o.state.dec == decoded(st.dec, voice, key, src, frame as int)
            &&& o.state.cur.frame == Some(frame)
            &&& o.state.cur.pcm == decoded_samples(st.dec, voice, key, src, frame as int)
            &&& o.state.prev == st.cur
        }),
{
    reveal(advanced);
}

proof fn rolling_warms<F: CodedFrames>(
    st: ReaderState,
    voice: Voice,
    key: u8,
    src: F,
    from: u32,
    n: nat,
)
    requires
        st.dec == SbState::fresh(),
        from + n <= 0x1_0000_0000,
        rolled(st, voice, key, src, from, n).error is None,
    ensures
        rolled(st, voice, key, src, from, n).state.dec == warmed(voice, key, src, from as int, n),
    decreases n,
{
    if n > 0 {
        let m = (n - 1) as nat;
        rolling_warms(st, voice, key, src, from, m);
        one_frame(rolled(st, voice, key, src, from, m).state, voice, key, src, (from + n - 1) as u32);
    }
}

/// A sought frame is decoded warm. Where a frame is neither cached nor the next
/// one, its samples are those that a fresh decoder gives for it after the six
/// frames before it, or after all of them where there are fewer, and that
/// decoder is the one that goes on.
pub proof fn sought_frames_are_decoded_warm<F: CodedFrames>(
    st: ReaderState,
    voice: Voice,
    key: u8,
    src: F,
    frame: u32,
)
    requires
        st.cur.frame != Some(frame),
        st.prev.frame != Some(frame),
        frame > 0 ==> st.cur.frame != Some((frame - 1) as u32),
        reached(st, voice, key, src, frame).error is None,
    ensures
        ({
            let before = if frame < 6 {
                frame as nat
            } else {
                6
            };
            let dec = warmed(voice, key, src, frame - before, before);
            let o = reached(st, voice, key, src, frame);
            &&& o.state.cached(frame) == Some(
                decoded_samples(dec, voice, key, src, frame as int),
            )
            &&& o.state.dec == decoded(dec, voice, key, src, frame as int)
        }),
{
    reveal(reached);
    let before = if frame < 6 {
        frame as nat
    } else {
        6
    };
    let from = (frame - before) as u32;
    assert((from + (before + 1) - 1) as u32 == frame);
    let s = st.reseated();
    rolling_warms(s, voice, key, src, from, before);
    one_frame(rolled(s, voice, key, src, from, before).state, voice, key, src, frame);
}

/// The frame after the current one is decoded by the decoder as it stands, and
/// the current one is kept beside it.
pub proof fn next_frames_are_decoded_on<F: CodedFrames>(
    st: ReaderState,
    voice: Voice,
    key: u8,
    src: F,
    frame: u32,
)
    requires
        frame < u32::MAX,
        st.cur.frame == Some(frame),
        st.prev.frame != Some((frame + 1) as u32),
        reached(st, voice, key, src, (frame + 1) as u32).error is None,
    ensures
        ({
            let o = reached(st, voice, key, src, (frame + 1) as u32);
            &&& o.state.cached((frame + 1) as u32) == Some(
                decoded_samples(st.dec, voice, key, src, frame + 1),
            )
            &&& o.state.cached(frame) == Some(st.cur.pcm)
            &&& o.state.dec == decoded(st.dec, voice, key, src, frame + 1)
        }),
{
    reveal(reached);
    one_frame(st, voice, key, src, (frame + 1) as u32);
}

/// The two frames that were decoded last are at hand: neither needs the bank,
/// and neither changes anything.
pub proof fn frames_at_hand_stay<F: CodedFrames>(
    st: ReaderState,
    voice: Voice,
    key: u8,
    src: F,
    frame: u32,
)
    requires
        st.cur.frame == Some(frame) || st.prev.frame == Some(frame),
    ensures
        reached(st, voice, key, src, frame) == (Outcome { state: st, error: None }),
        st.cur.frame == Some(frame) ==> st.cached(frame) == Some(st.cur.pcm),
        st.cur.frame != Some(frame) ==> st.cached(frame) == Some(st.prev.pcm),
{
    reveal(reached);
}

/// Every sample has its place: the one at position `pos` is sample
/// `(pos + 170) % 320` of frame `(pos + 170) / 320`.
pub proof fn samples_stand_at_their_delay<F: CodedFrames>(
    st: ReaderState,
    voice: Voice,
    key: u8,
    src: F,
    pos: u64,
    out: Seq<i16>,
)
    requires
        st.wf(),
        pos + 170 <= 320 * u32::MAX,
        reading(st, voice, key, src, delayed(pos as int), 1, out).error is None,
    ensures
        ({
            let frame = ((pos + 170) / 320) as u32;
            let o = reached(st, voice, key, src, frame);
            &&& o.error is None
            &&& reading(st, voice, key, src, delayed(pos as int), 1, out).out == out.push(
                o.state.cached(frame)->Some_0[(pos + 170) % 320],
            )
        }),
{
    let at = pos + 170;
    assert(delayed(pos as int) == at);
    let frame = (at / 320) as u32;
    assert(frame_of(at) == frame);
    assert(share(at, 1) == 1);
    let o = reached(st, voice, key, src, frame);
    reveal_with_fuel(reading, 2);
    reached_is_cached(st, voice, key, src, frame);
    reached_keeps_lengths(st, voice, key, src, frame);
    let pcm = o.state.cached(frame)->Some_0;
    let within = at % 320;
    assert(out + pcm.subrange(within, within + 1) =~= out.push(pcm[within]));
}

/// A scrambled frame read with its key is the plain one read with none.
pub proof fn keys_undo_scrambling(
    st: ReaderState,
    voice: Voice,
    key: u8,
    bytes: Seq<u8>,
    frame: u32,
)
    ensures
        advanced(st, voice, key, Some(scrambled(bytes, key)), frame) == advanced(
            st,
            voice,
            0,
            Some(bytes),
            frame,
        ),
{
    reveal(advanced);
    scrambling_is_an_involution(bytes, key);
    zero_key_is_identity(bytes);
}

/// A window that falls.
pub open spec fn falls(win: Seq<i16>) -> bool {
    &&& win.len() == 628
    &&& forall|a: int, b: int| 0 <= a <= b < 628 ==> 0 <= #[trigger] win[b] <= #[trigger] win[a]
}

/// A leg that stays at a level.
pub open spec fn level_leg(leg: Seq<i16>, v: i16, n: int) -> bool {
    leg.len() == n && forall|i: int| 0 <= i < n ==> #[trigger] leg[i] == v
}

/// Over a join the left leg fades out: with a falling window and silence on the
/// right, a steady left leg never gets louder, and it starts at the window's
/// first entry.
pub proof fn left_leg_fades_out(
    win: Seq<i16>,
    left: Seq<i16>,
    right: Seq<i16>,
    v: i16,
    n: int,
    j: int,
    k: int,
)
    requires
        falls(win),
        level_leg(left, v, n),
        level_leg(right, 0, n),
        0 <= v,
        0 <= j <= k < n,
    ensures
        0 <= joined_sample(win, left, right, n, k) <= joined_sample(win, left, right, n, j),
        joined_sample(win, left, right, n, 0) == v * win[0] / 0x8000,
{
    places_rise(j, k, n);
    places_rise(0, j, n);
    weighed(v, win[out_index(j, n)]);
    weighed(v, win[out_index(k, n)]);
    weighed(v, win[0]);
    let (a, b) = (win[out_index(j, n)] as int, win[out_index(k, n)] as int);
    silence(win[in_index(j, n)]);
    silence(win[in_index(k, n)]);
    silence(win[in_index(0, n)]);
    assert(0 <= v * b <= v * a) by (nonlinear_arith)
        requires
            0 <= v,
            0 <= b <= a,
    ;
}

/// Over a join the right leg fades in: with a falling window and silence on the
/// left, a steady right leg never gets quieter, and it starts at the window's
/// last entry.
pub proof fn right_leg_fades_in(
    win: Seq<i16>,
    left: Seq<i16>,
    right: Seq<i16>,
    v: i16,
    n: int,
    j: int,
    k: int,
)
    requires
        falls(win),
        level_leg(left, 0, n),
        level_leg(right, v, n),
        0 <= v,
        0 <= j <= k < n,
    ensures
        0 <= joined_sample(win, left, right, n, j) <= joined_sample(win, left, right, n, k),
        joined_sample(win, left, right, n, 0) == v * win[627] / 0x8000,
{
    places_rise(j, k, n);
    places_rise(0, j, n);
    weighed(v, win[in_index(j, n)]);
    weighed(v, win[in_index(k, n)]);
    weighed(v, win[627]);
    let (a, b) = (win[in_index(j, n)] as int, win[in_index(k, n)] as int);
    silence(win[out_index(j, n)]);
    silence(win[out_index(k, n)]);
    silence(win[out_index(0, n)]);
    assert(0 <= v * a <= v * b) by (nonlinear_arith)
        requires
            0 <= v,
            0 <= a <= b,
    ;
}

proof fn weighed(v: i16, w: i16)
    requires
        0 <= v,
        0 <= w,
    ensures
        trunc_div(v * w, 0x8000) == v * w / 0x8000,
        0 <= v * w / 0x8000 <= 32767,
{
    assert(0 <= v * w <= 32767 * 32767) by (nonlinear_arith)
        requires
            0 <= v <= 32767,
            0 <= w <= 32767,
    ;
}

proof fn silence(w: i16)
    ensures
        trunc_div(0 * w, 0x8000) == 0,
{
}

/// The leg that fades out runs up through the window, the other down.
proof fn places_rise(j: int, k: int, n: int)
    requires
        0 <= j <= k < n,
    ensures
        0 <= out_index(j, n) <= out_index(k, n) <= 627,
        0 <= in_index(k, n) <= in_index(j, n) <= 627,
        out_index(0, n) == 0,
        in_index(0, n) == 627,
{
    super::reader::fades_mirror(j, n);
    super::reader::fades_mirror(k, n);
    vstd::arithmetic::div_mod::lemma_div_is_ordered(627 * j, 627 * k, n);
    vstd::arithmetic::div_mod::lemma_div_is_ordered(627 * (n - k), 627 * (n - j), n);
}

/// A blend adds the two legs, each by itself: unless it saturates, the blend of
/// both is the sum of each against silence.
pub proof fn blends_add_their_legs(
    win: Seq<i16>,
    left: Seq<i16>,
    right: Seq<i16>,
    quiet: Seq<i16>,
    n: int,
    j: int,
)
    requires
        level_leg(quiet, 0, n),
        0 <= j < n,
        -32768 < joined_sample(win, left, right, n, j) < 32767,
        -32768 < joined_sample(win, left, quiet, n, j) < 32767,
        -32768 < joined_sample(win, quiet, right, n, j) < 32767,
    ensures
        joined_sample(win, left, right, n, j) == joined_sample(win, left, quiet, n, j)
            + joined_sample(win, quiet, right, n, j),
{
    assert(tap16(quiet, j) == 0);
    assert(0 * tap16(win, out_index(j, n)) == 0);
    assert(0 * tap16(win, in_index(j, n)) == 0);
    assert(trunc_div(0, 0x8000) == 0);
}

/// A join lies around the boundary: it blends the last 32 samples of a unit and
/// the 32 that follow it in the bank with the 64 samples from 32 before the next
/// unit on, puts the first half of the blend over the unit's end, keeps the other
/// for the next unit's head, and touches nothing else.
pub proof fn joins_lie_around_the_boundary<F: CodedFrames>(
    s: Joining,
    voice: Voice,
    key: u8,
    src: F,
    u: Unit,
    next: Unit,
    win: Seq<i16>,
    i: int,
)
    requires
        s.out.len() >= 32,
        join_made(s, voice, key, src, u, next, win).error is None,
    ensures
        ({
            let n = s.out.len() as int;
            let l = reading(
                s.state,
                voice,
                key,
                src,
                delayed(u.start + u.count),
                32,
                s.out.subrange(n - 32, n),
            );
            let r = reading(l.state, voice, key, src, delayed(next.start - 32), 64, Seq::empty());
            let made = join_made(s, voice, key, src, u, next, win);
            &&& made.state == r.state
            &&& made.out.len() == n
            &&& 0 <= i < n - 32 ==> made.out[i] == s.out[i]
            &&& n - 32 <= i < n ==> made.out[i] == joined_sample(
                win,
                l.out,
                r.out,
                64,
                i - (n - 32),
            )
            &&& made.pending is Some
            &&& made.pending->Some_0.len() == 32
            &&& 0 <= i < 32 ==> made.pending->Some_0[i] == joined_sample(
                win,
                l.out,
                r.out,
                64,
                32 + i,
            )
        }),
{
}

/// The frame after the current one is decoded exactly where it is there, has a
/// context and is 48 bytes long or longer. A shorter one is truncated, and one
/// that is not there or has no context is told by its number.
pub proof fn frames_need_their_bytes<F: CodedFrames>(
    st: ReaderState,
    voice: Voice,
    key: u8,
    src: F,
    frame: u32,
)
    requires
        0 < frame,
        st.cur.frame == Some((frame - 1) as u32),
        st.prev.frame != Some(frame),
        src.coded(frame) matches Some(bytes) ==> bytes.len() <= 0xfff_0000,
    ensures
        ({
            let e = reached(st, voice, key, src, frame).error;
            match src.coded(frame) {
                None => e == Some(DecodeError::NoContext(frame as usize)),
                Some(bytes) => if frame >= voice.ctx@.len() {
                    e == Some(DecodeError::NoContext(frame as usize))
                } else if bytes.len() < 48 {
                    e == Some(DecodeError::Truncated)
                } else {
                    e is None
                },
            }
        }),
{
    reveal(reached);
    step_needs_its_bytes(st, voice, key, src.coded(frame), frame);
}

proof fn bytes_decide(voice: Voice, bytes: Seq<u8>)
    requires
        bytes.len() <= 0xfff_0000,
    ensures
        past_nb_frame(voice, Cursor::start(bytes)).overflow == 0 <==> bytes.len() >= 35,
        past_frame(voice, Cursor::start(bytes)).overflow == 0 <==> bytes.len() >= 48,
{
    let b = Cursor::start(bytes);
    in_range(8 * bytes.len() as int);
    assert(b.at() == 0 && b.nb_bits == 8 * bytes.len());
    nb_frame_is_280_bits(voice, b);
    frame_is_384_bits(voice, b);
}

proof fn step_needs_its_bytes(
    st: ReaderState,
    voice: Voice,
    key: u8,
    coded: Option<Seq<u8>>,
    frame: u32,
)
    requires
        coded matches Some(bytes) ==> bytes.len() <= 0xfff_0000,
    ensures
        ({
            let e = advanced(st, voice, key, coded, frame).error;
            match coded {
                None => e == Some(DecodeError::NoContext(frame as usize)),
                Some(bytes) => if frame >= voice.ctx@.len() {
                    e == Some(DecodeError::NoContext(frame as usize))
                } else if bytes.len() < 48 {
                    e == Some(DecodeError::Truncated)
                } else {
                    e is None
                },
            }
        }),
{
    reveal(advanced);
    if let Some(bytes) = coded {
        bytes_decide(voice, scrambled(bytes, key));
        assert(scrambled(bytes, key).len() == bytes.len());
    }
}

} // verus!

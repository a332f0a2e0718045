//! The decode driver: module requests, frame addressing, descrambling and the
//! seek rules.
use vstd::prelude::*;

verus! {

/// Bytes of the decoder context.
pub const CTX_LEN: u32 = 0x11f8;

/// Offset of the voice parameter block in the decoder state.
pub const DEC_STATE_PARAMS_PTR: u32 = 0x1f0;

/// Bytes of the voice parameter block.
pub const VOICE_PARAMS_LEN: u32 = 0x88;

/// Bytes of one coded frame in the banks of this voice.
pub const DAVE_FRAME_BYTES: u16 = 48;

/// Samples per frame: 20 ms at 16 kHz.
pub const DAVE_FRAME_SAMPLES: u16 = 320;

/// The error for a null or invalid argument.
pub const ERR_BAD_ARG: u32 = 0xe006_0006;

/// What the module can be asked for.
#[derive(Debug, Clone, Copy, PartialEq, Eq)]
pub enum Request {
    /// The version string.
    Version,
    /// Open a decoder.
    Open,
    /// Close it.
    Close,
    /// Decode a range of samples.
    Decode,
    /// Capabilities.
    GetCaps,
    /// The module's name.
    Name,
}

impl Request {
    /// The dispatch table's own order, which is not key order.
    pub const TABLE_ORDER: [Request; 6] = [
        Request::Version,
        Request::Open,
        Request::Close,
        Request::GetCaps,
        Request::Name,
        Request::Decode,
    ];

    /// The key that selects this request.
    pub open spec fn spec_key(self) -> u32 {
        match self {
            Request::Version => 1,
            Request::Open => 2,
            Request::Close => 3,
            Request::Decode => 4,
            Request::GetCaps => 5,
            Request::Name => 6,
        }
    }

    /// Module offset of the entry point this request returns.
    pub open spec fn spec_entry(self) -> u32 {
        match self {
            Request::Version => 0x4880,
            Request::Open => 0x4990,
            Request::Close => 0x4bd8,
            Request::Decode => 0x48d0,
            Request::GetCaps => 0x48ac,
            Request::Name => 0x485c,
        }
    }

    /// The key that selects this request.
    pub fn key(self) -> (r: u32)
        ensures
            r == self.spec_key(),
    {
        match self {
            Request::Version => 1,
            Request::Open => 2,
            Request::Close => 3,
            Request::Decode => 4,
            Request::GetCaps => 5,
            Request::Name => 6,
        }
    }

    /// Module offset of the entry point this request returns.
    pub fn entry(self) -> (r: u32)
        ensures
            r == self.spec_entry(),
    {
        match self {
            Request::Version => 0x4880,
            Request::Open => 0x4990,
            Request::Close => 0x4bd8,
            Request::Decode => 0x48d0,
            Request::GetCaps => 0x48ac,
            Request::Name => 0x485c,
        }
    }
}

/// Every byte combined with the key.
pub open spec fn scrambled(frame: Seq<u8>, key: u8) -> Seq<u8> {
    frame.map_values(|b: u8| b ^ key)
}

/// Undoes the per-frame scrambling, in place. A zero key changes nothing.
pub fn descramble(frame: &mut [u8], key: u8)
    ensures
        final(frame)@ == scrambled(old(frame)@, key),
{
    let ghost f0 = frame@;
    if key == 0 {
        proof {
            zero_key_is_identity(f0);
        }
        return ;
    }
    let mut i: usize = 0;
    while i < frame.len()
        invariant
            i <= frame@.len() == f0.len(),
            forall|k: int| 0 <= k < i ==> frame@[k] == f0[k] ^ key,
            forall|k: int| i <= k < f0.len() ==> frame@[k] == f0[k],
        decreases f0.len() - i,
    {
        frame[i] = frame[i] ^ key;
        i = i + 1;
    }
    assert(frame@ =~= scrambled(f0, key));
}

/// A zero key leaves a frame alone.
pub proof fn zero_key_is_identity(frame: Seq<u8>)
    ensures
        scrambled(frame, 0) == frame,
{
    assert forall|k: int| 0 <= k < frame.len() implies scrambled(frame, 0)[k] == frame[k] by {
        let b = frame[k];
        assert(b ^ 0 == b) by (bit_vector);
    }
    assert(scrambled(frame, 0) =~= frame);
}

/// Scrambling twice with one key gives the frame back.
pub proof fn scrambling_is_an_involution(frame: Seq<u8>, key: u8)
    ensures
        scrambled(scrambled(frame, key), key) == frame,
{
    assert forall|k: int| 0 <= k < frame.len() implies scrambled(scrambled(frame, key), key)[k]
        == frame[k] by {
        let b = frame[k];
        assert((b ^ key) ^ key == b) by (bit_vector);
    }
    assert(scrambled(scrambled(frame, key), key) =~= frame);
}

/// Byte offset of a coded frame within the bank.
pub fn frame_offset(index: u32, frame_bytes: u32, data_offset: u32, bias: u32) -> (r: u64)
    ensures
        r == frame_bytes * index + data_offset + bias,
{
    assert(0 <= frame_bytes * index <= 0xffff_ffff * 0xffff_ffff) by (nonlinear_arith)
        requires
            0 <= frame_bytes <= 0xffff_ffff,
            0 <= index <= 0xffff_ffff,
    ;
    frame_bytes as u64 * index as u64 + data_offset as u64 + bias as u64
}

/// What has to be done to serve a frame, given what is already decoded.
#[derive(Debug, Clone, Copy, PartialEq, Eq)]
pub enum Step {
    /// It is the current frame.
    Current,
    /// It is the previous frame.
    Previous,
    /// It is the next one: decode a single frame.
    Advance,
    /// It is anywhere else: start afresh and decode from `from` through it.
    Reseek {
        /// The first frame to decode.
        from: u32,
    },
}

/// What [`plan`] returns.
pub open spec fn planned(target: u32, current: u32, previous: u32, preroll: u32) -> Step {
    if target == current {
        Step::Current
    } else if target == (current + 1) % 0x1_0000_0000 {
        Step::Advance
    } else if target == previous {
        Step::Previous
    } else {
        Step::Reseek {
            from: if target < preroll {
                0
            } else {
                (target - preroll) as u32
            },
        }
    }
}

/// Classifies a seek. The preroll stops at the first frame.
pub fn plan(target: u32, current: u32, previous: u32, preroll: u32) -> (r: Step)
    ensures
        r == planned(target, current, previous, preroll),
{
    if target == current {
        Step::Current
    } else if target == current.wrapping_add(1) {
        Step::Advance
    } else if target == previous {
        Step::Previous
    } else {
        Step::Reseek { from: target.saturating_sub(preroll) }
    }
}

/// The key is what each byte of a scrambled frame differs by.
pub proof fn bytes_differ_by_the_key(frame: Seq<u8>, key: u8, k: int)
    requires
        0 <= k < frame.len(),
    ensures
        scrambled(frame, key).len() == frame.len(),
        scrambled(frame, key)[k] ^ frame[k] == key,
        key != 0 ==> scrambled(frame, key)[k] != frame[k],
{
    let b = frame[k];
    assert((b ^ key) ^ b == key) by (bit_vector);
    assert(b ^ b == 0) by (bit_vector);
}

/// A frame that is at hand is served as it is, the one after the current one by
/// one step, and any other from as many frames before it as the preroll says, or
/// from the first where there are not that many.
pub proof fn other_frames_are_reached_by_their_preroll(
    target: u32,
    current: u32,
    previous: u32,
    preroll: u32,
)
    requires
        current < u32::MAX,
    ensures
        target == current <==> planned(target, current, previous, preroll) == Step::Current,
        target == current + 1 <==> planned(target, current, previous, preroll) == Step::Advance,
        target == previous && target != current && target != current + 1 <==> planned(
            target,
            current,
            previous,
            preroll,
        ) == Step::Previous,
        planned(target, current, previous, preroll) matches Step::Reseek { from } ==> from <= target
            && target - from <= preroll && (target - from < preroll ==> from == 0),
{
}

/// Each request has its own key and its own entry.
pub proof fn requests_are_told_apart(a: Request, b: Request)
    requires
        a != b,
    ensures
        a.spec_key() != b.spec_key(),
        a.spec_entry() != b.spec_entry(),
{
}

} // verus!

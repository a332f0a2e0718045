//! The session with the engine: the calls that open it, in order, and the one
//! that speaks.
//!
//! The routines themselves run elsewhere. Each call is laid out here, and what
//! it returned is handed back before the next one is.
use vstd::prelude::*;
use vstd::utf8::encode_utf8;
use super::text::{failure, utterance, utterance_of, with_log};
use crate::data::chars::{chars_of, hex8, push_str, text_of};
use crate::data::sde::strings;
use crate::engine::paths::GUEST_OUT;
use crate::engine::runtime::{
    all_emptied, collected, under, with_name, Machine, Runtime,
};
use crate::engine::words::{lossy, lossy_text};
use crate::xrt::mem::{Mem, Space};
use crate::xrt::text::terminated;

verus! {

/// How many calls open a session.
pub const OPENING: usize = 8;

/// What is known of a session that is being opened.
pub struct Session {
    /// The voice.
    pub voice: String,
    /// The sample rate.
    pub rate: u32,
    /// Where the engine puts its handles.
    pub out: u32,
    /// A block for the engine to work in.
    pub scratch: u32,
    /// An empty text.
    pub empty: u32,
    /// The session's handle.
    pub session: u32,
    /// The instance's handle.
    pub inst: u32,
    /// How many of the calls that open it have returned.
    pub step: usize,
}

/// A call to a routine of the engine.
#[derive(Debug, Clone)]
pub struct Routine {
    /// Its name.
    pub name: String,
    /// Its arguments.
    pub args: Vec<u32>,
}

impl Routine {
    /// Where the routine is. It fails where no module offers it.
    pub fn find(&self, rt: &Runtime) -> (r: Result<u32, String>)
        ensures
            match (r, under(rt@.exports, self.name@)) {
                (Ok(at), Some(want)) => at == want,
                (Err(e), None) => e@ == self.name@ + " is not exported by the engine"@,
                _ => false,
            },
    {
        match rt.lookup(self.name.as_str()) {
            Some(at) => Ok(at),
            None => {
                let mut out: Vec<char> = chars_of(self.name.as_str());
                push_str(&mut out, " is not exported by the engine");
                Err(text_of(out.as_slice()))
            },
        }
    }
}

/// The runtime and memory with a text in a new block, and where it is; nothing
/// where there is no room.
pub open spec fn text_put(rt: Machine, m: Space, s: Seq<char>) -> Option<(Machine, Space, u32)> {
    let bytes = encode_utf8(s);
    let n = (bytes.len() + 1) as u32;
    let a = rt.heap.block(n);
    if bytes.len() < u32::MAX && rt.heap.has_room(n) && m.reachable(a as int, n as int) {
        Some(
            (
                Machine { heap: rt.heap.after(n), ..rt },
                m.write(a as int, terminated(bytes)),
                a,
            ),
        )
    } else {
        None
    }
}

/// The runtime and memory with the first `n` of some texts in new blocks, and
/// where they are.
pub open spec fn texts_put(rt: Machine, m: Space, ts: Seq<Seq<char>>, n: nat) -> Option<
    (Machine, Space, Seq<u32>),
>
    decreases n,
{
    if n == 0 {
        Some((rt, m, Seq::empty()))
    } else {
        match texts_put(rt, m, ts, (n - 1) as nat) {
            None => None,
            Some((r1, m1, v)) => match text_put(r1, m1, ts[n - 1]) {
                None => None,
                Some((r2, m2, a)) => Some((r2, m2, v.push(a))),
            },
        }
    }
}

/// The name of call `k`.
pub open spec fn call_name(k: int) -> Seq<char> {
    if k == 0 {
        "ttsNewSession"@
    } else if k == 1 {
        "ttsNewInstance"@
    } else if k <= 4 {
        "ttsSetInstanceParam"@
    } else if k == 5 {
        "ttsNewVoice"@
    } else if k == 6 {
        "ttsSetAudio"@
    } else {
        "ttsSetModularStructure"@
    }
}

/// The texts that call `k` is given.
pub open spec fn call_texts(k: int, voice: Seq<char>) -> Seq<Seq<char>> {
    if k <= 1 {
        Seq::empty()
    } else if k == 2 {
        seq!["MultiSpacePause"@, "NO"@]
    } else if k == 3 {
        seq!["MaxParPause"@, "0"@]
    } else if k == 4 {
        seq!["InputTextCoding"@, "ansi"@]
    } else if k == 5 {
        seq![voice, "loqmsx"@]
    } else if k == 6 {
        seq!["LoqAudioFile"@, "/loq/out.raw"@, "l"@]
    } else {
        seq!["top"@, "acu"@]
    }
}

/// The arguments of call `k`, whose texts are at `t`.
pub open spec fn call_args(k: int, s: Session, t: Seq<u32>) -> Seq<u32> {
    if k == 0 {
        seq![s.out, s.empty]
    } else if k == 1 {
        seq![(s.out + 4) as u32, s.session, s.empty]
    } else if k <= 4 {
        seq![s.inst, t[0], t[1]]
    } else if k == 5 {
        seq![(s.out + 8) as u32, s.inst, t[0], s.rate, t[1]]
    } else if k == 6 {
        seq![s.inst, t[0], t[1], t[2], 0u32]
    } else {
        seq![s.inst, t[0], t[1], s.scratch]
    }
}

/// The runtime, memory and session before the first call; nothing where there
/// is no room.
pub open spec fn begun(rt: Machine, m: Space) -> Option<(Machine, Space, u32, u32, u32)> {
    let h = rt.heap;
    if h.has_room(16) && h.after(16).has_room(512) {
        match text_put(Machine { heap: h.after(16).after(512), ..rt }, m, ""@) {
            Some((r, w, empty)) => Some((r, w, h.block(16), h.after(16).block(512), empty)),
            None => None,
        }
    } else {
        None
    }
}

/// Puts texts in new blocks, and says where they are.
fn put_texts(rt: &mut Runtime, m: &mut Mem, ts: &Vec<String>) -> (r: Option<Vec<u32>>)
    requires
        old(rt)@.wf(),
    ensures
        final(rt)@.wf(),
        match (r, texts_put(old(rt)@, old(m)@, strings(ts@), ts@.len())) {
            (Some(v), Some((x, w, want))) => v@ == want && final(rt)@ == x && final(m)@ == w
                && v@.len() == ts@.len(),
            (None, None) => true,
            _ => false,
        },
{
    let ghost (r0, m0, all) = (rt@, m@, strings(ts@));
    let mut out: Vec<u32> = Vec::new();
    let mut i: usize = 0;
    while i < ts.len()
        invariant
            i <= ts@.len(),
            rt@.wf(),
            r0 == old(rt)@,
            m0 == old(m)@,
            all == strings(ts@),
            out@.len() == i,
            texts_put(r0, m0, all, i as nat) == Some((rt@, m@, out@)),
        decreases ts@.len() - i,
    {
        assert(all[i as int] == ts@[i as int]@);
        match rt.cstring(m, ts[i].as_str()) {
            Some(a) => {
                out.push(a);
            },
            None => {
                proof {
                    unput(r0, m0, all, (i + 1) as nat, ts@.len());
                }
                return None;
            },
        }
        i = i + 1;
    }
    Some(out)
}

proof fn unput(rt: Machine, m: Space, ts: Seq<Seq<char>>, n: nat, k: nat)
    requires
        n <= k,
        texts_put(rt, m, ts, n) is None,
    ensures
        texts_put(rt, m, ts, k) is None,
    decreases k,
{
    if n < k {
        unput(rt, m, ts, n, (k - 1) as nat);
    }
}

fn name_of(k: usize) -> (r: &'static str)
    ensures
        r@ == call_name(k as int),
{
    if k == 0 {
        "ttsNewSession"
    } else if k == 1 {
        "ttsNewInstance"
    } else if k <= 4 {
        "ttsSetInstanceParam"
    } else if k == 5 {
        "ttsNewVoice"
    } else if k == 6 {
        "ttsSetAudio"
    } else {
        "ttsSetModularStructure"
    }
}

fn texts_of(k: usize, voice: &str) -> (r: Vec<String>)
    ensures
        strings(r@) == call_texts(k as int, voice@),
{
    let mut v: Vec<String> = Vec::new();
    if k <= 1 {
    } else if k == 2 {
        v.push("MultiSpacePause".to_owned());
        v.push("NO".to_owned());
    } else if k == 3 {
        v.push("MaxParPause".to_owned());
        v.push("0".to_owned());
    } else if k == 4 {
        v.push("InputTextCoding".to_owned());
        v.push("ansi".to_owned());
    } else if k == 5 {
        v.push(voice.to_owned());
        v.push("loqmsx".to_owned());
    } else if k == 6 {
        v.push("LoqAudioFile".to_owned());
        v.push(GUEST_OUT.to_owned());
        v.push("l".to_owned());
    } else {
        v.push("top".to_owned());
        v.push("acu".to_owned());
    }
    assert(strings(v@) =~= call_texts(k as int, voice@));
    v
}

impl Session {
    /// Makes room for a session. Nothing comes of it where there is none.
    pub fn begin(rt: &mut Runtime, m: &mut Mem, voice: &str, rate: u32) -> (r: Option<Session>)
        requires
            old(rt)@.wf(),
        ensures
            final(rt)@.wf(),
            match (r, begun(old(rt)@, old(m)@)) {
                (Some(s), Some((x, w, out, scratch, empty))) => {
                    &&& final(rt)@ == x
                    &&& final(m)@ == w
                    &&& s.voice@ == voice@
                    &&& s.rate == rate
                    &&& s.out == out
                    &&& s.scratch == scratch
                    &&& s.empty == empty
                    &&& s.session == 0
                    &&& s.inst == 0
                    &&& s.step == 0
                },
                (None, None) => true,
                _ => false,
            },
    {
        let out: u32 = match rt.allot(16) {
            Some(a) => a,
            None => {
                return None;
            },
        };
        let scratch: u32 = match rt.allot(512) {
            Some(a) => a,
            None => {
                return None;
            },
        };
        match rt.cstring(m, "") {
            Some(empty) => Some(
                Session {
                    voice: voice.to_owned(),
                    rate,
                    out,
                    scratch,
                    empty,
                    session: 0,
                    inst: 0,
                    step: 0,
                },
            ),
            None => None,
        }
    }

    /// Whether every call that opens the session has returned.
    pub fn is_open(&self) -> (r: bool)
        ensures
            r == (self.step >= 8),
    {
        self.step >= OPENING
    }

    /// Lays out the next call. Nothing comes of it where there is no room for
    /// its texts.
    pub fn call(&self, rt: &mut Runtime, m: &mut Mem) -> (r: Option<Routine>)
        requires
            old(rt)@.wf(),
            self.step < 8,
            self.out + 8 <= u32::MAX,
        ensures
            final(rt)@.wf(),
            ({
                let k = self.step;
                let ts = call_texts(k as int, self.voice@);
                match (r, texts_put(old(rt)@, old(m)@, ts, ts.len())) {
                    (Some(c), Some((x, w, t))) => {
                        &&& final(rt)@ == x
                        &&& final(m)@ == w
                        &&& c.name@ == call_name(k as int)
                        &&& c.args@ == call_args(k as int, *self, t)
                    },
                    (None, None) => true,
                    _ => false,
                }
            }),
    {
        let k: usize = self.step;
        let ts: Vec<String> = texts_of(k, self.voice.as_str());
        assert(strings(ts@).len() == ts@.len());
        let t: Vec<u32> = match put_texts(rt, m, &ts) {
            Some(t) => t,
            None => {
                return None;
            },
        };
        let args: Vec<u32> = if k == 0 {
            vec![self.out, self.empty]
        } else if k == 1 {
            vec![self.out + 4, self.session, self.empty]
        } else if k <= 4 {
            vec![self.inst, t[0], t[1]]
        } else if k == 5 {
            vec![self.out + 8, self.inst, t[0], self.rate, t[1]]
        } else if k == 6 {
            vec![self.inst, t[0], t[1], t[2], 0u32]
        } else {
            vec![self.inst, t[0], t[1], self.scratch]
        };
        assert(args@ =~= call_args(k as int, *self, t@));
        Some(Routine { name: name_of(k).to_owned(), args })
    }

    /// Takes what the call returned: a failure where it is not zero, and else
    /// the handle that the first two leave, and on to the next.
    pub fn returned(&mut self, m: &Mem, rc: u32, log: &Vec<u8>) -> (r: Result<(), String>)
        requires
            old(self).step < 8,
            old(self).out + 8 <= u32::MAX,
            m@.mapped(old(self).out as int, 4),
            m@.mapped(old(self).out + 4, 4),
        ensures
            match r {
                Ok(_) => rc == 0,
                Err(e) => rc != 0 && e@ == with_log(
                    call_name(old(self).step as int) + " failed, 0x"@ + hex8(rc),
                    lossy(log@),
                ),
            },
            final(self).session == if rc == 0 && old(self).step == 0 {
                m@.word(old(self).out as int)
            } else {
                old(self).session
            },
            final(self).inst == if rc == 0 && old(self).step == 1 {
                m@.word(old(self).out + 4)
            } else {
                old(self).inst
            },
            final(self).step == if rc == 0 {
                old(self).step + 1
            } else {
                old(self).step as int
            },
            final(self).voice == old(self).voice,
            final(self).rate == old(self).rate,
            final(self).out == old(self).out,
            final(self).scratch == old(self).scratch,
            final(self).empty == old(self).empty,
    {
        let k: usize = self.step;
        if rc != 0 {
            return Err(failure(name_of(k), rc, lossy_text(log.as_slice()).as_str()));
        }
        if k == 0 {
            self.session = m.r32(self.out);
        }
        if k == 1 {
            self.inst = m.r32(self.out + 4);
        }
        self.step = k + 1;
        Ok(())
    }

    /// Lays out the call that speaks a text. Nothing comes of it where there is
    /// no room for it.
    pub fn say(&self, rt: &mut Runtime, m: &mut Mem, text: &str) -> (r: Option<Routine>)
        requires
            old(rt)@.wf(),
        ensures
            final(rt)@.wf(),
            match (r, text_put(old(rt)@, old(m)@, utterance_of(text@))) {
                (Some(c), Some((x, w, a))) => {
                    &&& final(rt)@ == x
                    &&& final(m)@ == w
                    &&& c.name@ == "ttsRead"@
                    &&& c.args@ == seq![self.inst, a, 1u32, 0u32, 1u32, 2u32]
                },
                (None, None) => true,
                _ => false,
            },
    {
        let s: String = utterance(text);
        match rt.cstring(m, s.as_str()) {
            Some(a) => {
                let args: Vec<u32> = vec![self.inst, a, 1u32, 0u32, 1u32, 2u32];
                assert(args@ =~= seq![self.inst, a, 1u32, 0u32, 1u32, 2u32]);
                Some(Routine { name: "ttsRead".to_owned(), args })
            },
            None => None,
        }
    }

    /// Takes what speaking returned: a failure where it is not zero, and else
    /// the audio.
    pub fn spoken(&self, rt: &mut Runtime, rc: u32) -> (r: Result<Vec<u8>, String>)
        requires
            old(rt)@.wf(),
        ensures
            final(rt)@.wf(),
            match r {
                Err(e) => rc != 0 && e@ == "ttsRead failed, 0x"@ + hex8(rc) && final(rt)@
                    == old(rt)@,
                Ok(pcm) => {
                    let kept = match under(old(rt)@.sinks, "/loq/out.raw"@) {
                        Some(d) => d,
                        None => Seq::empty(),
                    };
                    &&& rc == 0
                    &&& pcm@ == kept + collected(
                        old(rt)@.files,
                        "/loq/out.raw"@,
                        old(rt)@.files.len(),
                    )
                    &&& final(rt)@ == (Machine {
                        sinks: with_name(old(rt)@.sinks, "/loq/out.raw"@, Seq::empty()),
                        files: all_emptied(old(rt)@.files, "/loq/out.raw"@),
                        ..old(rt)@
                    })
                },
            },
    {
        if rc != 0 {
            let text: String = failure("ttsRead", rc, "");
            proof {
                reveal_strlit("");
                reveal_strlit("ttsRead");
                reveal_strlit(" failed, 0x");
                reveal_strlit("ttsRead failed, 0x");
                assert("ttsRead"@ + " failed, 0x"@ =~= "ttsRead failed, 0x"@);
            }
            return Err(text);
        }
        Ok(rt.take_sink(GUEST_OUT))
    }
}

/// Takes the runtime's log.
pub fn take_log(rt: &mut Runtime) -> (r: String)
    ensures
        r@ == lossy(old(rt)@.log),
        final(rt)@ == (Machine { log: Seq::empty(), ..old(rt)@ }),
{
    let mut log: Vec<u8> = Vec::new();
    std::mem::swap(&mut rt.log, &mut log);
    assert(rt@ =~= (Machine { log: Seq::empty(), ..old(rt)@ }));
    lossy_text(log.as_slice())
}

} // verus!

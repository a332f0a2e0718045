//! What a call into the runtime sees, what it may be told, and what it may
//! want done.
use vstd::prelude::*;
use vstd::utf8::encode_utf8;
use super::cfmt::{byte_texts, Spec};
use super::paths::{Place, Spot};
use super::runtime::Machine;
use super::scan::Bits;
use super::words::{lossy, lossy_text};
use crate::data::sde::strings;
use crate::xrt::cpu::{give, Cpu};
use crate::xrt::mem::{Mem, Space};
use crate::xrt::text::{find_text, text_at};

verus! {

/// Everything that a call can change.
#[verifier::ext_equal]
pub struct World {
    /// The runtime.
    pub rt: Machine,
    /// The general registers.
    pub r: Seq<u32>,
    /// The bits of the floating-point registers.
    pub fp: Seq<u64>,
    /// Memory.
    pub m: Space,
}

impl World {
    /// With a result.
    pub open spec fn give(self, v: u32) -> World {
        World { r: self.r.update(0, v), ..self }
    }

    /// With other memory.
    pub open spec fn with(self, m: Space) -> World {
        World { m, ..self }
    }

    /// With another runtime.
    pub open spec fn on(self, rt: Machine) -> World {
        World { rt, ..self }
    }
}

/// The world that a call sees.
pub open spec fn world(rt: Machine, c: Cpu, m: Space) -> World {
    World { rt, r: c.r@, fp: c.fp@, m }
}

/// What a call wants done, now that it has returned.
#[derive(Debug, Clone)]
pub enum Action {
    /// Nothing.
    Done,
    /// It cannot go on: it was asked for what is not there.
    Fault,
    /// Bytes are to be written out.
    Write {
        /// Where.
        place: Place,
        /// What.
        data: Vec<u8>,
    },
    /// A file is to be removed.
    Remove(Place),
    /// Threads that wait for a condition can run.
    Signal(u32),
    /// The thread waits for a condition.
    Wait(u32),
    /// The thread waits until another is done.
    Join(u32),
    /// A thread is to be started.
    Spawn {
        /// Its routine.
        entry: u32,
        /// The routine's argument.
        arg: u32,
        /// Where its stack pointer is.
        sp: u32,
    },
    /// The engine gave up.
    Abort,
    /// The engine ended itself.
    Exit(u32),
}

/// What a call wants done, as mathematics.
pub enum Deed {
    /// Nothing.
    Done,
    /// It cannot go on.
    Fault,
    /// Bytes are to be written out.
    Write(Spot, Seq<u8>),
    /// A file is to be removed.
    Remove(Spot),
    /// Threads that wait for a condition can run.
    Signal(u32),
    /// The thread waits for a condition.
    Wait(u32),
    /// The thread waits until another is done.
    Join(u32),
    /// A thread is to be started.
    Spawn(u32, u32, u32),
    /// The engine gave up.
    Abort,
    /// The engine ended itself.
    Exit(u32),
}

impl View for Action {
    type V = Deed;

    open spec fn view(&self) -> Deed {
        match *self {
            Action::Done => Deed::Done,
            Action::Fault => Deed::Fault,
            Action::Write { place, data } => Deed::Write(place@, data@),
            Action::Remove(p) => Deed::Remove(p@),
            Action::Signal(c) => Deed::Signal(c),
            Action::Wait(c) => Deed::Wait(c),
            Action::Join(k) => Deed::Join(k),
            Action::Spawn { entry, arg, sp } => Deed::Spawn(entry, arg, sp),
            Action::Abort => Deed::Abort,
            Action::Exit(code) => Deed::Exit(code),
        }
    }
}

/// A function of numbers with a fraction.
#[derive(Debug, Clone, Copy, PartialEq, Eq, Structural)]
pub enum Maths {
    /// Square root.
    Sqrt,
    /// Sine.
    Sin,
    /// Cosine.
    Cos,
    /// Tangent.
    Tan,
    /// Arc tangent.
    Atan,
    /// Arc tangent of a quotient.
    Atan2,
    /// Exponential.
    Exp,
    /// Natural logarithm.
    Log,
    /// Decimal logarithm.
    Log10,
    /// Power.
    Pow,
    /// Next whole number below.
    Floor,
    /// Next whole number above.
    Ceil,
    /// Absolute value.
    Fabs,
    /// Remainder.
    Fmod,
}

/// What a call needs to know before it can be made.
#[derive(Debug, Clone)]
pub enum Need {
    /// Nothing.
    Nothing,
    /// What a file holds.
    File(Place),
    /// What a directory holds.
    Names(Place),
    /// What time it is.
    Clock,
    /// A number with a fraction: a function and the bits of its arguments.
    Number(Maths, u64, u64),
    /// The value of a number with a fraction.
    Value(Vec<char>),
    /// How numbers with a fraction are written.
    Texts(Vec<(u64, Spec)>),
    /// The values of numbers with a fraction.
    Values(Vec<String>),
    /// Which thread this is.
    Thread,
    /// Which thread a new one is.
    Enrol,
}

/// What a call needs to know, as mathematics.
pub enum Want {
    /// Nothing.
    Nothing,
    /// What a file holds.
    File(Spot),
    /// What a directory holds.
    Names(Spot),
    /// What time it is.
    Clock,
    /// A number with a fraction.
    Number(Maths, u64, u64),
    /// The value of a number with a fraction.
    Value(Seq<char>),
    /// How numbers with a fraction are written.
    Texts(Seq<(u64, Spec)>),
    /// The values of numbers with a fraction.
    Values(Seq<Seq<char>>),
    /// Which thread this is.
    Thread,
    /// Which thread a new one is.
    Enrol,
}

impl View for Need {
    type V = Want;

    open spec fn view(&self) -> Want {
        match *self {
            Need::Nothing => Want::Nothing,
            Need::File(p) => Want::File(p@),
            Need::Names(p) => Want::Names(p@),
            Need::Clock => Want::Clock,
            Need::Number(f, x, y) => Want::Number(f, x, y),
            Need::Value(s) => Want::Value(s@),
            Need::Texts(v) => Want::Texts(v@),
            Need::Values(v) => Want::Values(strings(v@)),
            Need::Thread => Want::Thread,
            Need::Enrol => Want::Enrol,
        }
    }
}

/// What a call was told.
#[derive(Debug, Clone)]
pub struct Answer {
    /// What the file holds; none where it cannot be read.
    pub file: Option<Vec<u8>>,
    /// What the directory holds; none where it cannot be read.
    pub names: Option<Vec<String>>,
    /// The time, in seconds.
    pub secs: u32,
    /// And what is left of it, in microseconds.
    pub micros: u32,
    /// The bits of a number with a fraction.
    pub bits: u64,
    /// How numbers with a fraction are written.
    pub texts: Vec<String>,
    /// The values of numbers with a fraction.
    pub values: Vec<Bits>,
    /// A thread.
    pub thread: u32,
}

/// What a call was told, as mathematics.
pub struct Given {
    /// What the file holds.
    pub file: Option<Seq<u8>>,
    /// What the directory holds.
    pub names: Option<Seq<Seq<char>>>,
    /// The time, in seconds.
    pub secs: u32,
    /// And what is left of it, in microseconds.
    pub micros: u32,
    /// The bits of a number with a fraction.
    pub bits: u64,
    /// How numbers with a fraction are written.
    pub texts: Seq<Seq<u8>>,
    /// The values of numbers with a fraction.
    pub values: Seq<Bits>,
    /// A thread.
    pub thread: u32,
}

impl View for Answer {
    type V = Given;

    open spec fn view(&self) -> Given {
        Given {
            file: match self.file {
                Some(d) => Some(d@),
                None => None,
            },
            names: match self.names {
                Some(v) => Some(strings(v@)),
                None => None,
            },
            secs: self.secs,
            micros: self.micros,
            bits: self.bits,
            texts: byte_texts(self.texts@),
            values: self.values@,
            thread: self.thread,
        }
    }
}

impl Default for Answer {
    fn default() -> (r: Self)
        ensures
            r.file is None,
            r.names is None,
            r.secs == 0,
            r.micros == 0,
            r.bits == 0,
            r.texts@.len() == 0,
            r.values@.len() == 0,
            r.thread == 0,
    {
        Answer {
            file: None,
            names: None,
            secs: 0,
            micros: 0,
            bits: 0,
            texts: Vec::new(),
            values: Vec::new(),
            thread: 0,
        }
    }
}

/// Whether a call did what it had to. Where it could not go on, nothing is said
/// of what it left.
pub open spec fn came_to(
    rt: Machine,
    c: Cpu,
    m: Space,
    rt1: Machine,
    c1: Cpu,
    m1: Space,
    did: Deed,
    want: (World, Deed),
) -> bool {
    &&& did == want.1
    &&& want.1 != Deed::Fault ==> world(rt1, c1, m1) == want.0
    &&& c1.f == c.f
    &&& c1.fpsr == c.fpsr
    &&& rt1.wf()
}

/// The words on the stack that a call's arguments may be.
pub open spec fn stack_there(r: Seq<u32>, m: Space) -> bool {
    forall|k: int| 0 <= k < 16 ==> #[trigger] word_there(r, m, k)
}

/// Word `k` on the stack is there.
pub open spec fn word_there(r: Seq<u32>, m: Space, k: int) -> bool {
    r[13] + 4 * k <= u32::MAX && m.mapped(r[13] + 4 * k, 4)
}

/// A call's arguments: four registers, and what lies on the stack.
pub open spec fn arguments(r: Seq<u32>, m: Space) -> Seq<u32> {
    Seq::new(
        20,
        |i: int|
            if i < 4 {
                r[i]
            } else {
                m.word(r[13] + 4 * (i - 4))
            },
    )
}

/// Reads a call's arguments; none where the stack is not there.
pub fn take_arguments(c: &Cpu, m: &Mem) -> (r: Option<Vec<u32>>)
    ensures
        match r {
            Some(v) => stack_there(c.r@, m@) && v@ == arguments(c.r@, m@),
            None => !stack_there(c.r@, m@),
        },
{
    let mut v: Vec<u32> = Vec::new();
    v.push(c.r[0]);
    v.push(c.r[1]);
    v.push(c.r[2]);
    v.push(c.r[3]);
    let sp: u32 = c.r[13];
    let mut k: u32 = 0;
    while k < 16
        invariant
            k <= 16,
            c.r@.len() == 16,
            sp == c.r@[13],
            v@ == arguments(c.r@, m@).take(4 + k),
            forall|j: int| 0 <= j < k ==> #[trigger] word_there(c.r@, m@, j),
        decreases 16 - k,
    {
        if sp > u32::MAX - 4 * k || !m.mapped(sp + 4 * k, 4) {
            assert(!word_there(c.r@, m@, k as int));
            return None;
        }
        v.push(m.r32(sp + 4 * k));
        assert(v@ =~= arguments(c.r@, m@).take(4 + k + 1));
        k = k + 1;
    }
    assert(v@ =~= arguments(c.r@, m@));
    Some(v)
}

/// The text at `a`: empty for no address, nothing where there is no text.
pub open spec fn text_in(m: Space, a: u32) -> Option<Seq<char>> {
    if a == 0 {
        Some(lossy(Seq::empty()))
    } else if m.is_text(a as int) {
        Some(lossy(m.text(a as int)))
    } else {
        None
    }
}

/// Reads the text at `a`.
pub fn cstr(m: &Mem, a: u32) -> (r: Option<String>)
    ensures
        match (r, text_in(m@, a)) {
            (Some(t), Some(want)) => t@ == want,
            (None, None) => true,
            _ => false,
        },
{
    if a == 0 {
        let none: Vec<u8> = Vec::new();
        assert(none@ =~= Seq::empty());
        return Some(lossy_text(none.as_slice()));
    }
    match find_text(m, a) {
        Some(_) => Some(lossy_text(text_at(m, a).as_slice())),
        None => None,
    }
}

/// The bytes of the text at `a`.
pub open spec fn bytes_in(m: Space, a: u32) -> Option<Seq<u8>> {
    match text_in(m, a) {
        Some(t) => Some(encode_utf8(t)),
        None => None,
    }
}

/// Reads the bytes of the text at `a`.
pub fn cstr_bytes(m: &Mem, a: u32) -> (r: Option<Vec<u8>>)
    ensures
        match (r, bytes_in(m@, a)) {
            (Some(t), Some(want)) => t@ == want,
            (None, None) => true,
            _ => false,
        },
{
    match cstr(m, a) {
        Some(t) => Some(super::runtime::bytes_of(t.as_str())),
        None => None,
    }
}

} // verus!

//! Which blocks of compiled code were entered: how often each, in what order
//! while a trace runs, and the last of them with the registers they saw.
use std::collections::HashMap;
use vstd::prelude::*;
use crate::data::chars::{hex8, number, push_all, push_hex8, push_str, text_of, written};

verus! {

/// How many of the last blocks are kept.
pub const KEPT: usize = 64;

/// One block entry.
#[derive(Clone, Copy, Debug, PartialEq, Eq)]
pub struct Entered {
    /// The block.
    pub pc: u32,
    /// The registers on entry.
    pub regs: [u32; 16],
}

/// A record of block entries.
pub struct Cover {
    recent: Vec<Entered>,
    hits: HashMap<u32, u64>,
    trace: Vec<u32>,
    tracing: bool,
}

/// A record of block entries as mathematics.
pub struct Entries {
    /// The last blocks, oldest first.
    pub recent: Seq<Entered>,
    /// How often each block was entered.
    pub hits: Map<u32, u64>,
    /// The blocks of the trace.
    pub trace: Seq<u32>,
    /// Whether a trace runs.
    pub tracing: bool,
}

/// A sequence with one more element, and the oldest gone where there would be
/// too many.
pub open spec fn kept(s: Seq<Entered>, e: Entered) -> Seq<Entered> {
    if s.len() < 64 {
        s.push(e)
    } else {
        s.subrange(1, s.len() as int).push(e)
    }
}

impl Entries {
    /// How often a block was entered.
    pub open spec fn count(self, pc: u32) -> int {
        if self.hits.dom().contains(pc) {
            self.hits[pc] as int
        } else {
            0
        }
    }
}

/// The first `n` blocks, eight to a line.
pub open spec fn listed(r: Seq<Entered>, n: nat) -> Seq<char>
    decreases n,
{
    if n == 0 || n > r.len() {
        Seq::empty()
    } else {
        listed(r, (n - 1) as nat) + (if (n - 1) % 8 == 0 {
            "\n   "@
        } else {
            Seq::empty()
        }) + " "@ + hex8(r[n - 1].pc)
    }
}

/// A register's number, two characters wide.
pub open spec fn numbered(k: nat) -> Seq<char> {
    if k < 10 {
        written(k, 10) + " "@
    } else {
        written(k, 10)
    }
}

/// The first `n` registers, four to a line.
pub open spec fn registers(regs: [u32; 16], n: nat) -> Seq<char>
    decreases n,
{
    if n == 0 || n > 16 {
        Seq::empty()
    } else {
        registers(regs, (n - 1) as nat) + (if (n - 1) % 4 == 0 {
            "\n   "@
        } else {
            Seq::empty()
        }) + " r"@ + numbered((n - 1) as nat) + "="@ + hex8(regs@[n - 1])
    }
}

/// What is said of the last blocks: each of them, and the registers on entry to
/// the last.
pub open spec fn where_text(r: Seq<Entered>) -> Seq<char> {
    if r.len() == 0 {
        "\n  (rebuild with `--features xrt-cover` to see where from)"@
    } else {
        "\n  last blocks entered, oldest first:"@ + listed(r, r.len())
            + "\n  registers on entry to "@ + hex8(r.last().pc) + ":"@ + registers(
            r.last().regs,
            16,
        )
    }
}

impl View for Cover {
    type V = Entries;

    closed spec fn view(&self) -> Entries {
        Entries {
            recent: self.recent@,
            hits: self.hits@,
            trace: self.trace@,
            tracing: self.tracing,
        }
    }
}

impl Default for Cover {
    fn default() -> (r: Self)
        ensures
            r@ == (Entries {
                recent: Seq::empty(),
                hits: Map::empty(),
                trace: Seq::empty(),
                tracing: false,
            }),
    {
        Cover { recent: Vec::new(), hits: HashMap::new(), trace: Vec::new(), tracing: false }
    }
}

impl Cover {
    /// Counts a block entry.
    pub fn hit(&mut self, pc: u32, regs: &[u32; 16])
        requires
            old(self)@.count(pc) < u64::MAX,
        ensures
            final(self)@ == (Entries {
                recent: kept(old(self)@.recent, Entered { pc, regs: *regs }),
                hits: old(self)@.hits.insert(pc, (old(self)@.count(pc) + 1) as u64),
                trace: if old(self)@.tracing {
                    old(self)@.trace.push(pc)
                } else {
                    old(self)@.trace
                },
                tracing: old(self)@.tracing,
            }),
    {
        broadcast use vstd::std_specs::hash::group_hash_axioms;

        if self.recent.len() >= KEPT {
            let _oldest: Entered = self.recent.remove(0);
        }
        self.recent.push(Entered { pc, regs: *regs });
        assert(self.recent@ =~= kept(old(self)@.recent, Entered { pc, regs: *regs }));
        let n: u64 = match self.hits.get(&pc) {
            Some(n) => *n,
            None => 0,
        };
        self.hits.insert(pc, n + 1);
        if self.tracing {
            self.trace.push(pc);
        }
    }

    /// The last blocks entered, oldest first.
    pub fn recent(&self) -> (r: Vec<Entered>)
        ensures
            r@ == self@.recent,
    {
        let r: Vec<Entered> = vstd::slice::slice_to_vec(self.recent.as_slice());
        r
    }

    /// Says where the code came from: the last blocks entered, and the registers
    /// on entry to the last of them.
    pub fn where_from(&self) -> (r: String)
        ensures
            r@ == where_text(self@.recent),
    {
        let n: usize = self.recent.len();
        if n == 0 {
            return "\n  (rebuild with `--features xrt-cover` to see where from)".to_owned();
        }
        let mut out: Vec<char> = Vec::new();
        push_str(&mut out, "\n  last blocks entered, oldest first:");
        let ghost head = out@;
        let mut k: usize = 0;
        while k < n
            invariant
                k <= n == self.recent@.len(),
                out@ == head + listed(self.recent@, k as nat),
            decreases n - k,
        {
            if k % 8 == 0 {
                push_str(&mut out, "\n   ");
            }
            push_str(&mut out, " ");
            push_hex8(&mut out, self.recent[k].pc);
            k = k + 1;
            assert(out@ =~= head + listed(self.recent@, k as nat));
        }
        let last: Entered = self.recent[n - 1];
        push_str(&mut out, "\n  registers on entry to ");
        push_hex8(&mut out, last.pc);
        push_str(&mut out, ":");
        let ghost head = out@;
        let mut k: usize = 0;
        while k < 16
            invariant
                k <= 16,
                out@ == head + registers(last.regs, k as nat),
            decreases 16 - k,
        {
            if k % 4 == 0 {
                push_str(&mut out, "\n   ");
            }
            push_str(&mut out, " r");
            let d: Vec<char> = number(k as u128, 10);
            push_all(&mut out, d.as_slice());
            if k < 10 {
                push_str(&mut out, " ");
            }
            push_str(&mut out, "=");
            push_hex8(&mut out, last.regs[k]);
            k = k + 1;
            assert(out@ =~= head + registers(last.regs, k as nat));
        }
        assert(out@ =~= where_text(self.recent@));
        text_of(out.as_slice())
    }

    /// How often a block was entered.
    pub fn hits(&self, pc: u32) -> (r: u64)
        ensures
            r == self@.count(pc),
    {
        broadcast use vstd::std_specs::hash::group_hash_axioms;

        match self.hits.get(&pc) {
            Some(n) => *n,
            None => 0,
        }
    }

    /// Starts a trace, and forgets any before it.
    pub fn trace_start(&mut self)
        ensures
            final(self)@ == (Entries { trace: Seq::empty(), tracing: true, ..old(self)@ }),
    {
        self.trace = Vec::new();
        self.tracing = true;
    }

    /// Ends the trace and takes it.
    pub fn trace_take(&mut self) -> (r: Vec<u32>)
        ensures
            r@ == old(self)@.trace,
            final(self)@ == (Entries { trace: Seq::empty(), tracing: false, ..old(self)@ }),
    {
        self.tracing = false;
        let mut out: Vec<u32> = Vec::new();
        std::mem::swap(&mut self.trace, &mut out);
        out
    }
}

/// Where counted code begins.
pub const BASE: u32 = 0x0010_0000;

/// How many words of code are counted.
pub const SLOTS: usize = 0x0010_0000;

/// How often each word of code was entered, for profiles: one counter per
/// word, and nothing else.
pub struct Profile {
    counts: Vec<u64>,
}

/// The slot of a block, which may be none that is counted.
pub open spec fn slot_of(pc: u32) -> int {
    (pc - 0x0010_0000) % 0x1_0000_0000 / 4
}

/// The blocks among the first `n` slots that were entered, and how often.
pub open spec fn ticked(counts: Seq<u64>, n: nat) -> Seq<(u32, u64)>
    decreases n,
{
    if n == 0 {
        Seq::empty()
    } else {
        let before = ticked(counts, (n - 1) as nat);
        if counts[n - 1] != 0 {
            before.push(((0x0010_0000 + 4 * (n - 1)) as u32, counts[n - 1]))
        } else {
            before
        }
    }
}

impl View for Profile {
    type V = Seq<u64>;

    closed spec fn view(&self) -> Seq<u64> {
        self.counts@
    }
}

impl Profile {
    #[verifier::type_invariant]
    spec fn inv(self) -> bool {
        self.counts@.len() == 0x0010_0000
    }

    /// Counters that all stand at zero.
    pub fn new() -> (r: Self)
        ensures
            r@ == Seq::new(0x0010_0000, |i: int| 0u64),
    {
        let r = Profile { counts: vec![0u64; SLOTS] };
        assert(r@ =~= Seq::new(0x0010_0000, |i: int| 0u64));
        r
    }

    /// Counts a block entry. Blocks outside the counted code are let go.
    pub fn tick(&mut self, pc: u32)
        requires
            slot_of(pc) < 0x0010_0000 ==> old(self)@[slot_of(pc)] < u64::MAX,
        ensures
            final(self)@ == if slot_of(pc) < 0x0010_0000 {
                old(self)@.update(slot_of(pc), (old(self)@[slot_of(pc)] + 1) as u64)
            } else {
                old(self)@
            },
    {
        proof {
            use_type_invariant(&*self);
        }
        let k: usize = (pc.wrapping_sub(BASE) / 4) as usize;
        if k < SLOTS {
            self.counts[k] = self.counts[k] + 1;
        }
    }

    /// Every block that was entered and how often, and the counters back to
    /// zero.
    pub fn take(&mut self) -> (r: Vec<(u32, u64)>)
        ensures
            r@ == ticked(old(self)@, 0x0010_0000),
            final(self)@ == Seq::new(0x0010_0000, |i: int| 0u64),
    {
        proof {
            use_type_invariant(&*self);
        }
        let ghost before = self.counts@;
        let mut out: Vec<(u32, u64)> = Vec::new();
        let mut k: usize = 0;
        while k < SLOTS
            invariant
                k <= SLOTS,
                before.len() == 0x0010_0000,
                self.counts@.len() == before.len(),
                out@ == ticked(before, k as nat),
                forall|i: int| 0 <= i < k ==> #[trigger] self.counts@[i] == 0,
                forall|i: int| k <= i < before.len() ==> #[trigger] self.counts@[i] == before[i],
            decreases SLOTS - k,
        {
            let v: u64 = self.counts[k];
            if v != 0 {
                self.counts[k] = 0;
                out.push((BASE + k as u32 * 4, v));
            }
            k = k + 1;
        }
        assert(self@ =~= Seq::new(0x0010_0000, |i: int| 0u64));
        out
    }
}

/// The blocks entered last are kept in order, no more than 64 of them: a new one
/// comes last, and where there is no room the oldest goes.
pub proof fn last_blocks_are_kept(s: Seq<Entered>, e: Entered, i: int)
    requires
        s.len() <= 64,
    ensures
        kept(s, e).len() <= 64,
        kept(s, e).last() == e,
        s.len() < 64 ==> kept(s, e).len() == s.len() + 1 && kept(s, e).drop_last() == s,
        s.len() == 64 && 0 <= i < 63 ==> kept(s, e).len() == 64 && kept(s, e)[i] == s[i + 1],
{
    if s.len() < 64 {
        assert(kept(s, e).drop_last() =~= s);
    }
}

/// Each word of the counted code has a slot of its own, in order from its start,
/// and a block is told by the address that its slot stands for.
pub proof fn slots_stand_for_addresses(k: int, pc: u32)
    requires
        0 <= k < 0x0010_0000,
    ensures
        slot_of((0x0010_0000 + 4 * k) as u32) == k,
        0x0010_0000 <= pc < 0x0050_0000 <==> slot_of(pc) < 0x0010_0000,
        slot_of(pc) >= 0,
{
}

/// The blocks that are told are those that were entered, each with how often.
pub proof fn entered_blocks_are_told(counts: Seq<u64>, n: nat, pc: u32, c: u64)
    requires
        n <= counts.len() == 0x0010_0000,
    ensures
        ticked(counts, n).contains((pc, c)) <==> pc % 4 == 0 && slot_of(pc) < n && counts[slot_of(
            pc,
        )] == c && c != 0,
    decreases n,
{
    let v = ticked(counts, n);
    if n > 0 {
        entered_blocks_are_told(counts, (n - 1) as nat, pc, c);
        let b = ticked(counts, (n - 1) as nat);
        let last = ((0x0010_0000 + 4 * (n - 1)) as u32, counts[n - 1]);
        slots_stand_for_addresses(n - 1, pc);
        if counts[n - 1] != 0 {
            assert(v == b.push(last));
            if v.contains((pc, c)) {
                let i = choose|i: int| 0 <= i < v.len() && v[i] == (pc, c);
                if i < b.len() {
                    assert(b[i] == (pc, c));
                }
            }
            if b.contains((pc, c)) {
                let i = choose|i: int| 0 <= i < b.len() && b[i] == (pc, c);
                assert(v[i] == (pc, c));
            }
            assert(v[b.len() as int] == last);
        }
    }
}

} // verus!

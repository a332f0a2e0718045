//! How often each block of a compiled routine was entered.
use vstd::prelude::*;

verus! {

/// The blocks of a routine, and how often each was entered.
pub struct Blocks {
    starts: Vec<u32>,
    counts: Vec<u32>,
}

/// Whether blocks are in ascending order.
pub open spec fn ascending(s: Seq<u32>) -> bool {
    forall|i: int, j: int| 0 <= i < j < s.len() ==> s[i] < s[j]
}

/// One more, up to the most that a count can hold.
pub open spec fn one_more(n: u32) -> u32 {
    if n < u32::MAX {
        (n + 1) as u32
    } else {
        n
    }
}

/// Counts after a block was entered: its own is one more, and nothing happens
/// where it is not among them.
pub open spec fn entered(s: Seq<(u32, u32)>, pc: u32) -> Seq<(u32, u32)> {
    s.map_values(
        |e: (u32, u32)|
            if e.0 == pc {
                (e.0, one_more(e.1))
            } else {
                e
            },
    )
}

impl View for Blocks {
    type V = Seq<(u32, u32)>;

    closed spec fn view(&self) -> Seq<(u32, u32)> {
        Seq::new(self.starts@.len(), |i: int| (self.starts@[i], self.counts@[i]))
    }
}

impl Blocks {
    #[verifier::type_invariant]
    spec fn inv(self) -> bool {
        ascending(self.starts@) && self.starts@.len() == self.counts@.len()
    }

    /// Blocks that were never entered.
    pub fn new(starts: Vec<u32>) -> (r: Self)
        requires
            ascending(starts@),
        ensures
            r@ == starts@.map_values(|b: u32| (b, 0u32)),
    {
        let n: usize = starts.len();
        let mut counts: Vec<u32> = Vec::new();
        let mut k: usize = 0;
        while k < n
            invariant
                k <= n,
                counts@ == Seq::new(k as nat, |i: int| 0u32),
            decreases n - k,
        {
            counts.push(0);
            k = k + 1;
            assert(counts@ =~= Seq::new(k as nat, |i: int| 0u32));
        }
        let r = Blocks { starts, counts };
        assert(r@ =~= r.starts@.map_values(|b: u32| (b, 0u32)));
        r
    }

    /// Counts that a block was entered.
    pub fn hit(&mut self, pc: u32)
        ensures
            final(self)@ == entered(old(self)@, pc),
    {
        proof {
            use_type_invariant(&*self);
        }
        let mut lo: usize = 0;
        let mut hi: usize = self.starts.len();
        while lo < hi
            invariant
                lo <= hi <= self.starts@.len(),
                ascending(self.starts@),
                *self == *old(self),
                forall|i: int| 0 <= i < lo ==> #[trigger] self.starts@[i] < pc,
                forall|i: int| hi <= i < self.starts@.len() ==> pc < #[trigger] self.starts@[i],
                self.starts@.len() == self.counts@.len(),
            decreases hi - lo,
        {
            let mid: usize = lo + (hi - lo) / 2;
            if self.starts[mid] == pc {
                let n: u32 = self.counts[mid];
                if n < u32::MAX {
                    self.counts[mid] = n + 1;
                }
                assert(self@ =~= entered(old(self)@, pc));
                return;
            }
            if self.starts[mid] < pc {
                lo = mid + 1;
            } else {
                hi = mid;
            }
        }
        assert(self@ =~= entered(old(self)@, pc));
    }

    /// Every block, and how often it was entered.
    pub fn coverage(&self) -> (r: Vec<(u32, u32)>)
        ensures
            r@ == self@,
    {
        proof {
            use_type_invariant(self);
        }
        let mut out: Vec<(u32, u32)> = Vec::new();
        let mut k: usize = 0;
        while k < self.starts.len()
            invariant
                k <= self.starts@.len() == self.counts@.len(),
                out@ == self@.take(k as int),
            decreases self.starts@.len() - k,
        {
            out.push((self.starts[k], self.counts[k]));
            k = k + 1;
            assert(out@ =~= self@.take(k as int));
        }
        assert(out@ =~= self@);
        out
    }
}

/// Entering a block leaves the count of every other as it was.
pub proof fn other_blocks_stay(s: Seq<(u32, u32)>, pc: u32, i: int)
    requires
        0 <= i < s.len(),
        s[i].0 != pc,
    ensures
        entered(s, pc)[i] == s[i],
        entered(s, pc).len() == s.len(),
{
}

/// Entering a block counts one more for it, up to the most that a count can hold.
pub proof fn entered_blocks_are_counted(s: Seq<(u32, u32)>, pc: u32, i: int)
    requires
        0 <= i < s.len(),
        s[i].0 == pc,
    ensures
        entered(s, pc)[i].0 == pc,
        s[i].1 < u32::MAX ==> entered(s, pc)[i].1 == s[i].1 + 1,
        s[i].1 == u32::MAX ==> entered(s, pc)[i] == s[i],
{
}

} // verus!

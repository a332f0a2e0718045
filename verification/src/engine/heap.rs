//! A heap: blocks are cut off one end, and freed ones are used again.
//!
//! Blocks are multiples of eight bytes. A freed block goes to the next request
//! that it is large enough for, whole.
use std::collections::HashMap;
use vstd::prelude::*;

verus! {

/// Where the heap begins.
pub const HEAP: u32 = 0x1000_0000;

/// How large it is.
pub const HEAP_SIZE: u32 = 0x600_0000;

/// A heap.
pub struct Heap {
    next: u32,
    end: u32,
    live: HashMap<u32, u32>,
    free: Vec<(u32, u32)>,
}

/// A heap as mathematics.
#[verifier::ext_equal]
pub struct Blocks {
    /// Where the part that was never given out begins.
    pub next: int,
    /// Where the heap ends.
    pub end: int,
    /// The size of each block that is in use.
    pub live: Map<u32, u32>,
    /// The blocks to be used again, and their sizes.
    pub free: Seq<(u32, u32)>,
}

/// The size of the block for a request.
pub open spec fn block_size(want: int) -> int {
    ((if want < 1 {
        1
    } else {
        want
    }) + 7) / 8 * 8
}

/// The first freed block of at least `n` bytes, from `from` on; the number of
/// blocks where there is none.
pub open spec fn first_fit(free: Seq<(u32, u32)>, n: int, from: int) -> int
    decreases free.len() - from,
{
    if from >= free.len() {
        free.len() as int
    } else if free[from].1 >= n {
        from
    } else {
        first_fit(free, n, from + 1)
    }
}

/// A sequence with one element taken out and the last in its place.
pub open spec fn taken_out(s: Seq<(u32, u32)>, k: int) -> Seq<(u32, u32)> {
    s.update(k, s[s.len() - 1]).drop_last()
}

impl Blocks {
    /// A heap with nothing in it.
    pub open spec fn fresh() -> Blocks {
        Blocks { next: 0x1000_0000, end: 0x1600_0000, live: Map::empty(), free: Seq::empty() }
    }

    /// Whether a request can be met.
    pub open spec fn has_room(self, want: u32) -> bool {
        first_fit(self.free, block_size(want as int), 0) < self.free.len() || self.next
            + block_size(want as int) <= self.end
    }

    /// The block for a request.
    pub open spec fn block(self, want: u32) -> u32 {
        let k = first_fit(self.free, block_size(want as int), 0);
        if k < self.free.len() {
            self.free[k].0
        } else {
            self.next as u32
        }
    }

    /// The heap after a request.
    pub open spec fn after(self, want: u32) -> Blocks {
        let n = block_size(want as int);
        let k = first_fit(self.free, n, 0);
        if k < self.free.len() {
            Blocks {
                live: self.live.insert(self.free[k].0, self.free[k].1),
                free: taken_out(self.free, k),
                ..self
            }
        } else {
            Blocks {
                next: self.next + n,
                live: self.live.insert(self.next as u32, n as u32),
                ..self
            }
        }
    }

    /// The heap with a block freed. Freeing what is no block does nothing.
    pub open spec fn freed(self, a: u32) -> Blocks {
        if a != 0 && self.live.dom().contains(a) {
            Blocks {
                live: self.live.remove(a),
                free: self.free.push((a, self.live[a])),
                ..self
            }
        } else {
            self
        }
    }

    /// The size of a block, zero where it is none.
    pub open spec fn size(self, a: u32) -> u32 {
        if self.live.dom().contains(a) {
            self.live[a]
        } else {
            0
        }
    }

    /// Blocks lie inside the part that was given out and do not overlap.
    pub open spec fn wf(self) -> bool {
        &&& 0x1000_0000 <= self.next <= self.end <= 0xffff_ffff
        &&& forall|a: u32|
            #[trigger] self.live.dom().contains(a) ==> block_inside(a, self.live[a], self.next)
        &&& forall|i: int|
            0 <= i < self.free.len() ==> block_inside(
                (#[trigger] self.free[i]).0,
                self.free[i].1,
                self.next,
            )
        &&& forall|a: u32, b: u32|
            #![trigger self.live.dom().contains(a), self.live.dom().contains(b)]
            self.live.dom().contains(a) && self.live.dom().contains(b) && a < b ==> a + self.live[a]
                <= b
        &&& forall|a: u32, i: int|
            #![trigger self.live.dom().contains(a), self.free[i]]
            self.live.dom().contains(a) && 0 <= i < self.free.len() ==> a + self.live[a]
                <= self.free[i].0 || self.free[i].0 + self.free[i].1 <= a
        &&& forall|i: int, j: int|
            0 <= i < j < self.free.len() ==> (#[trigger] self.free[i]).0 + self.free[i].1 <= (
            #[trigger] self.free[j]).0 || self.free[j].0 + self.free[j].1 <= self.free[i].0
    }
}

/// Whether a block lies between the heap's start and `next`, and is not empty.
pub open spec fn block_inside(a: u32, n: u32, next: int) -> bool {
    0x1000_0000 <= a && 8 <= n && a + n <= next
}

impl View for Heap {
    type V = Blocks;

    closed spec fn view(&self) -> Blocks {
        Blocks {
            next: self.next as int,
            end: self.end as int,
            live: self.live@,
            free: self.free@,
        }
    }
}

impl Heap {
    /// A heap with nothing in it.
    pub fn new() -> (r: Heap)
        ensures
            r@ == Blocks::fresh(),
            r@.wf(),
    {
        let r = Heap {
            next: HEAP,
            end: HEAP + HEAP_SIZE,
            live: HashMap::new(),
            free: Vec::new(),
        };
        assert(r@ =~= Blocks::fresh());
        r
    }

    /// The size of the block for a request.
    fn rounded(want: u32) -> (r: u64)
        ensures
            r == block_size(want as int),
    {
        let n: u64 = if want < 1 {
            1
        } else {
            want as u64
        };
        (n + 7) / 8 * 8
    }

    /// The first freed block of at least `n` bytes.
    fn fit(&self, n: u64) -> (r: usize)
        ensures
            r == first_fit(self@.free, n as int, 0),
            r <= self@.free.len(),
    {
        let mut k: usize = 0;
        while k < self.free.len()
            invariant
                k <= self.free@.len(),
                first_fit(self@.free, n as int, 0) == first_fit(self@.free, n as int, k as int),
            decreases self.free@.len() - k,
        {
            if self.free[k].1 as u64 >= n {
                return k;
            }
            k = k + 1;
        }
        k
    }

    /// Whether a request can be met.
    pub fn has_room(&self, want: u32) -> (r: bool)
        ensures
            r == self@.has_room(want),
    {
        let n: u64 = Heap::rounded(want);
        self.fit(n) < self.free.len() || self.next as u64 + n <= self.end as u64
    }

    /// Gives out a block.
    pub fn allot(&mut self, want: u32) -> (r: u32)
        requires
            old(self)@.wf(),
            old(self)@.has_room(want),
        ensures
            r == old(self)@.block(want),
            final(self)@ == old(self)@.after(want),
            final(self)@.wf(),
    {
        broadcast use vstd::std_specs::hash::group_hash_axioms;

        let n: u64 = Heap::rounded(want);
        let k: usize = self.fit(n);
        proof {
            requests_keep_blocks_apart(self@, want);
        }
        if k < self.free.len() {
            let (a, s) = self.free.swap_remove(k);
            assert(self.free@ =~= taken_out(old(self)@.free, k as int));
            self.live.insert(a, s);
            return a;
        }
        let a: u32 = self.next;
        self.next = a + n as u32;
        self.live.insert(a, n as u32);
        a
    }

    /// Takes a block back.
    pub fn free(&mut self, a: u32)
        requires
            old(self)@.wf(),
        ensures
            final(self)@ == old(self)@.freed(a),
            final(self)@.wf(),
    {
        broadcast use vstd::std_specs::hash::group_hash_axioms;

        proof {
            freeing_keeps_blocks_apart(self@, a);
        }
        if a == 0 {
            return;
        }
        match self.live.remove(&a) {
            Some(n) => {
                self.free.push((a, n));
            },
            None => {
                assert(self@ =~= old(self)@);
            },
        }
    }

    /// The size of a block, zero where it is none.
    pub fn size(&self, a: u32) -> (r: u32)
        ensures
            r == self@.size(a),
    {
        broadcast use vstd::std_specs::hash::group_hash_axioms;

        match self.live.get(&a) {
            Some(n) => *n,
            None => 0,
        }
    }
}

proof fn fit_is_large_enough(free: Seq<(u32, u32)>, n: int, from: int)
    requires
        0 <= from <= free.len(),
    ensures
        from <= first_fit(free, n, from) <= free.len(),
        first_fit(free, n, from) < free.len() ==> free[first_fit(free, n, from)].1 >= n,
    decreases free.len() - from,
{
    if from < free.len() && free[from].1 < n {
        fit_is_large_enough(free, n, from + 1);
    }
}

/// A request is met by a block that is large enough, was not in use, and
/// overlaps no block that is; and the heap stays in order.
pub proof fn requests_keep_blocks_apart(h: Blocks, want: u32)
    requires
        h.wf(),
        h.has_room(want),
    ensures
        h.after(want).wf(),
        h.after(want).live.dom().contains(h.block(want)),
        h.after(want).live[h.block(want)] >= want,
        !h.live.dom().contains(h.block(want)),
        forall|a: u32| #[trigger]
            h.live.dom().contains(a) ==> h.after(want).live.dom().contains(a)
                && h.after(want).live[a] == h.live[a] && (a + h.live[a] <= h.block(want)
                || h.block(want) + h.after(want).live[h.block(want)] <= a),
{
    let n = block_size(want as int);
    fit_is_large_enough(h.free, n, 0);
    let k = first_fit(h.free, n, 0);
    let b = h.block(want);
    let g = h.after(want);
    assert(n >= want && n >= 8);
    if k < h.free.len() {
        let s = h.free[k].1;
        assert(block_inside(b, s, h.next));
        if h.live.dom().contains(b) {
            assert(b + h.live[b] <= h.free[k].0 || h.free[k].0 + h.free[k].1 <= b);
        }
        assert forall|i: int| 0 <= i < g.free.len() implies #[trigger] g.free[i] == h.free[if i == k {
            h.free.len() - 1
        } else {
            i
        }] by {}
        assert forall|a: u32, i: int|
            #![trigger g.live.dom().contains(a), g.free[i]]
            g.live.dom().contains(a) && 0 <= i < g.free.len() implies a + g.live[a] <= g.free[i].0
            || g.free[i].0 + g.free[i].1 <= a by {
            let j = if i == k {
                h.free.len() - 1
            } else {
                i
            };
            assert(g.free[i] == h.free[j]);
            if a == b {
                assert(j != k);
                assert(h.free[k] == h.free[k] && h.free[j] == h.free[j]);
            } else {
                assert(h.live.dom().contains(a));
            }
        }
        assert forall|i: int, j: int| 0 <= i < j < g.free.len() implies (#[trigger] g.free[i]).0
            + g.free[i].1 <= (#[trigger] g.free[j]).0 || g.free[j].0 + g.free[j].1 <= g.free[i].0 by {
            let x = if i == k {
                h.free.len() - 1
            } else {
                i
            };
            let y = if j == k {
                h.free.len() - 1
            } else {
                j
            };
            assert(g.free[i] == h.free[x] && g.free[j] == h.free[y]);
            assert(x != y);
        }
        assert forall|x: u32, y: u32|
            #![trigger g.live.dom().contains(x), g.live.dom().contains(y)]
            g.live.dom().contains(x) && g.live.dom().contains(y) && x < y implies x + g.live[x]
            <= y by {
            if x == b {
                assert(h.live.dom().contains(y));
                assert(y + h.live[y] <= h.free[k].0 || h.free[k].0 + h.free[k].1 <= y);
            } else if y == b {
                assert(h.live.dom().contains(x));
                assert(x + h.live[x] <= h.free[k].0 || h.free[k].0 + h.free[k].1 <= x);
            } else {
                assert(h.live.dom().contains(x) && h.live.dom().contains(y));
            }
        }
        assert forall|a: u32| #[trigger] h.live.dom().contains(a) implies a + h.live[a] <= b || b + s
            <= a by {
            assert(a + h.live[a] <= h.free[k].0 || h.free[k].0 + h.free[k].1 <= a);
        }
    } else {
        if h.live.dom().contains(b) {
            assert(block_inside(b, h.live[b], h.next));
        }
        assert forall|a: u32| #[trigger] h.live.dom().contains(a) implies a + h.live[a] <= b by {
            assert(block_inside(a, h.live[a], h.next));
        }
        assert forall|i: int| 0 <= i < h.free.len() implies (#[trigger] h.free[i]).0 + h.free[i].1
            <= b by {
            assert(block_inside(h.free[i].0, h.free[i].1, h.next));
        }
        assert forall|x: u32, y: u32|
            #![trigger g.live.dom().contains(x), g.live.dom().contains(y)]
            g.live.dom().contains(x) && g.live.dom().contains(y) && x < y implies x + g.live[x]
            <= y by {
            if x != b {
                assert(h.live.dom().contains(x));
            }
            if y != b {
                assert(h.live.dom().contains(y));
            }
        }
    }
}

/// Freeing keeps the heap in order.
pub proof fn freeing_keeps_blocks_apart(h: Blocks, a: u32)
    requires
        h.wf(),
    ensures
        h.freed(a).wf(),
        !h.freed(a).live.dom().contains(a) || a == 0,
{
    let g = h.freed(a);
    if a != 0 && h.live.dom().contains(a) {
        let n = h.free.len() as int;
        assert(block_inside(a, h.live[a], h.next));
        assert forall|i: int| 0 <= i < g.free.len() implies block_inside(
            (#[trigger] g.free[i]).0,
            g.free[i].1,
            g.next,
        ) by {
            if i < n {
                assert(g.free[i] == h.free[i]);
            }
        }
        assert forall|x: u32, i: int|
            #![trigger g.live.dom().contains(x), g.free[i]]
            g.live.dom().contains(x) && 0 <= i < g.free.len() implies x + g.live[x] <= g.free[i].0
            || g.free[i].0 + g.free[i].1 <= x by {
            assert(h.live.dom().contains(x));
            if i < n {
                assert(g.free[i] == h.free[i]);
            }
        }
        assert forall|i: int, j: int| 0 <= i < j < g.free.len() implies (#[trigger] g.free[i]).0
            + g.free[i].1 <= (#[trigger] g.free[j]).0 || g.free[j].0 + g.free[j].1 <= g.free[i].0 by {
            assert(g.free[i] == h.free[i]);
            if j < n {
                assert(g.free[j] == h.free[j]);
            } else {
                assert(a + h.live[a] <= h.free[i].0 || h.free[i].0 + h.free[i].1 <= a);
            }
        }
        assert forall|x: u32, y: u32|
            #![trigger g.live.dom().contains(x), g.live.dom().contains(y)]
            g.live.dom().contains(x) && g.live.dom().contains(y) && x < y implies x + g.live[x]
            <= y by {
            assert(h.live.dom().contains(x) && h.live.dom().contains(y));
        }
    }
}

/// A freed block is given out again for the next request that it is large enough
/// for, unless one that was freed before it is too.
pub proof fn freed_blocks_are_given_again(h: Blocks, a: u32, want: u32)
    requires
        a != 0,
        h.live.dom().contains(a),
        want <= h.size(a),
        h.size(a) % 8 == 0,
        h.size(a) > 0,
        forall|i: int| 0 <= i < h.free.len() ==> (#[trigger] h.free[i]).1 < want,
    ensures
        h.freed(a).has_room(want),
        h.freed(a).block(want) == a,
        h.freed(a).after(want).live == h.live,
        h.freed(a).after(want).free == h.free,
        h.freed(a).after(want).next == h.next,
{
    let g = h.freed(a);
    let n = block_size(want as int);
    assert forall|i: int| 0 <= i < h.free.len() implies (#[trigger] g.free[i]).1 < n by {
        assert(g.free[i] == h.free[i]);
    }
    fit_is_first(g.free, n, 0, h.free.len() as int);
    assert(g.after(want).live =~= h.live);
    assert(g.after(want).free =~= h.free);
}

proof fn fit_is_first(free: Seq<(u32, u32)>, n: int, from: int, k: int)
    requires
        0 <= from <= k <= free.len(),
        forall|i: int| from <= i < k ==> (#[trigger] free[i]).1 < n,
        k < free.len() ==> free[k].1 >= n,
    ensures
        first_fit(free, n, from) == k,
    decreases k - from,
{
    if from < k {
        fit_is_first(free, n, from + 1, k);
    }
}

/// Where no freed block is large enough, the next one comes from behind all that
/// was given out, and is the request rounded up to eight bytes.
pub proof fn new_blocks_come_from_the_end(h: Blocks, want: u32)
    requires
        h.wf(),
        forall|i: int| 0 <= i < h.free.len() ==> (#[trigger] h.free[i]).1 < want,
        h.has_room(want),
    ensures
        h.block(want) == h.next,
        h.after(want).next == h.next + h.after(want).size(h.block(want)),
        h.after(want).size(h.block(want)) % 8 == 0,
        want <= h.after(want).size(h.block(want)),
        want > 0 ==> h.after(want).size(h.block(want)) < want + 8,
        want == 0 ==> h.after(want).size(h.block(want)) == 8,
        h.after(want).free == h.free,
{
    fit_is_first(h.free, block_size(want as int), 0, h.free.len() as int);
}

} // verus!

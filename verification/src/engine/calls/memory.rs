//! Calls for blocks of the heap.
use vstd::prelude::*;
use crate::engine::heap::{Blocks, Heap};
use crate::engine::runtime::zeros;
use crate::xrt::mem::{Mem, Space};
use crate::xrt::text::{copy_forward, fill, forward, reachable};

verus! {

/// A call for a block.
#[derive(Debug, Clone, Copy, PartialEq, Eq, Structural)]
pub enum HeapCall {
    /// A block.
    Block,
    /// A block of zeros.
    Zeroed,
    /// A block of another size.
    Resize,
    /// A block is given back.
    Release,
}

/// A product, or the largest word where it is larger.
pub open spec fn limited(x: u32, y: u32) -> u32 {
    if x * y <= u32::MAX {
        (x * y) as u32
    } else {
        u32::MAX
    }
}

/// How much of a block stays when it becomes `n` bytes long.
pub open spec fn kept(h: Blocks, a: u32, n: u32) -> u32 {
    if h.size(a) < n {
        h.size(a)
    } else {
        n
    }
}

/// What a call for a block gives: the heap, memory and a word, where it gives
/// one. Nothing where it cannot be made.
pub open spec fn heap_effect(call: HeapCall, h: Blocks, m: Space, a: Seq<u32>) -> Option<
    (Blocks, Space, Option<u32>),
> {
    match call {
        HeapCall::Block => if h.has_room(a[0]) {
            Some((h.after(a[0]), m, Some(h.block(a[0]))))
        } else {
            None
        },
        HeapCall::Zeroed => {
            let n = limited(a[0], a[1]);
            let p = h.block(n);
            if h.has_room(n) && m.reachable(p as int, n as int) {
                Some((h.after(n), m.write(p as int, zeros(n as int)), Some(p)))
            } else {
                None
            }
        },
        HeapCall::Resize => {
            let (old, n) = (a[0], a[1]);
            let p = h.block(n);
            let k = kept(h, old, n);
            if !h.has_room(n) {
                None
            } else if old == 0 {
                Some((h.after(n), m, Some(p)))
            } else if m.reachable(old as int, k as int) && m.reachable(p as int, k as int) {
                Some(
                    (
                        h.after(n).freed(old),
                        forward(m, p as int, old as int, k as nat),
                        Some(p),
                    ),
                )
            } else {
                None
            }
        },
        HeapCall::Release => Some((h.freed(a[0]), m, None)),
    }
}

/// Makes a call for a block: whether it could be made, and the word it gives.
pub fn heap_call(call: HeapCall, h: &mut Heap, m: &mut Mem, a: &[u32]) -> (r: Option<Option<u32>>)
    requires
        a@.len() == 20,
        old(h)@.wf(),
    ensures
        final(h)@.wf(),
        match (r, heap_effect(call, old(h)@, old(m)@, a@)) {
            (Some(v), Some((blocks, w, want))) => v == want && final(h)@ == blocks && final(m)@
                == w,
            (None, None) => true,
            _ => false,
        },
{
    match call {
        HeapCall::Block => {
            if !h.has_room(a[0]) {
                return None;
            }
            Some(Some(h.allot(a[0])))
        },
        HeapCall::Zeroed => {
            assert(0 <= a@[0] * a@[1] <= u32::MAX * u32::MAX) by (nonlinear_arith)
                requires
                    0 <= a@[0] <= u32::MAX,
                    0 <= a@[1] <= u32::MAX,
            ;
            let wide: u64 = a[0] as u64 * a[1] as u64;
            let n: u32 = if wide <= u32::MAX as u64 {
                wide as u32
            } else {
                u32::MAX
            };
            if !h.has_room(n) {
                return None;
            }
            let p: u32 = h.allot(n);
            if !reachable(m, p, n as u64) {
                return None;
            }
            fill(m, p, 0, n);
            Some(Some(p))
        },
        HeapCall::Resize => {
            let (old_block, n) = (a[0], a[1]);
            if !h.has_room(n) {
                return None;
            }
            let size: u32 = h.size(old_block);
            let k: u32 = if size < n {
                size
            } else {
                n
            };
            let p: u32 = h.allot(n);
            if old_block == 0 {
                return Some(Some(p));
            }
            if !reachable(m, old_block, k as u64) || !reachable(m, p, k as u64) {
                return None;
            }
            copy_forward(m, p, old_block, k);
            h.free(old_block);
            Some(Some(p))
        },
        HeapCall::Release => {
            h.free(a[0]);
            Some(None)
        },
    }
}

/// A block that is resized keeps what it held, as far as it reaches, and moves
/// to where no block was.
pub proof fn resizing_keeps_contents(h: Blocks, m: Space, a: Seq<u32>)
    requires
        h.wf(),
        a[0] != 0,
        h.live.dom().contains(a[0]),
        heap_effect(HeapCall::Resize, h, m, a) is Some,
    ensures
        ({
            let (g, w, p) = heap_effect(HeapCall::Resize, h, m, a)->Some_0;
            let k = kept(h, a[0], a[1]) as nat;
            &&& p is Some
            &&& !h.live.dom().contains(p->Some_0)
            &&& w.read(p->Some_0 as int, k) == m.read(a[0] as int, k)
            &&& g.size(p->Some_0) >= a[1]
        }),
{
    crate::engine::heap::requests_keep_blocks_apart(h, a[1]);
    let p = h.block(a[1]);
    let k = kept(h, a[0], a[1]) as nat;
    crate::xrt::text::forward_copies(m, p as int, a[0] as int, k);
    crate::xrt::mem::reads_see_writes(m, p as int, m.read(a[0] as int, k), 0, 0);
    assert(h.after(a[1]).live.dom().contains(a[0]));
    assert(p != a[0]);
    assert(h.after(a[1]).freed(a[0]).live.dom().contains(p));
}

/// A block that is asked for zeroed holds as many zeros as the product of its
/// counts, and nothing outside it has changed.
pub proof fn zeroed_blocks_hold_zeros(h: Blocks, m: Space, a: Seq<u32>)
    requires
        h.wf(),
        heap_effect(HeapCall::Zeroed, h, m, a) is Some,
    ensures
        ({
            let (g, w, p) = heap_effect(HeapCall::Zeroed, h, m, a)->Some_0;
            let n = a[0] * a[1];
            &&& p is Some
            &&& !h.live.dom().contains(p->Some_0)
            &&& n <= u32::MAX ==> g.size(p->Some_0) >= n && forall|i: int|
                0 <= i < n ==> #[trigger] w.at(p->Some_0 + i) == 0
            &&& forall|i: int|
                i < p->Some_0 || p->Some_0 + g.size(p->Some_0) <= i ==> #[trigger] w.at(i) == m.at(
                    i,
                )
        }),
{
    crate::engine::heap::requests_keep_blocks_apart(h, limited(a[0], a[1]));
}

/// A block that was released is none any more, and every other stays.
pub proof fn released_blocks_are_gone(h: Blocks, m: Space, a: Seq<u32>, b: u32)
    requires
        h.wf(),
        a[0] != 0,
        b != a[0],
    ensures
        heap_effect(HeapCall::Release, h, m, a) matches Some((g, w, p)) && w == m && p is None
            && g.size(a[0]) == 0 && g.size(b) == h.size(b) && g.next == h.next,
        a[0] != 0 && h.live.dom().contains(a[0]) ==> (heap_effect(
            HeapCall::Resize,
            h,
            m,
            a,
        ) matches Some((g, w, p)) ==> g.size(a[0]) == 0),
{
    crate::engine::heap::freeing_keeps_blocks_apart(h, a[0]);
}

} // verus!

//! Bytes and zero-terminated text in memory.
use vstd::prelude::*;
use super::mem::{Mem, Space};

verus! {

impl Space {
    /// Whether each of `n` bytes at `a` is mapped and has an address.
    pub open spec fn reachable(self, a: int, n: int) -> bool {
        &&& 0 <= a
        &&& a + n <= 0x1_0000_0000
        &&& forall|i: int| 0 <= i < n ==> #[trigger] self.mapped(a + i, 1)
    }

    /// Whether the text at `a` is `n` bytes long.
    pub open spec fn ends(self, a: int, n: nat) -> bool {
        &&& self.reachable(a, n as int + 1)
        &&& self.at(a + n) == 0
        &&& forall|i: int| 0 <= i < n ==> #[trigger] self.at(a + i) != 0
    }

    /// Whether there is a text at `a`.
    pub open spec fn is_text(self, a: int) -> bool {
        exists|n: nat| self.ends(a, n)
    }

    /// How long the text at `a` is.
    pub open spec fn text_len(self, a: int) -> nat {
        choose|n: nat| self.ends(a, n)
    }

    /// The text at `a`.
    pub open spec fn text(self, a: int) -> Seq<u8> {
        self.read(a, self.text_len(a))
    }
}

/// A text has one length.
pub proof fn texts_have_one_length(m: Space, a: int, n: nat)
    requires
        m.ends(a, n),
    ensures
        m.is_text(a),
        m.text_len(a) == n,
{
    let k = m.text_len(a);
    assert(m.ends(a, k));
    if k < n {
        assert(m.at(a + k) != 0);
    }
    if n < k {
        assert(m.at(a + n) != 0);
    }
}

/// How long the text at `a` is.
pub fn text_len(m: &Mem, a: u32) -> (r: u32)
    requires
        m@.is_text(a as int),
    ensures
        r == m@.text_len(a as int),
        a + r <= u32::MAX,
        m@.ends(a as int, r as nat),
{
    let ghost n = m@.text_len(a as int);
    let mut k: u32 = 0;
    while m.r8(a + k) != 0
        invariant
            m@.ends(a as int, n),
            k <= n,
            m@.mapped(a + k, 1),
            a + k <= u32::MAX,
            forall|i: int| 0 <= i < k ==> #[trigger] m@.at(a + i) != 0,
        decreases n - k,
    {
        assert(k < n);
        assert(m@.mapped(a + (k + 1), 1));
        k = k + 1;
    }
    proof {
        if k < n {
            assert(m@.at(a + k) != 0);
        }
    }
    k
}

/// Whether each of `n` bytes at `a` is mapped and has an address.
pub fn reachable(m: &Mem, a: u32, n: u64) -> (r: bool)
    ensures
        r == m@.reachable(a as int, n as int),
{
    if n > 0x1_0000_0000 - a as u64 {
        return false;
    }
    let mut k: u64 = 0;
    while k < n
        invariant
            k <= n,
            a + n <= 0x1_0000_0000,
            forall|i: int| 0 <= i < k ==> #[trigger] m@.mapped(a + i, 1),
        decreases n - k,
    {
        if !m.mapped((a as u64 + k) as u32, 1) {
            assert(!m@.mapped(a + k, 1));
            return false;
        }
        k = k + 1;
    }
    true
}

/// How long the text at `a` is, where there is one.
pub fn find_text(m: &Mem, a: u32) -> (r: Option<u32>)
    ensures
        match r {
            Some(n) => m@.is_text(a as int) && m@.text_len(a as int) == n && m@.ends(
                a as int,
                n as nat,
            ),
            None => !m@.is_text(a as int),
        },
{
    let mut k: u32 = 0;
    loop
        invariant
            a + k <= u32::MAX,
            forall|i: int| 0 <= i < k ==> #[trigger] m@.mapped(a + i, 1),
            forall|i: int| 0 <= i < k ==> #[trigger] m@.at(a + i) != 0,
        decreases u32::MAX - k,
    {
        if !m.mapped(a + k, 1) {
            assert forall|n: nat| !#[trigger] m@.ends(a as int, n) by {
                if m@.ends(a as int, n) {
                    if n < k {
                        assert(m@.at(a + n) != 0);
                    }
                    assert(m@.mapped(a + k, 1));
                }
            }
            return None;
        }
        if m.r8(a + k) == 0 {
            assert(m@.reachable(a as int, k + 1));
            assert(m@.ends(a as int, k as nat));
            proof {
                texts_have_one_length(m@, a as int, k as nat);
            }
            return Some(k);
        }
        if a + k == u32::MAX {
            assert forall|n: nat| !#[trigger] m@.ends(a as int, n) by {
                if m@.ends(a as int, n) {
                    if n < k {
                        assert(m@.mapped(a + n, 1) && m@.at(a + n) != 0);
                    }
                }
            }
            return None;
        }
        k = k + 1;
    }
}

/// `n` bytes at `a`, which may lie in several regions.
pub fn bytes_at(m: &Mem, a: u32, n: u32) -> (r: Vec<u8>)
    requires
        m@.reachable(a as int, n as int),
    ensures
        r@ == m@.read(a as int, n as nat),
{
    let mut out: Vec<u8> = Vec::new();
    let mut k: u32 = 0;
    while k < n
        invariant
            k <= n,
            m@.reachable(a as int, n as int),
            out@ == m@.read(a as int, k as nat),
        decreases n - k,
    {
        assert(m@.mapped(a + k, 1));
        out.push(m.r8(a + k));
        assert(out@ =~= m@.read(a as int, (k + 1) as nat));
        k = k + 1;
    }
    out
}

/// The text at `a`.
pub fn text_at(m: &Mem, a: u32) -> (r: Vec<u8>)
    requires
        m@.is_text(a as int),
    ensures
        r@ == m@.text(a as int),
        a + r@.len() <= u32::MAX,
{
    let n: u32 = text_len(m, a);
    bytes_at(m, a, n)
}

/// Puts bytes at `a`, one after the other.
pub fn put_bytes(m: &mut Mem, a: u32, s: &[u8])
    requires
        old(m)@.reachable(a as int, s@.len() as int),
    ensures
        final(m)@ == old(m)@.write(a as int, s@),
{
    let ghost before = m@;
    let mut k: usize = 0;
    assert(m@ =~= before.write(a as int, s@.take(0)));
    while k < s.len()
        invariant
            k <= s@.len(),
            before.reachable(a as int, s@.len() as int),
            m@ == before.write(a as int, s@.take(k as int)),
        decreases s@.len() - k,
    {
        proof {
            super::mem::reads_see_writes(before, a as int, s@.take(k as int), a + k, 1);
            assert(before.mapped(a + k, 1));
        }
        m.w8(a + k as u32, s[k]);
        assert(m@ =~= before.write(a as int, s@.take(k + 1)));
        k = k + 1;
    }
    assert(s@.take(s@.len() as int) =~= s@);
}

/// A text as it lies in memory: its bytes and a zero.
pub open spec fn terminated(s: Seq<u8>) -> Seq<u8> {
    s.push(0)
}

/// Puts a text at `a`.
pub fn put_cstr(m: &mut Mem, a: u32, s: &[u8])
    requires
        old(m)@.reachable(a as int, s@.len() as int + 1),
    ensures
        final(m)@ == old(m)@.write(a as int, terminated(s@)),
{
    let ghost before = m@;
    let mut t: Vec<u8> = vstd::slice::slice_to_vec(s);
    t.push(0);
    assert(t@ =~= terminated(s@));
    put_bytes(m, a, t.as_slice());
}

/// A text that holds no zero reads back as it was put.
pub proof fn texts_read_back(m: Space, a: int, s: Seq<u8>)
    requires
        m.reachable(a, s.len() as int + 1),
        forall|i: int| 0 <= i < s.len() ==> #[trigger] s[i] != 0,
    ensures
        m.write(a, terminated(s)).is_text(a),
        m.write(a, terminated(s)).text(a) == s,
{
    let w = m.write(a, terminated(s));
    assert forall|i: int| 0 <= i < s.len() + 1 implies #[trigger] w.mapped(a + i, 1) by {
        super::mem::reads_see_writes(m, a, terminated(s), a + i, 1);
        assert(m.mapped(a + i, 1));
    }
    assert(w.at(a + s.len()) == 0);
    assert forall|i: int| 0 <= i < s.len() implies #[trigger] w.at(a + i) != 0 by {
        assert(s[i] != 0);
    }
    assert(w.ends(a, s.len()));
    texts_have_one_length(w, a, s.len());
    assert(w.text(a) =~= s);
}

/// `n` bytes copied from `s` to `d`, first to last, each read after the ones
/// before it were written.
pub open spec fn forward(m: Space, d: int, s: int, n: nat) -> Space
    decreases n,
{
    if n == 0 {
        m
    } else {
        let w = forward(m, d, s, (n - 1) as nat);
        w.write(d + n - 1, seq![w.at(s + n - 1)])
    }
}

/// A forward copy keeps every region.
pub proof fn forward_keeps_regions(m: Space, d: int, s: int, n: nat)
    ensures
        forward(m, d, s, n).extents == m.extents,
    decreases n,
{
    if n > 0 {
        forward_keeps_regions(m, d, s, (n - 1) as nat);
    }
}

/// Regions decide what is reachable.
pub proof fn regions_decide(m: Space, w: Space)
    requires
        m.extents == w.extents,
    ensures
        forall|a: int, n: int| #[trigger] m.mapped(a, n) == w.mapped(a, n),
        forall|a: int, n: int| #[trigger] m.reachable(a, n) == w.reachable(a, n),
{
    assert forall|a: int, n: int| #[trigger] m.mapped(a, n) == w.mapped(a, n) by {
        assert forall|k: int| m.inside(k, a, n) == #[trigger] w.inside(k, a, n) by {}
        if m.mapped(a, n) {
            let k = choose|k: int| m.inside(k, a, n);
            assert(w.inside(k, a, n));
        }
        if w.mapped(a, n) {
            let k = choose|k: int| w.inside(k, a, n);
            assert(m.inside(k, a, n));
        }
    }
    assert forall|a: int, n: int| #[trigger] m.reachable(a, n) == w.reachable(a, n) by {
        if m.reachable(a, n) {
            assert forall|i: int| 0 <= i < n implies #[trigger] w.mapped(a + i, 1) by {
                assert(m.mapped(a + i, 1));
            }
        }
        if w.reachable(a, n) {
            assert forall|i: int| 0 <= i < n implies #[trigger] m.mapped(a + i, 1) by {
                assert(w.mapped(a + i, 1));
            }
        }
    }
}

/// Where the target does not lie past the start of the source and inside it, a
/// forward copy moves the bytes as they were.
pub proof fn forward_copies(m: Space, d: int, s: int, n: nat)
    requires
        d <= s || s + n <= d,
    ensures
        forward(m, d, s, n) == m.write(d, m.read(s, n)),
    decreases n,
{
    if n > 0 {
        forward_copies(m, d, s, (n - 1) as nat);
        let w = m.write(d, m.read(s, (n - 1) as nat));
        assert(w.at(s + n - 1) == m.at(s + n - 1));
        assert(forward(m, d, s, n) =~= m.write(d, m.read(s, n)));
    } else {
        assert(m =~= m.write(d, m.read(s, 0)));
    }
}

/// Copies bytes, first to last.
pub fn copy_forward(m: &mut Mem, d: u32, s: u32, n: u32)
    requires
        old(m)@.reachable(d as int, n as int),
        old(m)@.reachable(s as int, n as int),
    ensures
        final(m)@ == forward(old(m)@, d as int, s as int, n as nat),
{
    let ghost before = m@;
    let mut k: u32 = 0;
    while k < n
        invariant
            k <= n,
            before.reachable(d as int, n as int),
            before.reachable(s as int, n as int),
            m@ == forward(before, d as int, s as int, k as nat),
        decreases n - k,
    {
        proof {
            forward_keeps_regions(before, d as int, s as int, k as nat);
            regions_decide(before, m@);
            assert(before.mapped(d + k, 1) && before.mapped(s + k, 1));
        }
        let b: u8 = m.r8(s + k);
        m.w8(d + k, b);
        k = k + 1;
    }
}

/// Sets bytes.
pub fn fill(m: &mut Mem, d: u32, v: u8, n: u32)
    requires
        old(m)@.reachable(d as int, n as int),
    ensures
        final(m)@ == old(m)@.write(d as int, Seq::new(n as nat, |i: int| v)),
{
    let ghost before = m@;
    let ghost all = Seq::new(n as nat, |i: int| v);
    let mut k: u32 = 0;
    assert(m@ =~= before.write(d as int, all.take(0)));
    while k < n
        invariant
            k <= n,
            before.reachable(d as int, n as int),
            all == Seq::new(n as nat, |i: int| v),
            m@ == before.write(d as int, all.take(k as int)),
        decreases n - k,
    {
        proof {
            super::mem::reads_see_writes(before, d as int, all.take(k as int), d + k, 1);
            assert(before.mapped(d + k, 1));
        }
        m.w8(d + k, v);
        assert(m@ =~= before.write(d as int, all.take(k + 1)));
        k = k + 1;
    }
    assert(all.take(n as int) =~= all);
}

/// The first of `n` places at which two runs of bytes differ, or, where
/// `texts` says so, at which both end; `n` where there is none.
pub open spec fn parting(m: Space, a: int, b: int, k: int, n: int, texts: bool) -> int
    decreases n - k,
{
    if k >= n {
        n
    } else if m.at(a + k) != m.at(b + k) || (texts && m.at(a + k) == 0) {
        k
    } else {
        parting(m, a, b, k + 1, n, texts)
    }
}

/// How two runs of bytes compare: the difference where they part, or zero.
pub open spec fn difference(m: Space, a: int, b: int, n: int, texts: bool) -> int {
    let k = parting(m, a, b, 0, n, texts);
    if k >= n {
        0
    } else {
        m.at(a + k) - m.at(b + k)
    }
}

/// Whether two runs of bytes are reachable up to where they part.
pub open spec fn comparable(m: Space, a: int, b: int, n: int, texts: bool) -> bool {
    let k = parting(m, a, b, 0, n, texts);
    let need = if k < n {
        k + 1
    } else {
        n
    };
    m.reachable(a, need) && m.reachable(b, need)
}

/// A place where runs part lies between the start and the end.
pub proof fn parting_bounds(m: Space, a: int, b: int, k: int, n: int, texts: bool)
    requires
        k <= n,
    ensures
        k <= parting(m, a, b, k, n, texts) <= n,
    decreases n - k,
{
    if k < n {
        parting_bounds(m, a, b, k + 1, n, texts);
    }
}

/// Compares two runs of bytes.
pub fn compare(m: &Mem, a: u32, b: u32, n: u32, texts: bool) -> (r: i32)
    requires
        comparable(m@, a as int, b as int, n as int, texts),
    ensures
        r == difference(m@, a as int, b as int, n as int, texts),
        -255 <= r <= 255,
{
    let mut k: u32 = 0;
    while k < n
        invariant
            k <= n,
            comparable(m@, a as int, b as int, n as int, texts),
            parting(m@, a as int, b as int, 0, n as int, texts) == parting(
                m@,
                a as int,
                b as int,
                k as int,
                n as int,
                texts,
            ),
        decreases n - k,
    {
        proof {
            parting_bounds(m@, a as int, b as int, k as int, n as int, texts);
            assert(m@.mapped(a + k, 1) && m@.mapped(b + k, 1));
        }
        let (x, y) = (m.r8(a + k), m.r8(b + k));
        if x != y || (texts && x == 0) {
            return x as i32 - y as i32;
        }
        k = k + 1;
    }
    0
}

/// Whether `needle` stands in `hay` at `at`.
pub open spec fn stands(hay: Seq<u8>, needle: Seq<u8>, at: int) -> bool {
    0 <= at && at + needle.len() <= hay.len() && hay.subrange(at, at + needle.len()) == needle
}

/// The first place at which `needle` stands in `hay`.
pub open spec fn first_found(hay: Seq<u8>, needle: Seq<u8>, r: Option<int>) -> bool {
    match r {
        Some(k) => stands(hay, needle, k) && forall|j: int|
            0 <= j < k ==> !#[trigger] stands(hay, needle, j),
        None => forall|j: int| !#[trigger] stands(hay, needle, j),
    }
}

/// Whether `needle` stands in `hay` at `at`.
fn stands_at(hay: &[u8], needle: &[u8], at: usize) -> (r: bool)
    requires
        at + needle@.len() <= hay@.len(),
    ensures
        r == stands(hay@, needle@, at as int),
{
    let size: usize = hay.len();
    let mut k: usize = 0;
    while k < needle.len()
        invariant
            k <= needle@.len(),
            at + needle@.len() <= hay@.len() == size,
            forall|j: int| 0 <= j < k ==> hay@[at + j] == #[trigger] needle@[j],
        decreases needle@.len() - k,
    {
        if hay[at + k] != needle[k] {
            assert(hay@.subrange(at as int, at + needle@.len())[k as int] != needle@[k as int]);
            return false;
        }
        k = k + 1;
    }
    assert(hay@.subrange(at as int, at + needle@.len()) =~= needle@);
    true
}

/// The first place at which `needle` stands in `hay`.
pub fn find_bytes(hay: &[u8], needle: &[u8]) -> (r: Option<usize>)
    ensures
        first_found(
            hay@,
            needle@,
            match r {
                Some(k) => Some(k as int),
                None => None,
            },
        ),
{
    if needle.len() > hay.len() {
        return None;
    }
    let last: usize = hay.len() - needle.len();
    let mut at: usize = 0;
    while at <= last
        invariant
            at <= last + 1,
            last + needle@.len() == hay@.len(),
            hay@.len() <= usize::MAX,
            forall|j: int| 0 <= j < at ==> !#[trigger] stands(hay@, needle@, j),
        decreases last + 1 - at,
    {
        if stands_at(hay, needle, at) {
            return Some(at);
        }
        if at == last {
            return None;
        }
        at = at + 1;
    }
    None
}

} // verus!

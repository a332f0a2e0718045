//! Memory: bytes in regions that do not overlap, under addresses of 32 bits.
//!
//! Words are little-endian. An access lies inside one region.
use vstd::prelude::*;

verus! {

/// How many addresses there are.
pub const SPACE: u64 = 0x1_0000_0000;

/// Memory as mathematics: where the regions are, and what each byte holds.
#[verifier::ext_equal]
pub struct Space {
    /// Each region's first address and length, in the order they were mapped.
    pub extents: Seq<(int, int)>,
    /// The byte at each address; zero where nothing is mapped.
    pub bytes: spec_fn(int) -> u8,
}

impl Space {
    /// Memory with no regions.
    pub open spec fn empty() -> Space {
        Space { extents: Seq::empty(), bytes: |i: int| 0u8 }
    }

    /// The byte at `a`.
    pub open spec fn at(self, a: int) -> u8 {
        (self.bytes)(a)
    }

    /// Whether region `k` holds `n` bytes at `a`.
    pub open spec fn inside(self, k: int, a: int, n: int) -> bool {
        0 <= k < self.extents.len() && self.extents[k].0 <= a && a + n <= self.extents[k].0
            + self.extents[k].1
    }

    /// Whether some region holds `n` bytes at `a`.
    pub open spec fn mapped(self, a: int, n: int) -> bool {
        exists|k: int| #[trigger] self.inside(k, a, n)
    }

    /// Whether `len` addresses at `base` exist and belong to no region.
    pub open spec fn vacant(self, base: int, len: int) -> bool {
        &&& 0 <= base
        &&& 0 <= len
        &&& base + len <= 0x1_0000_0000
        &&& forall|k: int|
            0 <= k < self.extents.len() ==> base + len <= (#[trigger] self.extents[k]).0 || base
                >= self.extents[k].0 + self.extents[k].1
    }

    /// With some bytes replaced.
    pub open spec fn write(self, a: int, s: Seq<u8>) -> Space {
        Space {
            extents: self.extents,
            bytes: |i: int|
                if a <= i < a + s.len() {
                    s[i - a]
                } else {
                    self.at(i)
                },
        }
    }

    /// With one more region.
    pub open spec fn map(self, base: int, s: Seq<u8>) -> Space {
        Space {
            extents: self.extents.push((base, s.len() as int)),
            bytes: self.write(base, s).bytes,
        }
    }

    /// `n` bytes at `a`.
    pub open spec fn read(self, a: int, n: nat) -> Seq<u8> {
        Seq::new(n, |i: int| self.at(a + i))
    }

    /// The halfword at `a`.
    pub open spec fn half(self, a: int) -> u16 {
        (self.at(a) + 0x100 * self.at(a + 1)) as u16
    }

    /// The word at `a`.
    pub open spec fn word(self, a: int) -> u32 {
        (self.at(a) + 0x100 * self.at(a + 1) + 0x1_0000 * self.at(a + 2) + 0x100_0000
            * self.at(a + 3)) as u32
    }
}

/// The bytes of a halfword.
pub open spec fn half_bytes(v: u16) -> Seq<u8> {
    seq![(v % 0x100) as u8, (v / 0x100) as u8]
}

/// The bytes of a word.
pub open spec fn word_bytes(v: u32) -> Seq<u8> {
    seq![
        (v % 0x100) as u8,
        (v / 0x100 % 0x100) as u8,
        (v / 0x1_0000 % 0x100) as u8,
        (v / 0x100_0000) as u8,
    ]
}

/// One region.
struct Region {
    base: u32,
    data: Vec<u8>,
}

/// Whether region `k` holds the byte at `a`.
spec fn holds(rs: Seq<Region>, k: int, a: int) -> bool {
    0 <= k < rs.len() && rs[k].base <= a < rs[k].base + rs[k].data@.len()
}

/// The byte at `a`.
spec fn byte_in(rs: Seq<Region>, a: int) -> u8 {
    if exists|k: int| holds(rs, k, a) {
        let k = choose|k: int| holds(rs, k, a);
        rs[k].data@[a - rs[k].base]
    } else {
        0
    }
}

/// Regions that fit the address space and do not overlap.
spec fn apart(rs: Seq<Region>) -> bool {
    &&& forall|k: int|
        0 <= k < rs.len() ==> (#[trigger] rs[k]).base + rs[k].data@.len() <= 0x1_0000_0000
    &&& forall|j: int, k: int|
        0 <= j < k < rs.len() ==> (#[trigger] rs[j]).base + rs[j].data@.len() <= (
        #[trigger] rs[k]).base || rs[j].base >= rs[k].base + rs[k].data@.len()
}

/// Regions as mathematics.
spec fn space_of(rs: Seq<Region>) -> Space {
    Space {
        extents: Seq::new(rs.len(), |k: int| (rs[k].base as int, rs[k].data@.len() as int)),
        bytes: |a: int| byte_in(rs, a),
    }
}

proof fn one_region_holds(rs: Seq<Region>, k: int, a: int)
    requires
        apart(rs),
        holds(rs, k, a),
    ensures
        space_of(rs).at(a) == rs[k].data@[a - rs[k].base],
{
    let j = choose|j: int| holds(rs, j, a);
    assert(holds(rs, j, a));
    if j < k {
        assert(rs[j].base + rs[j].data@.len() <= rs[k].base || rs[j].base >= rs[k].base
            + rs[k].data@.len());
    } else if k < j {
        assert(rs[k].base + rs[k].data@.len() <= rs[j].base || rs[k].base >= rs[j].base
            + rs[j].data@.len());
    }
}

/// Memory.
pub struct Mem {
    regions: Vec<Region>,
}

impl View for Mem {
    type V = Space;

    closed spec fn view(&self) -> Space {
        space_of(self.regions@)
    }
}

impl Default for Mem {
    fn default() -> (r: Self)
        ensures
            r@ == Space::empty(),
    {
        Mem::new()
    }
}

impl Mem {
    #[verifier::type_invariant]
    spec fn apart(self) -> bool {
        apart(self.regions@)
    }

    /// Memory with no regions.
    pub fn new() -> (r: Self)
        ensures
            r@ == Space::empty(),
    {
        let r = Mem { regions: Vec::new() };
        assert(r@ =~= Space::empty());
        r
    }

    /// Maps `len` zero bytes at `base`.
    pub fn zeroed(&mut self, base: u32, len: u32)
        requires
            old(self)@.vacant(base as int, len as int),
        ensures
            final(self)@ == old(self)@.map(base as int, Seq::new(len as nat, |i: int| 0u8)),
    {
        let data: Vec<u8> = vec![0u8; len as usize];
        assert(data@ =~= Seq::new(len as nat, |i: int| 0u8));
        self.map(base, data);
    }

    /// Maps bytes at `base`.
    pub fn map(&mut self, base: u32, data: Vec<u8>)
        requires
            old(self)@.vacant(base as int, data@.len() as int),
        ensures
            final(self)@ == old(self)@.map(base as int, data@),
    {
        proof {
            use_type_invariant(&*self);
        }
        let ghost before = self.regions@;
        let ghost region = Region { base, data };
        proof {
            let after = before.push(region);
            assert forall|k: int| 0 <= k < before.len() implies base + data@.len() <= (
            #[trigger] before[k]).base || base >= before[k].base + before[k].data@.len() by {
                assert(self@.extents[k] == (before[k].base as int, before[k].data@.len() as int));
            }
            assert(apart(after));
            let want = space_of(before).map(base as int, data@);
            assert(space_of(after).extents =~= want.extents);
            assert forall|a: int| #[trigger] (space_of(after).bytes)(a) == (want.bytes)(a) by {
                assert((space_of(after).bytes)(a) == space_of(after).at(a));
                if base <= a < base + data@.len() {
                    assert(holds(after, before.len() as int, a));
                    one_region_holds(after, before.len() as int, a);
                } else if exists|k: int| holds(before, k, a) {
                    let k = choose|k: int| holds(before, k, a);
                    one_region_holds(before, k, a);
                    assert(holds(after, k, a));
                    one_region_holds(after, k, a);
                } else if exists|k: int| holds(after, k, a) {
                    let k = choose|k: int| holds(after, k, a);
                    assert(holds(before, k, a));
                }
            }
            assert(space_of(after).bytes =~= want.bytes);
            assert(space_of(after) =~= want);
        }
        let mut rs: Vec<Region> = Vec::new();
        std::mem::swap(&mut self.regions, &mut rs);
        rs.push(Region { base, data });
        std::mem::swap(&mut self.regions, &mut rs);
    }

    /// Memory that holds an image: regions, each with its bytes.
    pub fn with_image(image: &[(u32, &[u8])]) -> (r: Self)
        requires
            forall|k: int|
                0 <= k < image@.len() ==> imaged(image@, k as nat).vacant(
                    (#[trigger] image@[k]).0 as int,
                    image@[k].1@.len() as int,
                ),
        ensures
            r@ == imaged(image@, image@.len()),
    {
        let mut m = Mem::new();
        let mut k: usize = 0;
        while k < image.len()
            invariant
                k <= image@.len(),
                m@ == imaged(image@, k as nat),
                forall|j: int|
                    0 <= j < image@.len() ==> imaged(image@, j as nat).vacant(
                        (#[trigger] image@[j]).0 as int,
                        image@[j].1@.len() as int,
                    ),
            decreases image@.len() - k,
        {
            let (base, bytes) = image[k];
            assert(image@[k as int] == (base, bytes));
            m.map(base, vstd::slice::slice_to_vec(bytes));
            k = k + 1;
        }
        m
    }

    /// The region that holds `n` bytes at `a`.
    fn find(&self, a: u32, n: u64) -> (r: Option<usize>)
        ensures
            match r {
                Some(k) => k < self.regions@.len() && self@.inside(k as int, a as int, n as int),
                None => !self@.mapped(a as int, n as int),
            },
    {
        proof {
            use_type_invariant(self);
        }
        let mut k: usize = 0;
        while k < self.regions.len()
            invariant
                k <= self.regions@.len(),
                forall|j: int| 0 <= j < k ==> !#[trigger] self@.inside(j, a as int, n as int),
            decreases self.regions@.len() - k,
        {
            let r: &Region = &self.regions[k];
            assert(self@.extents[k as int] == (r.base as int, r.data@.len() as int));
            if a >= r.base && (a - r.base) as u128 + n as u128 <= r.data.len() as u128 {
                return Some(k);
            }
            assert(!self@.inside(k as int, a as int, n as int));
            k = k + 1;
        }
        None
    }

    /// Whether `len` addresses at `base` exist and belong to no region.
    pub fn vacant(&self, base: u32, len: u64) -> (r: bool)
        ensures
            r == self@.vacant(base as int, len as int),
    {
        if len > SPACE - base as u64 {
            return false;
        }
        let mut k: usize = 0;
        while k < self.regions.len()
            invariant
                k <= self.regions@.len(),
                base + len <= 0x1_0000_0000,
                forall|j: int|
                    0 <= j < k ==> base + len <= (#[trigger] self@.extents[j]).0 || base
                        >= self@.extents[j].0 + self@.extents[j].1,
            decreases self.regions@.len() - k,
        {
            let b: u64 = self.regions[k].base as u64;
            let n: usize = self.regions[k].data.len();
            assert(self@.extents[k as int] == (b as int, n as int));
            if base as u64 + len > b && (base as u128) < b as u128 + n as u128 {
                return false;
            }
            k = k + 1;
        }
        true
    }

    /// Whether `n` bytes at `a` are inside a region.
    pub fn mapped(&self, a: u32, n: u32) -> (r: bool)
        ensures
            r == self@.mapped(a as int, n as int),
    {
        match self.find(a, n as u64) {
            Some(_) => true,
            None => false,
        }
    }

    /// The byte at `a`.
    pub fn r8(&self, a: u32) -> (r: u8)
        requires
            self@.mapped(a as int, 1),
        ensures
            r == self@.at(a as int),
    {
        match self.find(a, 1) {
            Some(k) => {
                proof {
                    use_type_invariant(self);
                    assert(self@.extents[k as int].0 == self.regions@[k as int].base);
                    assert(holds(self.regions@, k as int, a as int));
                    one_region_holds(self.regions@, k as int, a as int);
                }
                self.regions[k].data[(a - self.regions[k].base) as usize]
            },
            None => 0,
        }
    }

    /// `n` bytes at `a`.
    pub fn read(&self, a: u32, n: usize) -> (r: Vec<u8>)
        requires
            self@.mapped(a as int, n as int),
        ensures
            r@ == self@.read(a as int, n as nat),
    {
        match self.find(a, n as u64) {
            Some(k) => {
                let base: u32 = self.regions[k].base;
                assert(self@.extents[k as int] == (
                    base as int,
                    self.regions@[k as int].data@.len() as int,
                ));
                let from: usize = (a - base) as usize;
                let size: usize = self.regions[k].data.len();
                assert(from + n <= size);
                let r: Vec<u8> = vstd::slice::slice_to_vec(
                    vstd::slice::slice_subrange(self.regions[k].data.as_slice(), from, from + n),
                );
                proof {
                    use_type_invariant(self);
                    assert forall|i: int| 0 <= i < n implies r@[i] == self@.at(a + i) by {
                        assert(holds(self.regions@, k as int, a + i));
                        one_region_holds(self.regions@, k as int, a + i);
                    }
                    assert(r@ =~= self@.read(a as int, n as nat));
                }
                r
            },
            None => Vec::new(),
        }
    }

    /// The halfword at `a`.
    pub fn r16(&self, a: u32) -> (r: u16)
        requires
            self@.mapped(a as int, 2),
        ensures
            r == self@.half(a as int),
    {
        let b: Vec<u8> = self.read(a, 2);
        b[0] as u16 + 0x100 * b[1] as u16
    }

    /// The word at `a`.
    pub fn r32(&self, a: u32) -> (r: u32)
        requires
            self@.mapped(a as int, 4),
        ensures
            r == self@.word(a as int),
    {
        let b: Vec<u8> = self.read(a, 4);
        b[0] as u32 + 0x100 * b[1] as u32 + 0x1_0000 * b[2] as u32 + 0x100_0000 * b[3] as u32
    }

    /// Replaces bytes at `a`.
    pub fn write(&mut self, a: u32, bytes: &[u8])
        requires
            old(self)@.mapped(a as int, bytes@.len() as int),
        ensures
            final(self)@ == old(self)@.write(a as int, bytes@),
    {
        match self.find(a, bytes.len() as u64) {
            Some(k) => {
                proof {
                    use_type_invariant(&*self);
                }
                let ghost before = self.regions@;
                let base: u32 = self.regions[k].base;
                let from: usize = (a - base) as usize;
                assert(self@.extents[k as int] == (
                    base as int,
                    self.regions@[k as int].data@.len() as int,
                ));
                let mut rs: Vec<Region> = Vec::new();
                std::mem::swap(&mut self.regions, &mut rs);
                put_all(&mut rs, k, from, bytes);
                std::mem::swap(&mut self.regions, &mut rs);
                proof {
                    written_region(before, self.regions@, k as int, from as int, bytes@);
                }
            },
            None => {},
        }
    }

    /// Replaces the byte at `a`.
    pub fn w8(&mut self, a: u32, v: u8)
        requires
            old(self)@.mapped(a as int, 1),
        ensures
            final(self)@ == old(self)@.write(a as int, seq![v]),
    {
        let b: [u8; 1] = [v];
        assert(b@ =~= seq![v]);
        self.write(a, &b);
    }

    /// Replaces the halfword at `a`.
    pub fn w16(&mut self, a: u32, v: u16)
        requires
            old(self)@.mapped(a as int, 2),
        ensures
            final(self)@ == old(self)@.write(a as int, half_bytes(v)),
    {
        let b: [u8; 2] = [(v % 0x100) as u8, (v / 0x100) as u8];
        assert(b@ =~= half_bytes(v));
        self.write(a, &b);
    }

    /// Replaces the word at `a`.
    pub fn w32(&mut self, a: u32, v: u32)
        requires
            old(self)@.mapped(a as int, 4),
        ensures
            final(self)@ == old(self)@.write(a as int, word_bytes(v)),
    {
        let b: [u8; 4] = [
            (v % 0x100) as u8,
            (v / 0x100 % 0x100) as u8,
            (v / 0x1_0000 % 0x100) as u8,
            (v / 0x100_0000) as u8,
        ];
        assert(b@ =~= word_bytes(v));
        self.write(a, &b);
    }
}

/// The memory that the first `n` regions of an image make.
pub open spec fn imaged(image: Seq<(u32, &[u8])>, n: nat) -> Space
    decreases n,
{
    if n == 0 {
        Space::empty()
    } else {
        imaged(image, (n - 1) as nat).map(image[n - 1].0 as int, image[n - 1].1@)
    }
}

/// Bytes with some of them replaced.
spec fn patched(data: Seq<u8>, from: int, s: Seq<u8>) -> Seq<u8> {
    Seq::new(
        data.len(),
        |i: int|
            if from <= i < from + s.len() {
                s[i - from]
            } else {
                data[i]
            },
    )
}

/// Replaces bytes of region `k`.
fn put_all(rs: &mut Vec<Region>, k: usize, from: usize, bytes: &[u8])
    requires
        k < old(rs)@.len(),
        apart(old(rs)@),
        from + bytes@.len() <= old(rs)@[k as int].data@.len(),
    ensures
        final(rs)@.len() == old(rs)@.len(),
        apart(final(rs)@),
        forall|j: int|
            0 <= j < old(rs)@.len() && j != k ==> #[trigger] final(rs)@[j] == old(rs)@[j],
        final(rs)@[k as int].base == old(rs)@[k as int].base,
        final(rs)@[k as int].data@ == patched(old(rs)@[k as int].data@, from as int, bytes@),
{
    let ghost before = rs@;
    let region: &mut Region = &mut rs[k];
    let ghost data = region.data@;
    let ghost base = region.base;
    let size: usize = region.data.len();
    let mut i: usize = 0;
    while i < bytes.len()
        invariant
            i <= bytes@.len(),
            from + bytes@.len() <= data.len() == size,
            region.base == base,
            region.data@ == patched(data, from as int, bytes@.take(i as int)),
        decreases bytes@.len() - i,
    {
        region.data[from + i] = bytes[i];
        assert(region.data@ =~= patched(data, from as int, bytes@.take(i + 1)));
        i = i + 1;
    }
    assert(bytes@.take(bytes@.len() as int) =~= bytes@);
}

proof fn written_region(
    before: Seq<Region>,
    after: Seq<Region>,
    k: int,
    from: int,
    s: Seq<u8>,
)
    requires
        apart(before),
        apart(after),
        0 <= k < before.len(),
        after.len() == before.len(),
        0 <= from,
        from + s.len() <= before[k].data@.len(),
        forall|j: int| 0 <= j < before.len() && j != k ==> #[trigger] after[j] == before[j],
        after[k].base == before[k].base,
        after[k].data@ == patched(before[k].data@, from, s),
    ensures
        space_of(after) == space_of(before).write(before[k].base + from, s),
{
    let a = before[k].base + from;
    let want = space_of(before).write(a, s);
    assert forall|j: int| 0 <= j < before.len() implies (#[trigger] after[j]).base == before[j].base
        && after[j].data@.len() == before[j].data@.len() by {
        if j != k {
            assert(after[j] == before[j]);
        }
    }
    assert(space_of(after).extents =~= want.extents);
    assert forall|x: int| #[trigger] (space_of(after).bytes)(x) == (want.bytes)(x) by {
                assert((space_of(after).bytes)(x) == space_of(after).at(x));
        if a <= x < a + s.len() {
            assert(holds(after, k, x));
            one_region_holds(after, k, x);
        } else if exists|j: int| holds(before, j, x) {
            let j = choose|j: int| holds(before, j, x);
            assert(holds(after, j, x));
            one_region_holds(before, j, x);
            one_region_holds(after, j, x);
            if j != k {
                assert(after[j] == before[j]);
            }
        } else if exists|j: int| holds(after, j, x) {
            let j = choose|j: int| holds(after, j, x);
            assert(holds(before, j, x));
        }
    }
    assert(space_of(after).bytes =~= want.bytes);
    assert(space_of(after) =~= want);
}

/// A read gives back what was written, and writes elsewhere do not show.
pub proof fn reads_see_writes(m: Space, a: int, s: Seq<u8>, b: int, n: nat)
    ensures
        m.write(a, s).read(a, s.len()) == s,
        (b + n <= a || a + s.len() <= b) ==> m.write(a, s).read(b, n) == m.read(b, n),
        m.write(a, s).mapped(b, n as int) == m.mapped(b, n as int),
{
    let w = m.write(a, s);
    assert(w.read(a, s.len()) =~= s);
    if b + n <= a || a + s.len() <= b {
        assert(w.read(b, n) =~= m.read(b, n));
    }
    assert forall|k: int| w.inside(k, b, n as int) == #[trigger] m.inside(k, b, n as int) by {}
    if w.mapped(b, n as int) {
        let k = choose|k: int| w.inside(k, b, n as int);
        assert(m.inside(k, b, n as int));
    }
    if m.mapped(b, n as int) {
        let k = choose|k: int| m.inside(k, b, n as int);
        assert(w.inside(k, b, n as int));
    }
}

/// A word or halfword that was written reads back.
pub proof fn words_read_back(m: Space, a: int, v: u32, h: u16)
    ensures
        m.write(a, word_bytes(v)).word(a) == v,
        m.write(a, half_bytes(h)).half(a) == h,
{
}

} // verus!

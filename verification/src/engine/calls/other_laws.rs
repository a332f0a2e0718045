//! What holds of the calls on directories, numbers, modules and threads.
use vstd::prelude::*;
use vstd::utf8::encode_utf8;
use crate::engine::files::{file_of, OpenFile};
use crate::engine::runtime::OpenDir;
use crate::engine::world::{Deed, Given, World};
use crate::xrt::flags::as_signed;
use crate::xrt::mem::words_read_back;
use super::others::{
    dir_at, last_name, module_at, module_handle, next_seed, other_does, quotient, remainder,
    OtherCall,
};

verus! {

/// Division of signed numbers rounds toward zero: the quotient and the
/// remainder together make up the dividend, and the remainder is smaller than
/// the divisor and has the dividend's sign. By zero, both are zero.
pub proof fn division_comes_out(w: World, a: Seq<u32>, g: Given)
    requires
        w.r.len() > 0,
        !(as_signed(a[0]) == -0x8000_0000 && as_signed(a[1]) == -1),
    ensures
        ({
            let (x, y) = (as_signed(a[0]), as_signed(a[1]));
            let q = as_signed(other_does(OtherCall::Divide, w, a, g).0.r[0]);
            let r = as_signed(other_does(OtherCall::Remainder, w, a, g).0.r[0]);
            if y == 0 {
                q == 0 && r == 0
            } else {
                &&& y * q + r == x
                &&& -y < r < y || y < r < -y
                &&& r != 0 ==> (r < 0 <==> x < 0)
            }
        }),
{
    let (x, y) = (as_signed(a[0]), as_signed(a[1]));
    let (q, r) = (quotient(x, y), remainder(x, y));
    if y != 0 {
        let u = if x < 0 {
            -x
        } else {
            x
        };
        let v = if y < 0 {
            -y
        } else {
            y
        };
        let d = u / v;
        assert(0 <= d <= u && v * d <= u && u < v * d + v && (v > 1 ==> 2 * d <= u))
            by (nonlinear_arith)
            requires
                d == u / v,
                u >= 0,
                v > 0,
        ;
        assert(y * d == v * d || y * d == -(v * d)) by (nonlinear_arith)
            requires
                y == v || y == -v,
        ;
        assert(y * (-d) == -(y * d)) by (nonlinear_arith);
        assert(q == d || q == -d);
        assert((x < 0) == (y < 0) ==> q == d);
        assert((x < 0) != (y < 0) ==> q == -d);
        assert(y < 0 ==> y * d == -(v * d)) by (nonlinear_arith)
            requires
                y < 0 ==> v == -y,
        ;
        assert(y >= 0 ==> v == y);
        assert(x >= 0 ==> y * q == v * d);
        assert(x < 0 ==> y * q == -(v * d));
        assert(-0x8000_0000 <= q < 0x8000_0000);
        assert(-0x8000_0000 <= r < 0x8000_0000);
    }
}

/// Division of unsigned numbers comes out too.
pub proof fn unsigned_division_comes_out(w: World, a: Seq<u32>, g: Given)
    requires
        w.r.len() > 0,
        a[1] > 0,
    ensures
        ({
            let q = other_does(OtherCall::DivideUnsigned, w, a, g).0.r[0];
            let r = other_does(OtherCall::RemainderUnsigned, w, a, g).0.r[0];
            a[1] * q + r == a[0] && r < a[1]
        }),
{
    let (x, y) = (a[0] as int, a[1] as int);
    assert(y * (x / y) + x % y == x && 0 <= x % y < y && 0 <= x / y <= x) by (nonlinear_arith)
        requires
            y > 0,
            x >= 0,
    ;
}

/// Random numbers have 15 bits and follow from the seed alone.
pub proof fn random_numbers_follow_their_seed(w: World, u: World, a: Seq<u32>, g: Given)
    requires
        w.r.len() > 0,
        u.r.len() > 0,
    ensures
        ({
            let x = other_does(OtherCall::Random, other_does(OtherCall::Seed, w, a, g).0, a, g).0;
            let y = other_does(OtherCall::Random, other_does(OtherCall::Seed, u, a, g).0, a, g).0;
            x.r[0] == y.r[0] && x.rt.seed == y.rt.seed && x.r[0] < 0x8000 && x.r[0] == (x.rt.seed
                / 0x1_0000) % 0x8000
        }),
{
}

/// The seed moves by a fixed factor and a fixed step: the seed zero leads to the
/// step, and seeds one apart lead to seeds a factor apart.
pub proof fn seeds_move_apart_by_a_factor(s: u32)
    requires
        s < u32::MAX,
    ensures
        next_seed(0) == 12345,
        (next_seed((s + 1) as u32) - next_seed(s)) % 0x1_0000_0000 == 1103515245,
{
    let p = s * 1103515245 + 12345;
    let q = p + 1103515245;
    assert((s + 1) * 1103515245 + 12345 == q);
    assert(0 <= p % 0x1_0000_0000 < 0x1_0000_0000);
    assert(q % 0x1_0000_0000 - p % 0x1_0000_0000 == 1103515245 || q % 0x1_0000_0000 - p
        % 0x1_0000_0000 == 1103515245 - 0x1_0000_0000);
}

/// A directory hands out its names one after the other, each with a zero behind
/// it at the place for names, and zero when there are none left.
pub proof fn directories_hand_out_their_names(w: World, a: Seq<u32>, g: Given, i: int)
    requires
        w.r.len() > 0,
        0 <= i < w.rt.dirs.len(),
        w.rt.dirs[i].key == a[0],
        forall|j: int| 0 <= j < i ==> (#[trigger] w.rt.dirs[j]).key != a[0],
    ensures
        ({
            let d = w.rt.dirs[i];
            let (x, deed) = other_does(OtherCall::ReadDir, w, a, g);
            if d.at >= d.names.len() {
                x.r[0] == 0 && x.rt == w.rt && x.m == w.m && deed is Done
            } else {
                let name = encode_utf8(d.names[d.at]);
                deed is Fault || (deed is Done && x.r[0] == d.ent && x.m.read(
                    d.ent + 11,
                    name.len(),
                ) == name && x.m.at(d.ent + 11 + name.len()) == 0 && x.rt.dirs[i] == OpenDir {
                    at: d.at + 1,
                    ..d
                })
            }
        }),
{
    dir_is_first(w.rt.dirs, a[0], 0, i);
    let d = w.rt.dirs[i];
    let (x, deed) = other_does(OtherCall::ReadDir, w, a, g);
    if d.at < d.names.len() && !(deed is Fault) {
        let name = encode_utf8(d.names[d.at]);
        assert(x.m.read(d.ent + 11, name.len()) =~= name);
    }
}

proof fn dir_is_first(v: Seq<OpenDir>, k: u32, from: int, i: int)
    requires
        0 <= from <= i < v.len(),
        v[i].key == k,
        forall|j: int| from <= j < i ==> (#[trigger] v[j]).key != k,
    ensures
        dir_at(v, k, from) == i,
    decreases i - from,
{
    if from < i {
        dir_is_first(v, k, from + 1, i);
    }
}

proof fn last_name_is_last(dir: Seq<char>, name: Seq<char>)
    requires
        forall|i: int| 0 <= i < name.len() ==> #[trigger] name[i] != '/' && name[i] != '\\',
        dir.len() > 0 ==> dir.last() == '/' || dir.last() == '\\',
    ensures
        last_name(dir + name) == name,
    decreases name.len(),
{
    let s = dir + name;
    if name.len() > 0 {
        assert(s.last() == name.last() == name[name.len() - 1]);
        assert(s.drop_last() =~= dir + name.drop_last());
        last_name_is_last(dir, name.drop_last());
        assert(name.drop_last().push(name.last()) =~= name);
    } else {
        assert(s =~= dir);
        assert(name =~= Seq::empty());
    }
}

proof fn module_is_first(v: Seq<Seq<char>>, name: Seq<char>, from: int, k: int)
    requires
        0 <= from <= k <= v.len(),
        forall|j: int| from <= j < k ==> #[trigger] v[j] != name,
        k < v.len() ==> v[k] == name,
    ensures
        module_at(v, name, from) == k,
    decreases k - from,
{
    if from < k {
        module_is_first(v, name, from + 1, k);
    }
}

/// A module is found by the last name of its path, whichever directory that
/// gives, and each has a handle of its own; one that is not there has none.
pub proof fn modules_are_found_by_name(
    modules: Seq<Seq<char>>,
    dir: Seq<char>,
    name: Seq<char>,
    k: int,
)
    requires
        0 <= k <= modules.len() <= 0x7000_0000,
        forall|j: int| 0 <= j < k ==> #[trigger] modules[j] != name,
        k < modules.len() ==> modules[k] == name,
        forall|i: int| 0 <= i < name.len() ==> #[trigger] name[i] != '/' && name[i] != '\\',
        dir.len() > 0 ==> dir.last() == '/' || dir.last() == '\\',
    ensures
        module_handle(modules, dir + name) == Some(
            if k < modules.len() {
                (0x9000_0000 + k) as u32
            } else {
                0
            },
        ),
{
    last_name_is_last(dir, name);
    module_is_first(modules, name, 0, k);
}

/// A mapped file's bytes stand in new memory from the offset on, with zeros
/// where the file has no more, and the next mapping starts on a page behind it.
pub proof fn mapped_files_are_in_memory(w: World, a: Seq<u32>, g: Given, o: OpenFile)
    requires
        w.r.len() > 0,
        file_of(w.rt.files, a[4]) == Some(o),
    ensures
        ({
            let (x, deed) = other_does(OtherCall::MapFile, w, a, g);
            let at = w.rt.mmap_next;
            deed is Fault || {
                &&& deed is Done
                &&& x.r[0] == at
                &&& x.m.extents == w.m.extents.push((at as int, a[1] as int))
                &&& forall|i: int|
                    0 <= i < a[1] ==> #[trigger] x.m.at(at + i) == (if a[5] + i < o.data.len() {
                        o.data[a[5] + i]
                    } else {
                        0
                    })
                &&& forall|i: int| i < at || at + a[1] <= i ==> #[trigger] x.m.at(i) == w.m.at(i)
                &&& x.rt.mmap_next >= at + a[1]
                &&& x.rt.mmap_next >= at + 0x1000
                &&& x.rt.mmap_next < at + a[1] + 0x1000 || x.rt.mmap_next == at + 0x1000
                &&& (x.rt.mmap_next - at) % 0x1000 == 0
            }
        }),
{
}

/// The seconds are told and noted where they are wanted; the finer time notes
/// both.
pub proof fn times_are_noted(w: World, a: Seq<u32>, g: Given)
    requires
        w.r.len() > 0,
        a[0] != 0,
    ensures
        ({
            let (x, deed) = other_does(OtherCall::Time, w, a, g);
            deed is Fault || (deed is Done && x.r[0] == g.secs && x.m.word(a[0] as int) == g.secs)
        }),
        ({
            let (x, deed) = other_does(OtherCall::TimeOfDay, w, a, g);
            deed is Fault || (deed is Done && x.r[0] == 0 && x.m.word(a[0] as int) == g.secs
                && x.m.word(a[0] + 4) == g.micros)
        }),
{
    words_read_back(w.m, a[0] as int, g.secs, 0);
    let first = w.m.write(a[0] as int, crate::xrt::mem::word_bytes(g.secs));
    words_read_back(first, a[0] + 4, g.micros, 0);
    let both = first.write(a[0] + 4, crate::xrt::mem::word_bytes(g.micros));
    assert(both.word(a[0] as int) == first.word(a[0] as int));
}

/// A thread has a stack of its own, clear of every other thread's, starts inside
/// it, and is joined by the number that was noted for it, which is the one that
/// it has for itself.
pub proof fn threads_have_their_own_stacks(w: World, a: Seq<u32>, g: Given, u: World, h: Given)
    requires
        w.r.len() > 0,
        u.r.len() > 0,
        a[0] != 0,
        other_does(OtherCall::Start, w, a, g).1 is Spawn,
    ensures
        ({
            let (x, deed) = other_does(OtherCall::Start, w, a, g);
            let k = g.thread;
            let (base, len) = x.m.extents.last();
            let (y, other) = other_does(OtherCall::Start, u, a, h);
            &&& deed matches Deed::Spawn(f, v, sp) && f == a[2] && v == a[3] && base < sp < base
                + len && sp % 8 == 0
            &&& x.r[0] == 0
            &&& len == 0x40_0000
            &&& x.m.extents.len() == w.m.extents.len() + 1
            &&& other is Spawn && h.thread != k ==> {
                let (from, n) = y.m.extents.last();
                base + len <= from || from + n <= base
            }
            &&& a[0] + 4 <= base || base + len <= a[0] ==> {
                let noted = x.m.word(a[0] as int);
                &&& other_does(OtherCall::JoinThread, w, seq![noted], g).1 == Deed::Join(k as u32)
                &&& other_does(OtherCall::Myself, w, a, g).0.r[0] == noted
            }
        }),
{
    let k = g.thread as int;
    let x = other_does(OtherCall::Start, w, a, g).0;
    words_read_back(w.m, a[0] as int, (1 + k) as u32, 0);
    let told = w.m.write(a[0] as int, crate::xrt::mem::word_bytes((1 + k) as u32));
    let (base, len) = x.m.extents.last();
    if a[0] + 4 <= base || base + len <= a[0] {
        assert(x.m.word(a[0] as int) == told.word(a[0] as int));
    }
}

} // verus!

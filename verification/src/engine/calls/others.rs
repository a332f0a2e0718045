//! Calls on directories, modules, mapped files, threads, time and numbers.
use vstd::prelude::*;
use vstd::utf8::encode_utf8;
use super::files::{done, fault};
use super::strings::{compare_bytes, order_of, utf8_len};
use crate::data::chars::{chars_of, equal};
use crate::data::sde::strings;
use crate::engine::files::{file_of, filed, find_file};
use crate::engine::paths::{led_to, norm, normal, real_place, stored_dir, stored_names};
use crate::engine::runtime::{bytes_of, listed, under, zeros, Dir, Machine, OpenDir, Runtime};
use crate::engine::scan::{past_real, past_white, skip_real, skip_white};
use crate::engine::world::{
    came_to, cstr, text_in, world, Action, Answer, Deed, Given, Maths, Need, Want, World,
};
use crate::xrt::cpu::{as_word, give, joined, Cpu};
use crate::xrt::flags::as_signed;
use crate::xrt::mem::{word_bytes, Mem};
use crate::xrt::text::{fill, put_cstr, reachable, regions_decide, terminated};

verus! {

/// Any other call.
#[derive(Debug, Clone, Copy, PartialEq, Eq, Structural)]
pub enum OtherCall {
    /// Opens a directory.
    OpenDir,
    /// Reads a directory entry.
    ReadDir,
    /// Closes a directory.
    CloseDir,
    /// Finds a module.
    Module,
    /// Finds a routine.
    Routine,
    /// Gives the loader's message.
    LoaderError,
    /// Maps a file.
    MapFile,
    /// Gives the place of the error number.
    Errno,
    /// Gives the time.
    Time,
    /// Gives the time, finer.
    TimeOfDay,
    /// Gives its first argument.
    FirstArg,
    /// Gives its second argument.
    SecondArg,
    /// Gives a number that never changes.
    Always(u32),
    /// Gives the machine's name.
    HostName,
    /// Gives a random number.
    Random,
    /// Starts the random numbers afresh.
    Seed,
    /// Divides signed numbers.
    Divide,
    /// Divides unsigned numbers.
    DivideUnsigned,
    /// Gives the remainder of signed numbers.
    Remainder,
    /// Gives the remainder of unsigned numbers.
    RemainderUnsigned,
    /// Gives up.
    Abort,
    /// Ends.
    Exit,
    /// Wakes threads.
    Signal,
    /// Waits.
    Wait,
    /// Tells which thread this is.
    Myself,
    /// Starts a thread.
    Start,
    /// Waits for a thread to end.
    JoinThread,
    /// A function of numbers with a fraction.
    Function(Maths),
    /// Reads a number with a fraction.
    ToReal,
}

/// Whether a name may stand before another.
pub open spec fn in_order(x: Seq<char>, y: Seq<char>) -> bool {
    order_of(encode_utf8(x), encode_utf8(y)) <= 0
}

/// Names with one more in its place.
pub open spec fn placed(v: Seq<Seq<char>>, x: Seq<char>) -> Seq<Seq<char>>
    decreases v.len(),
{
    if v.len() == 0 {
        seq![x]
    } else if in_order(v.last(), x) {
        v.push(x)
    } else {
        placed(v.drop_last(), x).push(v.last())
    }
}

/// The first `n` names in order.
pub open spec fn ordered(v: Seq<Seq<char>>, n: nat) -> Seq<Seq<char>>
    decreases n,
{
    if n == 0 {
        Seq::empty()
    } else {
        placed(ordered(v, (n - 1) as nat), v[n - 1])
    }
}

/// What a directory holds, itself and its parent first; nothing where it is
/// not there.
pub open spec fn dir_names(rt: Machine, guest: Seq<char>, outside: Option<Seq<Seq<char>>>) -> Option<
    Seq<Seq<char>>,
> {
    let own = seq!["."@, ".."@];
    match (led_to(rt.mounts, guest), outside) {
        (Some(_), Some(names)) => Some(own + names),
        _ => {
            let names = stored_names(rt.built_in, guest);
            if names.len() == 0 {
                None
            } else {
                Some(own + names)
            }
        },
    }
}

/// The first directory known by `k`, from `from` on; the number of them where
/// there is none.
pub open spec fn dir_at(v: Seq<OpenDir>, k: u32, from: int) -> int
    decreases v.len() - from,
{
    if from < 0 || from >= v.len() {
        v.len() as int
    } else if v[from].key == k {
        from
    } else {
        dir_at(v, k, from + 1)
    }
}

/// Directories with one in the place of any that was known by the same key.
pub open spec fn with_dir(v: Seq<OpenDir>, d: OpenDir) -> Seq<OpenDir> {
    let i = dir_at(v, d.key, 0);
    if i < v.len() {
        v.update(i, d)
    } else {
        v.push(d)
    }
}

/// What opening a directory does.
pub open spec fn open_dir_does(w: World, a: Seq<u32>, g: Given) -> (World, Deed) {
    match text_in(w.m, a[0]) {
        None => fault(w),
        Some(path) => match dir_names(w.rt, normal(path), g.names) {
            None => done(w, 0),
            Some(names) => {
                let h = w.rt.heap;
                if h.has_room(8) && h.after(8).has_room(0x110) {
                    let d = OpenDir {
                        key: h.block(8),
                        names: ordered(names, names.len()),
                        at: 0,
                        ent: h.after(8).block(0x110),
                    };
                    done(
                        w.on(
                            Machine {
                                heap: h.after(8).after(0x110),
                                dirs: with_dir(w.rt.dirs, d),
                                ..w.rt
                            },
                        ),
                        d.key,
                    )
                } else {
                    fault(w)
                }
            },
        },
    }
}

/// What reading a directory entry does.
pub open spec fn read_dir_does(w: World, a: Seq<u32>) -> (World, Deed) {
    let i = dir_at(w.rt.dirs, a[0], 0);
    if i >= w.rt.dirs.len() || w.rt.dirs[i].at >= w.rt.dirs[i].names.len() {
        done(w, 0)
    } else {
        let d = w.rt.dirs[i];
        let name = encode_utf8(d.names[d.at]);
        if w.m.reachable(d.ent as int, 0x110) && w.m.reachable(
            d.ent + 11,
            name.len() as int + 1,
        ) {
            done(
                w.on(
                    Machine {
                        dirs: w.rt.dirs.update(i, OpenDir { at: d.at + 1, ..d }),
                        ..w.rt
                    },
                ).with(w.m.write(d.ent as int, zeros(0x110)).write(d.ent + 11, terminated(name))),
                d.ent,
            )
        } else {
            fault(w)
        }
    }
}

/// A path's last name.
pub open spec fn last_name(s: Seq<char>) -> Seq<char>
    decreases s.len(),
{
    if s.len() == 0 || s.last() == '/' || s.last() == '\\' {
        Seq::empty()
    } else {
        last_name(s.drop_last()).push(s.last())
    }
}

/// The place of a name among others, from `from` on; their number where it is
/// not among them.
pub open spec fn module_at(v: Seq<Seq<char>>, name: Seq<char>, from: int) -> int
    decreases v.len() - from,
{
    if from < 0 || from >= v.len() {
        v.len() as int
    } else if v[from] == name {
        from
    } else {
        module_at(v, name, from + 1)
    }
}

/// What a module is known by: zero where there is no such module, and nothing
/// where it is past all that can be.
pub open spec fn module_handle(modules: Seq<Seq<char>>, path: Seq<char>) -> Option<u32> {
    let k = module_at(modules, last_name(path), 0);
    if k >= modules.len() {
        Some(0)
    } else if k < 0x7000_0000 {
        Some((0x9000_0000 + k) as u32)
    } else {
        None
    }
}

/// What finding a module does.
pub open spec fn module_does(w: World, a: Seq<u32>) -> (World, Deed) {
    match text_in(w.m, a[0]) {
        None => fault(w),
        Some(s) => match module_handle(w.rt.modules, s) {
            Some(h) => done(w, h),
            None => fault(w),
        },
    }
}

/// A part of a file, with zeros where it has no more.
pub open spec fn mapped_part(data: Seq<u8>, off: int, len: int) -> Seq<u8> {
    Seq::new(
        len as nat,
        |i: int|
            if off + i < data.len() {
                data[off + i]
            } else {
                0u8
            },
    )
}

/// How much room a mapped file takes.
pub open spec fn mapped_room(len: int) -> int {
    let n = (len + 0xfff) / 0x1000 * 0x1000;
    if n < 0x1000 {
        0x1000
    } else {
        n
    }
}

/// What mapping a file does.
pub open spec fn map_does(w: World, a: Seq<u32>) -> (World, Deed) {
    match file_of(w.rt.files, a[4]) {
        None => done(w, u32::MAX),
        Some(o) => {
            let at = w.rt.mmap_next;
            let next = at + mapped_room(a[1] as int);
            if next <= u32::MAX && w.m.vacant(at as int, a[1] as int) {
                done(
                    w.on(Machine { mmap_next: next as u32, ..w.rt }).with(
                        w.m.map(at as int, mapped_part(o.data, a[5] as int, a[1] as int)),
                    ),
                    at,
                )
            } else {
                fault(w)
            }
        },
    }
}

/// What giving the time does.
pub open spec fn time_does(w: World, a: Seq<u32>, g: Given) -> (World, Deed) {
    if a[0] == 0 {
        done(w, g.secs)
    } else if w.m.mapped(a[0] as int, 4) {
        done(w.with(w.m.write(a[0] as int, word_bytes(g.secs))), g.secs)
    } else {
        fault(w)
    }
}

/// What giving the time, finer, does.
pub open spec fn day_does(w: World, a: Seq<u32>, g: Given) -> (World, Deed) {
    if a[0] == 0 {
        done(w, 0)
    } else if a[0] + 4 <= u32::MAX && w.m.mapped(a[0] as int, 4) && w.m.mapped(a[0] + 4, 4) {
        done(
            w.with(
                w.m.write(a[0] as int, word_bytes(g.secs)).write(a[0] + 4, word_bytes(g.micros)),
            ),
            0,
        )
    } else {
        fault(w)
    }
}

/// The next state of the random numbers.
pub open spec fn next_seed(seed: u32) -> u32 {
    ((seed * 1103515245 + 12345) % 0x1_0000_0000) as u32
}

/// A quotient, rounded toward zero.
pub open spec fn quotient(x: int, y: int) -> int {
    if y == 0 {
        0
    } else if (x < 0) == (y < 0) {
        (if x < 0 {
            -x
        } else {
            x
        }) / (if y < 0 {
            -y
        } else {
            y
        })
    } else {
        -((if x < 0 {
            -x
        } else {
            x
        }) / (if y < 0 {
            -y
        } else {
            y
        }))
    }
}

/// A remainder, with the sign of the dividend.
pub open spec fn remainder(x: int, y: int) -> int {
    if y == 0 {
        0
    } else {
        x - y * quotient(x, y)
    }
}

/// What starting a thread does.
pub open spec fn start_does(w: World, a: Seq<u32>, g: Given) -> (World, Deed) {
    let k = g.thread as int;
    let top = 0x7E00_0000 - (k - 1) * 0x40_0000;
    let base = top - 0x40_0000;
    let told = if a[0] == 0 {
        w.m
    } else {
        w.m.write(a[0] as int, word_bytes((1 + k) as u32))
    };
    if 1 <= k <= 504 && (a[0] == 0 || w.m.mapped(a[0] as int, 4)) && w.m.vacant(base, 0x40_0000) {
        (
            w.on(Machine { deferred: w.rt.deferred.push((a[2], a[3])), ..w.rt }).with(
                told.map(base, zeros(0x40_0000)),
            ).give(0),
            Deed::Spawn(a[2], a[3], ((top - 64) / 8 * 8) as u32),
        )
    } else {
        fault(w)
    }
}

/// A number with a fraction at the start of a text, and how many bytes it and
/// the white space before it take.
pub open spec fn real_in(s: Seq<char>) -> (Seq<char>, int) {
    let i = past_white(s, 0);
    let t = s.subrange(i, s.len() as int);
    let n = past_real(t, 0);
    (t.subrange(0, n), encode_utf8(s.subrange(0, i)).len() + n)
}

/// What reading a number with a fraction does.
pub open spec fn real_does(w: World, a: Seq<u32>, g: Given) -> (World, Deed) {
    match text_in(w.m, a[0]) {
        None => fault(w),
        Some(s) => {
            let used = real_in(s).1;
            let v = World { fp: w.fp.update(0, g.bits), ..w };
            if a[1] == 0 {
                (v, Deed::Done)
            } else if w.m.mapped(a[1] as int, 4) && a[0] + used <= u32::MAX {
                (
                    v.with(w.m.write(a[1] as int, word_bytes((a[0] + used) as u32))),
                    Deed::Done,
                )
            } else {
                fault(w)
            }
        },
    }
}

/// The machine's name: `loqng`.
pub open spec fn host_name() -> Seq<u8> {
    seq![108u8, 111u8, 113u8, 110u8, 103u8]
}

/// What a call that computes a word gives.
pub open spec fn word_does(call: OtherCall, w: World, a: Seq<u32>) -> (World, Deed) {
    match call {
        OtherCall::LoaderError => done(w, w.rt.dl_err),
        OtherCall::Errno => done(w, w.rt.errno),
        OtherCall::FirstArg => done(w, a[0]),
        OtherCall::SecondArg => done(w, a[1]),
        OtherCall::Always(v) => done(w, v),
        OtherCall::Random => {
            let s = next_seed(w.rt.seed);
            done(w.on(Machine { seed: s, ..w.rt }), (s / 0x1_0000 % 0x8000) as u32)
        },
        OtherCall::Seed => (w.on(Machine { seed: a[0], ..w.rt }), Deed::Done),
        OtherCall::Divide => done(w, as_word(quotient(as_signed(a[0]), as_signed(a[1])))),
        OtherCall::Remainder => done(w, as_word(remainder(as_signed(a[0]), as_signed(a[1])))),
        OtherCall::DivideUnsigned => done(
            w,
            if a[1] == 0 {
                0
            } else {
                (a[0] / a[1]) as u32
            },
        ),
        OtherCall::RemainderUnsigned => done(
            w,
            if a[1] == 0 {
                0
            } else {
                (a[0] % a[1]) as u32
            },
        ),
        _ => fault(w),
    }
}

/// What any other call does.
pub open spec fn other_does(call: OtherCall, w: World, a: Seq<u32>, g: Given) -> (World, Deed) {
    match call {
        OtherCall::OpenDir => open_dir_does(w, a, g),
        OtherCall::ReadDir => read_dir_does(w, a),
        OtherCall::CloseDir => {
            let i = dir_at(w.rt.dirs, a[0], 0);
            done(
                w.on(
                    Machine {
                        dirs: if i < w.rt.dirs.len() {
                            w.rt.dirs.remove(i)
                        } else {
                            w.rt.dirs
                        },
                        ..w.rt
                    },
                ),
                0,
            )
        },
        OtherCall::Module => module_does(w, a),
        OtherCall::Routine => match text_in(w.m, a[1]) {
            Some(s) => done(
                w,
                match under(w.rt.exports, s) {
                    Some(v) => v,
                    None => 0,
                },
            ),
            None => fault(w),
        },
        OtherCall::MapFile => map_does(w, a),
        OtherCall::Time => time_does(w, a, g),
        OtherCall::TimeOfDay => day_does(w, a, g),
        OtherCall::HostName => if w.m.reachable(a[0] as int, 6) {
            done(w.with(w.m.write(a[0] as int, terminated(host_name()))), 0)
        } else {
            fault(w)
        },
        OtherCall::Abort => (w, Deed::Abort),
        OtherCall::Exit => (w, Deed::Exit(a[0])),
        OtherCall::Signal => (w.give(0), Deed::Signal(a[0])),
        OtherCall::Wait => if w.rt.cond_waits < u32::MAX {
            (
                w.on(
                    Machine { cond_waits: (w.rt.cond_waits + 1) as u32, ..w.rt },
                ).give(0),
                Deed::Wait(a[0]),
            )
        } else {
            fault(w)
        },
        OtherCall::Myself => if g.thread < u32::MAX {
            done(w, (1 + g.thread) as u32)
        } else {
            fault(w)
        },
        OtherCall::Start => start_does(w, a, g),
        OtherCall::JoinThread => (
            w.give(0),
            Deed::Join(
                if a[0] == 0 {
                    0
                } else {
                    (a[0] - 1) as u32
                },
            ),
        ),
        OtherCall::Function(_) => (World { fp: w.fp.update(0, g.bits), ..w }, Deed::Done),
        OtherCall::ToReal => real_does(w, a, g),
        _ => word_does(call, w, a),
    }
}

/// What any other call needs to know.
pub open spec fn other_wants(call: OtherCall, w: World, a: Seq<u32>) -> Want {
    match call {
        OtherCall::OpenDir => match text_in(w.m, a[0]) {
            Some(path) => match led_to(w.rt.mounts, normal(path)) {
                Some(p) => Want::Names(p),
                None => Want::Nothing,
            },
            None => Want::Nothing,
        },
        OtherCall::Time => Want::Clock,
        OtherCall::TimeOfDay => if a[0] == 0 {
            Want::Nothing
        } else {
            Want::Clock
        },
        OtherCall::Myself => Want::Thread,
        OtherCall::Start => Want::Enrol,
        OtherCall::Function(f) => Want::Number(f, joined(a[0], a[1]), joined(a[2], a[3])),
        OtherCall::ToReal => match text_in(w.m, a[0]) {
            Some(s) => Want::Value(real_in(s).0),
            None => Want::Nothing,
        },
        _ => Want::Nothing,
    }
}

/// Puts a name in its place.
fn place(v: &mut Vec<String>, x: String)
    ensures
        strings(final(v)@) == placed(strings(old(v)@), x@),
    decreases old(v)@.len(),
{
    let ghost before = strings(v@);
    if v.len() == 0 {
        v.push(x);
        assert(strings(v@) =~= seq![x@]);
        return;
    }
    let n: usize = v.len();
    let earlier: bool = compare_bytes(
        bytes_of(v[n - 1].as_str()).as_slice(),
        bytes_of(x.as_str()).as_slice(),
    ) <= 0;
    assert(before.last() == v@[n - 1]@);
    if earlier {
        v.push(x);
        assert(strings(v@) =~= before.push(x@));
        return;
    }
    match v.pop() {
        Some(last) => {
            assert(strings(v@) =~= before.drop_last());
            place(v, x);
            let ghost rest = strings(v@);
            v.push(last);
            assert(strings(v@) =~= rest.push(last@));
        },
        None => {},
    }
}

/// Names in order.
pub fn sort_names(v: Vec<String>) -> (r: Vec<String>)
    ensures
        strings(r@) == ordered(strings(v@), v@.len()),
{
    let mut out: Vec<String> = Vec::new();
    assert(strings(out@) =~= Seq::empty());
    let mut i: usize = 0;
    while i < v.len()
        invariant
            i <= v@.len(),
            strings(out@) == ordered(strings(v@), i as nat),
        decreases v@.len() - i,
    {
        assert(strings(v@)[i as int] == v@[i as int]@);
        let x: String = v[i].clone();
        place(&mut out, x);
        i = i + 1;
    }
    out
}

/// Puts copies of names at the end.
fn push_names(out: &mut Vec<String>, v: &Vec<String>)
    ensures
        strings(final(out)@) == strings(old(out)@) + strings(v@),
{
    let ghost before = strings(out@);
    let mut i: usize = 0;
    assert(before + strings(v@).take(0) =~= before);
    while i < v.len()
        invariant
            i <= v@.len(),
            strings(out@) == before + strings(v@).take(i as int),
        decreases v@.len() - i,
    {
        let x: String = v[i].clone();
        let ghost so_far = strings(out@);
        out.push(x);
        assert(strings(out@) =~= so_far.push(x@));
        assert(strings(v@).take(i + 1) =~= strings(v@).take(i as int).push(v@[i as int]@));
        assert(strings(out@) =~= before + strings(v@).take(i + 1));
        i = i + 1;
    }
    assert(strings(v@).take(v@.len() as int) =~= strings(v@));
}

/// What a directory holds.
fn names_in(rt: &Runtime, guest: &str, outside: &Option<Vec<String>>) -> (r: Option<Vec<String>>)
    ensures
        match (
            r,
            dir_names(
                rt@,
                guest@,
                match *outside {
                    Some(v) => Some(strings(v@)),
                    None => None,
                },
            ),
        ) {
            (Some(v), Some(want)) => strings(v@) == want,
            (None, None) => true,
            _ => false,
        },
{
    let mut v: Vec<String> = Vec::new();
    v.push(".".to_owned());
    v.push("..".to_owned());
    assert(strings(v@) =~= seq!["."@, ".."@]);
    match (real_place(&rt.mounts, guest), outside) {
        (Some(_), Some(names)) => {
            push_names(&mut v, names);
        },
        _ => {
            let names: Vec<String> = stored_dir(rt.built_in, guest);
            assert(strings(names@).len() == names@.len());
            if names.len() == 0 {
                return None;
            }
            push_names(&mut v, &names);
        },
    }
    Some(v)
}

/// The place of a directory.
fn find_dir(v: &Vec<Dir>, k: u32) -> (r: Option<usize>)
    ensures
        match r {
            Some(i) => i < v@.len() && i == dir_at(listed(v@), k, 0),
            None => dir_at(listed(v@), k, 0) == v@.len(),
        },
{
    let mut i: usize = 0;
    while i < v.len()
        invariant
            i <= v@.len(),
            dir_at(listed(v@), k, 0) == dir_at(listed(v@), k, i as int),
        decreases v@.len() - i,
    {
        assert(listed(v@)[i as int] == v@[i as int]@);
        if v[i].key == k {
            return Some(i);
        }
        i = i + 1;
    }
    None
}

/// Opens a directory.
fn open_dir(rt: &mut Runtime, c: &mut Cpu, m: &Mem, a: &[u32], g: &Answer) -> (r: Action)
    requires
        old(rt)@.wf(),
        a@.len() == 20,
    ensures
        came_to(
            old(rt)@,
            *old(c),
            m@,
            final(rt)@,
            *final(c),
            m@,
            r@,
            open_dir_does(world(old(rt)@, *old(c), m@), a@, g@),
        ),
{
    let guest: String = match cstr(m, a[0]) {
        Some(p) => norm(p.as_str()),
        None => {
            return Action::Fault;
        },
    };
    let names: Vec<String> = match names_in(rt, guest.as_str(), &g.names) {
        Some(v) => v,
        None => {
            give(c, 0);
            return Action::Done;
        },
    };
    assert(strings(names@).len() == names@.len());
    if !rt.heap.has_room(8) {
        return Action::Fault;
    }
    let key: u32 = rt.heap.allot(8);
    if !rt.heap.has_room(0x110) {
        return Action::Fault;
    }
    let ent: u32 = rt.heap.allot(0x110);
    let d = Dir { key, names: sort_names(names), at: 0, ent };
    let ghost before = listed(rt.dirs@);
    match find_dir(&rt.dirs, key) {
        Some(i) => {
            rt.dirs.set(i, d);
            assert(listed(rt.dirs@) =~= before.update(i as int, d@));
        },
        None => {
            rt.dirs.push(d);
            assert(listed(rt.dirs@) =~= before.push(d@));
        },
    }
    give(c, key);
    Action::Done
}

/// Reads a directory entry.
fn read_dir(rt: &mut Runtime, c: &mut Cpu, m: &mut Mem, a: &[u32]) -> (r: Action)
    requires
        old(rt)@.wf(),
        a@.len() == 20,
    ensures
        came_to(
            old(rt)@,
            *old(c),
            old(m)@,
            final(rt)@,
            *final(c),
            final(m)@,
            r@,
            read_dir_does(world(old(rt)@, *old(c), old(m)@), a@),
        ),
{
    let i: usize = match find_dir(&rt.dirs, a[0]) {
        Some(i) => i,
        None => {
            assert(listed(rt.dirs@).len() == rt.dirs@.len());
            give(c, 0);
            return Action::Done;
        },
    };
    let ghost before = rt.dirs@;
    assert(listed(before)[i as int] == before[i as int]@);
    let at: usize = rt.dirs[i].at;
    assert(before[i as int]@.names.len() == before[i as int].names@.len());
    if at >= rt.dirs[i].names.len() {
        give(c, 0);
        return Action::Done;
    }
    assert(before[i as int]@.names[at as int] == before[i as int].names@[at as int]@);
    let name: Vec<u8> = bytes_of(rt.dirs[i].names[at].as_str());
    let ent: u32 = rt.dirs[i].ent;
    if !reachable(m, ent, 0x110) || name.len() as u64 >= 0x1_0000_0000 {
        return Action::Fault;
    }
    if !reachable(m, ent + 11, name.len() as u64 + 1) {
        return Action::Fault;
    }
    next_entry(&mut rt.dirs, i);
    assert(listed(rt.dirs@) =~= listed(before).update(
        i as int,
        OpenDir { at: at + 1, ..before[i as int]@ },
    ));
    let ghost space = m@;
    fill(m, ent, 0, 0x110);
    assert(Seq::new(0x110, |i: int| 0u8) =~= zeros(0x110));
    proof {
        regions_decide(space, m@);
    }
    put_cstr(m, ent + 11, name.as_slice());
    give(c, ent);
    Action::Done
}

/// Moves on to a directory's next entry.
fn next_entry(v: &mut Vec<Dir>, i: usize)
    requires
        i < old(v)@.len(),
        old(v)@[i as int].at < usize::MAX,
    ensures
        final(v)@.len() == old(v)@.len(),
        final(v)@[i as int]@ == (OpenDir {
            at: old(v)@[i as int].at + 1,
            ..old(v)@[i as int]@
        }),
        forall|k: int| 0 <= k < old(v)@.len() && k != i ==> #[trigger] final(v)@[k] == old(v)@[k],
{
    v[i].at = v[i].at + 1;
}

/// A path's last name.
fn final_name(s: &[char]) -> (r: Vec<char>)
    ensures
        r@ == last_name(s@),
    decreases s@.len(),
{
    let n: usize = s.len();
    if n == 0 || s[n - 1] == '/' || s[n - 1] == '\\' {
        let none: Vec<char> = Vec::new();
        assert(none@ =~= Seq::empty());
        return none;
    }
    let head: &[char] = vstd::slice::slice_subrange(s, 0, n - 1);
    assert(head@ =~= s@.drop_last());
    let mut r: Vec<char> = final_name(head);
    r.push(s[n - 1]);
    r
}

/// Finds what a module is known by.
pub(crate) fn handle_of(rt: &Runtime, path: &str) -> (r: Option<u32>)
    ensures
        r == module_handle(rt@.modules, path@),
{
    let name: Vec<char> = final_name(chars_of(path).as_slice());
    let ghost all = strings(rt.modules@);
    let mut k: usize = 0;
    while k < rt.modules.len()
        invariant
            k <= rt.modules@.len(),
            all == strings(rt.modules@),
            module_at(all, name@, 0) == module_at(all, name@, k as int),
            name@ == last_name(path@),
        decreases rt.modules@.len() - k,
    {
        assert(all[k as int] == rt.modules@[k as int]@);
        if equal(chars_of(rt.modules[k].as_str()).as_slice(), name.as_slice()) {
            if k as u64 >= 0x7000_0000 {
                return None;
            }
            return Some(0x9000_0000 + k as u32);
        }
        k = k + 1;
    }
    Some(0)
}

/// Finds a module.
fn find_module(rt: &Runtime, c: &mut Cpu, m: &Mem, a: &[u32]) -> (r: Action)
    requires
        rt@.wf(),
        a@.len() == 20,
    ensures
        came_to(
            rt@,
            *old(c),
            m@,
            rt@,
            *final(c),
            m@,
            r@,
            module_does(world(rt@, *old(c), m@), a@),
        ),
{
    match cstr(m, a[0]) {
        Some(s) => match handle_of(rt, s.as_str()) {
            Some(h) => {
                give(c, h);
                Action::Done
            },
            None => Action::Fault,
        },
        None => Action::Fault,
    }
}

/// A part of a file, with zeros where it has no more.
fn part_of(data: &[u8], off: u32, len: u32) -> (r: Vec<u8>)
    ensures
        r@ == mapped_part(data@, off as int, len as int),
{
    let mut out: Vec<u8> = Vec::new();
    let mut i: u32 = 0;
    while i < len
        invariant
            i <= len,
            out@ == mapped_part(data@, off as int, i as int),
        decreases len - i,
    {
        let at: u64 = off as u64 + i as u64;
        out.push(
            if at < data.len() as u64 {
                data[at as usize]
            } else {
                0
            },
        );
        assert(out@ =~= mapped_part(data@, off as int, i + 1));
        i = i + 1;
    }
    out
}

/// Maps a file.
fn map_file(rt: &mut Runtime, c: &mut Cpu, m: &mut Mem, a: &[u32]) -> (r: Action)
    requires
        old(rt)@.wf(),
        a@.len() == 20,
    ensures
        came_to(
            old(rt)@,
            *old(c),
            old(m)@,
            final(rt)@,
            *final(c),
            final(m)@,
            r@,
            map_does(world(old(rt)@, *old(c), old(m)@), a@),
        ),
{
    let i: usize = match find_file(&rt.files, a[4]) {
        Some(i) => i,
        None => {
            assert(filed(rt.files@).len() == rt.files@.len());
            give(c, u32::MAX);
            return Action::Done;
        },
    };
    assert(filed(rt.files@)[i as int].1 == rt.files@[i as int].file@);
    let bytes: Vec<u8> = part_of(rt.files[i].file.data.as_slice(), a[5], a[1]);
    let at: u32 = rt.mmap_next;
    let pages: u64 = (a[1] as u64 + 0xfff) / 0x1000 * 0x1000;
    let room: u64 = if pages < 0x1000 {
        0x1000
    } else {
        pages
    };
    let next: u64 = at as u64 + room;
    if next > u32::MAX as u64 || !m.vacant(at, a[1] as u64) {
        return Action::Fault;
    }
    rt.mmap_next = next as u32;
    m.map(at, bytes);
    give(c, at);
    Action::Done
}

/// Divides, or gives the remainder.
fn divide(x: u32, y: u32, rest: bool) -> (r: u32)
    ensures
        r == as_word(
            if rest {
                remainder(as_signed(x), as_signed(y))
            } else {
                quotient(as_signed(x), as_signed(y))
            },
        ),
{
    if y == 0 {
        return 0;
    }
    let (nx, ny) = (x >= 0x8000_0000, y >= 0x8000_0000);
    let p: u64 = if nx {
        0x1_0000_0000 - x as u64
    } else {
        x as u64
    };
    let q: u64 = if ny {
        0x1_0000_0000 - y as u64
    } else {
        y as u64
    };
    proof {
        vstd::arithmetic::div_mod::lemma_fundamental_div_mod(p as int, q as int);
        let d = p as int / q as int;
        assert(d <= p) by (nonlinear_arith)
            requires
                d == p as int / q as int,
                q >= 1,
                p >= 0,
        ;
        assert(d >= 0) by (nonlinear_arith)
            requires
                d == p as int / q as int,
                q >= 1,
                p >= 0,
        ;
        let y1 = as_signed(y);
        let q1 = quotient(as_signed(x), y1);
        assert((-(q as int)) * d == -(q * d)) by (nonlinear_arith);
        assert((q as int) * (-d) == -(q * d)) by (nonlinear_arith);
        assert((-(q as int)) * (-d) == q * d) by (nonlinear_arith);
        assert(y1 * q1 == if nx {
            -(q * d)
        } else {
            q * d
        });
    }
    if rest {
        let v: u64 = p % q;
        if nx && v > 0 {
            (0x1_0000_0000 - v) as u32
        } else {
            v as u32
        }
    } else {
        let v: u64 = p / q;
        if nx != ny && v > 0 {
            (0x1_0000_0000 - v) as u32
        } else {
            v as u32
        }
    }
}

/// The next state of the random numbers.
fn advance_seed(seed: u32) -> (r: u32)
    ensures
        r == next_seed(seed),
{
    ((seed as u64 * 1103515245 + 12345) % 0x1_0000_0000) as u32
}

/// Starts a thread.
fn start_thread(rt: &mut Runtime, c: &mut Cpu, m: &mut Mem, a: &[u32], g: &Answer) -> (r: Action)
    requires
        old(rt)@.wf(),
        a@.len() == 20,
    ensures
        came_to(
            old(rt)@,
            *old(c),
            old(m)@,
            final(rt)@,
            *final(c),
            final(m)@,
            r@,
            start_does(world(old(rt)@, *old(c), old(m)@), a@, g@),
        ),
{
    let k: u32 = g.thread;
    if k < 1 || k > 504 {
        return Action::Fault;
    }
    let top: u32 = 0x7E00_0000 - (k - 1) * 0x40_0000;
    let base: u32 = top - 0x40_0000;
    if !m.vacant(base, 0x40_0000) {
        return Action::Fault;
    }
    let ghost before = m@;
    if a[0] != 0 {
        if !m.mapped(a[0], 4) {
            return Action::Fault;
        }
        m.w32(a[0], 1 + k);
    }
    m.zeroed(base, 0x40_0000);
    assert(Seq::new(0x40_0000, |i: int| 0u8) =~= zeros(0x40_0000));
    rt.deferred.push((a[2], a[3]));
    give(c, 0);
    Action::Spawn { entry: a[2], arg: a[3], sp: (top - 64) / 8 * 8 }
}

/// A number with a fraction at the start of a text, and how many bytes it and
/// the white space before it take.
fn find_real(s: &[char]) -> (r: (Vec<char>, u128))
    ensures
        (r.0@, r.1 as int) == real_in(s@),
{
    let i: usize = skip_white(s, 0);
    let lead: usize = utf8_len(vstd::slice::slice_subrange(s, 0, i));
    let t: &[char] = vstd::slice::slice_subrange(s, i, s.len());
    let n: usize = skip_real(t, 0);
    (
        vstd::slice::slice_to_vec(vstd::slice::slice_subrange(t, 0, n)),
        lead as u128 + n as u128,
    )
}

/// Reads a number with a fraction.
fn read_real(rt: &Runtime, c: &mut Cpu, m: &mut Mem, a: &[u32], g: &Answer) -> (r: Action)
    requires
        rt@.wf(),
        a@.len() == 20,
    ensures
        came_to(
            rt@,
            *old(c),
            old(m)@,
            rt@,
            *final(c),
            final(m)@,
            r@,
            real_does(world(rt@, *old(c), old(m)@), a@, g@),
        ),
{
    let s: Vec<char> = match cstr(m, a[0]) {
        Some(s) => chars_of(s.as_str()),
        None => {
            return Action::Fault;
        },
    };
    let used: u128 = find_real(s.as_slice()).1;
    if a[1] != 0 {
        if !m.mapped(a[1], 4) || used > (u32::MAX - a[0]) as u128 {
            return Action::Fault;
        }
        m.w32(a[1], a[0] + used as u32);
    }
    c.fp[0] = g.bits;
    Action::Done
}

/// Gives the time.
fn tell_time(rt: &Runtime, c: &mut Cpu, m: &mut Mem, a: &[u32], g: &Answer, finer: bool) -> (r:
    Action)
    requires
        rt@.wf(),
        a@.len() == 20,
    ensures
        came_to(
            rt@,
            *old(c),
            old(m)@,
            rt@,
            *final(c),
            final(m)@,
            r@,
            if finer {
                day_does(world(rt@, *old(c), old(m)@), a@, g@)
            } else {
                time_does(world(rt@, *old(c), old(m)@), a@, g@)
            },
        ),
{
    if a[0] != 0 {
        if !m.mapped(a[0], 4) {
            return Action::Fault;
        }
        if finer && (a[0] > u32::MAX - 4 || !m.mapped(a[0] + 4, 4)) {
            return Action::Fault;
        }
        let ghost before = m@;
        m.w32(a[0], g.secs);
        if finer {
            proof {
                regions_decide(before, m@);
            }
            m.w32(a[0] + 4, g.micros);
        }
    }
    give(
        c,
        if finer {
            0
        } else {
            g.secs
        },
    );
    Action::Done
}

/// Computes a word.
fn word_call(call: OtherCall, rt: &mut Runtime, c: &mut Cpu, m: &Mem, a: &[u32]) -> (r: Action)
    requires
        old(rt)@.wf(),
        a@.len() == 20,
    ensures
        came_to(
            old(rt)@,
            *old(c),
            m@,
            final(rt)@,
            *final(c),
            m@,
            r@,
            word_does(call, world(old(rt)@, *old(c), m@), a@),
        ),
{
    let v: u32 = match call {
        OtherCall::LoaderError => rt.dl_err,
        OtherCall::Errno => rt.errno,
        OtherCall::FirstArg => a[0],
        OtherCall::SecondArg => a[1],
        OtherCall::Always(v) => v,
        OtherCall::Random => {
            rt.seed = advance_seed(rt.seed);
            rt.seed / 0x1_0000 % 0x8000
        },
        OtherCall::Seed => {
            rt.seed = a[0];
            return Action::Done;
        },
        OtherCall::Divide => divide(a[0], a[1], false),
        OtherCall::Remainder => divide(a[0], a[1], true),
        OtherCall::DivideUnsigned => if a[1] == 0 {
            0
        } else {
            a[0] / a[1]
        },
        OtherCall::RemainderUnsigned => if a[1] == 0 {
            0
        } else {
            a[0] % a[1]
        },
        _ => {
            return Action::Fault;
        },
    };
    give(c, v);
    Action::Done
}

/// Makes any other call.
pub fn other_call(
    call: OtherCall,
    rt: &mut Runtime,
    c: &mut Cpu,
    m: &mut Mem,
    a: &[u32],
    g: &Answer,
) -> (r: Action)
    requires
        old(rt)@.wf(),
        a@.len() == 20,
    ensures
        came_to(
            old(rt)@,
            *old(c),
            old(m)@,
            final(rt)@,
            *final(c),
            final(m)@,
            r@,
            other_does(call, world(old(rt)@, *old(c), old(m)@), a@, g@),
        ),
{
    match call {
        OtherCall::OpenDir => open_dir(rt, c, m, a, g),
        OtherCall::ReadDir => read_dir(rt, c, m, a),
        OtherCall::CloseDir => {
            let ghost before = listed(rt.dirs@);
            match find_dir(&rt.dirs, a[0]) {
                Some(i) => {
                    let _gone: Dir = rt.dirs.remove(i);
                    assert(listed(rt.dirs@) =~= before.remove(i as int));
                },
                None => {},
            }
            give(c, 0);
            Action::Done
        },
        OtherCall::Module => find_module(rt, c, m, a),
        OtherCall::Routine => match cstr(m, a[1]) {
            Some(s) => {
                let at: u32 = match rt.lookup(s.as_str()) {
                    Some(v) => v,
                    None => 0,
                };
                give(c, at);
                Action::Done
            },
            None => Action::Fault,
        },
        OtherCall::MapFile => map_file(rt, c, m, a),
        OtherCall::Time => tell_time(rt, c, m, a, g, false),
        OtherCall::TimeOfDay => tell_time(rt, c, m, a, g, true),
        OtherCall::HostName => {
            let name: Vec<u8> = vec![108u8, 111u8, 113u8, 110u8, 103u8];
            assert(name@ =~= host_name());
            if !reachable(m, a[0], 6) {
                return Action::Fault;
            }
            put_cstr(m, a[0], name.as_slice());
            give(c, 0);
            Action::Done
        },
        OtherCall::Abort => Action::Abort,
        OtherCall::Exit => Action::Exit(a[0]),
        OtherCall::Signal => {
            give(c, 0);
            Action::Signal(a[0])
        },
        OtherCall::Wait => {
            if rt.cond_waits == u32::MAX {
                return Action::Fault;
            }
            rt.cond_waits = rt.cond_waits + 1;
            give(c, 0);
            Action::Wait(a[0])
        },
        OtherCall::Myself => {
            if g.thread == u32::MAX {
                return Action::Fault;
            }
            give(c, 1 + g.thread);
            Action::Done
        },
        OtherCall::Start => start_thread(rt, c, m, a, g),
        OtherCall::JoinThread => {
            give(c, 0);
            Action::Join(
                if a[0] == 0 {
                    0
                } else {
                    a[0] - 1
                },
            )
        },
        OtherCall::Function(_) => {
            c.fp[0] = g.bits;
            Action::Done
        },
        OtherCall::ToReal => read_real(rt, c, m, a, g),
        _ => word_call(call, rt, c, m, a),
    }
}

/// Says what any other call needs to know.
pub fn other_needs(call: OtherCall, rt: &Runtime, m: &Mem, a: &[u32]) -> (r: Need)
    requires
        a@.len() == 20,
    ensures
        forall|c: Cpu| r@ == #[trigger] other_wants(call, world(rt@, c, m@), a@),
{
    match call {
        OtherCall::OpenDir => match cstr(m, a[0]) {
            Some(p) => {
                let guest: String = norm(p.as_str());
                match real_place(&rt.mounts, guest.as_str()) {
                    Some(p) => Need::Names(p),
                    None => Need::Nothing,
                }
            },
            None => Need::Nothing,
        },
        OtherCall::Time => Need::Clock,
        OtherCall::TimeOfDay => if a[0] == 0 {
            Need::Nothing
        } else {
            Need::Clock
        },
        OtherCall::Myself => Need::Thread,
        OtherCall::Start => Need::Enrol,
        OtherCall::Function(f) => Need::Number(
            f,
            a[0] as u64 * 0x1_0000_0000 + a[1] as u64,
            a[2] as u64 * 0x1_0000_0000 + a[3] as u64,
        ),
        OtherCall::ToReal => match cstr(m, a[0]) {
            Some(s) => Need::Value(find_real(chars_of(s.as_str()).as_slice()).0),
            None => Need::Nothing,
        },
        _ => Need::Nothing,
    }
}

/// A directory is read in order: each name that was placed stands where those
/// before it may.
pub proof fn listings_are_sorted(v: Seq<Seq<char>>, n: nat)
    requires
        n <= v.len(),
    ensures
        ordered(v, n).len() == n,
        ordered(v, n).to_multiset() == v.take(n as int).to_multiset(),
        forall|i: int| 0 <= i < n - 1 ==> in_order(#[trigger] ordered(v, n)[i], ordered(v, n)[i + 1]),
    decreases n,
{
    broadcast use vstd::seq_lib::group_to_multiset_ensures;

    if n > 0 {
        listings_are_sorted(v, (n - 1) as nat);
        placing_keeps_order(ordered(v, (n - 1) as nat), v[n - 1]);
        assert(v.take(n as int) =~= v.take(n - 1).push(v[n - 1]));
    } else {
        assert(v.take(0) =~= Seq::empty());
    }
}

proof fn placing_keeps_order(v: Seq<Seq<char>>, x: Seq<char>)
    requires
        forall|i: int| 0 <= i < v.len() - 1 ==> in_order(#[trigger] v[i], v[i + 1]),
    ensures
        placed(v, x).len() == v.len() + 1,
        placed(v, x).to_multiset() == v.to_multiset().insert(x),
        forall|i: int|
            0 <= i < placed(v, x).len() - 1 ==> in_order(
                #[trigger] placed(v, x)[i],
                placed(v, x)[i + 1],
            ),
        placed(v, x).last() == x || (v.len() > 0 && placed(v, x).last() == v.last()),
    decreases v.len(),
{
    broadcast use vstd::seq_lib::group_to_multiset_ensures;

    if v.len() == 0 {
        assert(seq![x] =~= v.push(x));
    } else if !in_order(v.last(), x) {
        let t = v.drop_last();
        assert forall|i: int| 0 <= i < t.len() - 1 implies in_order(#[trigger] t[i], t[i + 1]) by {
            assert(in_order(v[i], v[i + 1]));
        }
        placing_keeps_order(t, x);
        order_is_total(encode_utf8(v.last()), encode_utf8(x));
        let p = placed(t, x);
        let r = p.push(v.last());
        assert(v =~= t.push(v.last()));
        if t.len() > 0 {
            assert(in_order(v[t.len() - 1], v[t.len() as int]));
        }
        assert forall|i: int| 0 <= i < r.len() - 1 implies in_order(#[trigger] r[i], r[i + 1]) by {
            if i < p.len() - 1 {
                assert(in_order(p[i], p[i + 1]));
            }
        }
        assert(r.to_multiset() =~= v.to_multiset().insert(x));
    } else {
        let r = v.push(x);
        assert forall|i: int| 0 <= i < r.len() - 1 implies in_order(#[trigger] r[i], r[i + 1]) by {
            if i < v.len() - 1 {
                assert(in_order(v[i], v[i + 1]));
            }
        }
    }
}

proof fn order_is_total(x: Seq<u8>, y: Seq<u8>)
    ensures
        order_of(x, y) == -order_of(y, x),
    decreases x.len(),
{
    if x.len() > 0 && y.len() > 0 && x[0] == y[0] {
        order_is_total(x.subrange(1, x.len() as int), y.subrange(1, y.len() as int));
    }
}

/// What follows one that follows another follows that one too, and strictly
/// where either does.
pub proof fn order_carries_over(x: Seq<u8>, y: Seq<u8>, z: Seq<u8>)
    requires
        order_of(x, y) <= 0,
        order_of(y, z) <= 0,
    ensures
        order_of(x, z) <= 0,
        order_of(x, y) < 0 || order_of(y, z) < 0 ==> order_of(x, z) < 0,
    decreases x.len(),
{
    if x.len() > 0 && y.len() > 0 && z.len() > 0 && x[0] == y[0] && y[0] == z[0] {
        order_carries_over(
            x.subrange(1, x.len() as int),
            y.subrange(1, y.len() as int),
            z.subrange(1, z.len() as int),
        );
    }
}

/// Runs of bytes that neither comes before are one.
pub proof fn order_tells_apart(x: Seq<u8>, y: Seq<u8>)
    ensures
        order_of(x, y) == 0 <==> x == y,
    decreases x.len(),
{
    if x.len() > 0 && y.len() > 0 && x[0] == y[0] {
        let (a, b) = (x.subrange(1, x.len() as int), y.subrange(1, y.len() as int));
        order_tells_apart(a, b);
        if a == b {
            assert(x =~= seq![x[0]] + a);
            assert(y =~= seq![y[0]] + b);
        }
    } else if x.len() == 0 && y.len() == 0 {
        assert(x =~= y);
    }
}

} // verus!

//! Calls on files, and formatted text.
use vstd::prelude::*;
use crate::data::chars::chars_of;
use crate::engine::cfmt::{formatted, open_numbers, parts, push_bytes, reals, render, rendered};
use crate::engine::files::{
    all_wf, drop_file, file_at, file_found, file_of, filed, find_file, put_file, with_file,
    without_file, Entry, Open, OpenFile,
};
use crate::engine::paths::{led_to, norm, normal, real_place, stored, stored_bytes, Place, Spot};
use crate::engine::runtime::{
    files_stay_in_order, find_name, flushed, naming, under, written_out, Machine, Runtime,
};
use crate::engine::scan::{scan, scanned, store, values, Found, Value};
use crate::engine::world::{
    bytes_in, came_to, cstr, cstr_bytes, text_in, world, Action, Answer, Deed, Given, Need, Want,
    World,
};
use crate::xrt::cpu::{give, Cpu};
use crate::xrt::mem::{Mem, Space};
use crate::xrt::text::{put_cstr, reachable, terminated};

verus! {

/// A call on a file.
#[derive(Debug, Clone, Copy, PartialEq, Eq, Structural)]
pub enum FileCall {
    /// Opens a file.
    Open,
    /// Closes one.
    Close,
    /// Reads bytes.
    Read,
    /// Writes bytes.
    Write,
    /// Reads a byte.
    GetByte,
    /// Reads a line.
    GetLine,
    /// Writes a byte.
    PutByte,
    /// Writes a byte to the console.
    PutConsole,
    /// Writes a text.
    PutText,
    /// Moves the position.
    Seek,
    /// Tells the position.
    Tell,
    /// Moves the position to the start.
    Rewind,
    /// Tells whether the position is at the end.
    AtEnd,
    /// Writes out.
    Flush,
    /// Removes a file.
    Remove,
    /// Writes formatted text to the console.
    Print,
    /// Writes formatted text to a file.
    PrintFile,
    /// Writes formatted text to memory.
    PrintMemory,
    /// Writes formatted text to memory, up to a limit.
    PrintLimited,
    /// Reads values out of a text.
    Scan,
}

/// A call that cannot go on.
pub open spec fn fault(w: World) -> (World, Deed) {
    (w, Deed::Fault)
}

/// A call that gives a word.
pub open spec fn done(w: World, v: u32) -> (World, Deed) {
    (w.give(v), Deed::Done)
}

/// Whether a mode starts with a letter.
pub open spec fn mode_is(mode: Seq<char>, c: char) -> bool {
    mode.len() > 0 && mode[0] == c
}

/// Whether opening a file has to look outside, and does not find it in memory
/// or start it afresh.
pub open spec fn looks_outside(rt: Machine, guest: Seq<char>, mode: Seq<char>) -> bool {
    &&& under(rt.overlays, guest) is None
    &&& under(rt.sinks, guest) is None
    &&& !mode_is(mode, 'w')
    &&& stored_bytes(rt.built_in, guest) is None
}

/// What a file holds when it is opened; nothing where it is not there.
pub open spec fn opened_with(
    rt: Machine,
    guest: Seq<char>,
    mode: Seq<char>,
    outside: Option<Seq<u8>>,
) -> Option<Seq<u8>> {
    match under(rt.overlays, guest) {
        Some(d) => Some(d),
        None => if under(rt.sinks, guest) is Some || mode_is(mode, 'w') {
            Some(Seq::empty())
        } else {
            match stored_bytes(rt.built_in, guest) {
                Some(d) => Some(d),
                None => match (led_to(rt.mounts, guest), outside) {
                    (Some(_), Some(d)) => Some(d),
                    _ => if mode_is(mode, 'a') {
                        Some(Seq::empty())
                    } else {
                        None
                    },
                },
            }
        },
    }
}

/// A file as it is opened.
pub open spec fn opened(rt: Machine, guest: Seq<char>, mode: Seq<char>, data: Seq<u8>) -> OpenFile {
    OpenFile {
        guest,
        place: led_to(rt.mounts, guest),
        sink: under(rt.sinks, guest) is Some,
        is_file: true,
        data,
        pos: if mode_is(mode, 'a') {
            data.len() as int
        } else {
            0
        },
        dirty: mode_is(mode, 'w') || mode_is(mode, 'a'),
    }
}

/// What opening a file does.
pub open spec fn open_does(w: World, a: Seq<u32>, g: Given) -> (World, Deed) {
    match (text_in(w.m, a[0]), text_in(w.m, a[1])) {
        (Some(path), Some(mode)) => {
            let guest = normal(path);
            match opened_with(w.rt, guest, mode, g.file) {
                None => done(w, 0),
                Some(data) => if w.rt.heap.has_room(8) {
                    let f = w.rt.heap.block(8);
                    done(
                        w.on(
                            Machine {
                                heap: w.rt.heap.after(8),
                                files: with_file(w.rt.files, f, opened(w.rt, guest, mode, data)),
                                ..w.rt
                            },
                        ),
                        f,
                    )
                } else {
                    fault(w)
                },
            }
        },
        _ => fault(w),
    }
}

/// What is to be done with what a file held.
pub open spec fn write_deed(out: Option<(Spot, Seq<u8>)>) -> Deed {
    match out {
        Some((p, d)) => Deed::Write(p, d),
        None => Deed::Done,
    }
}

/// The runtime with a file changed.
pub open spec fn changed(rt: Machine, k: u32, f: OpenFile) -> Machine {
    Machine { files: with_file(rt.files, k, f), ..rt }
}

/// The runtime with more in its log.
pub open spec fn logged(rt: Machine, s: Seq<u8>) -> Machine {
    Machine { log: rt.log + s, ..rt }
}

/// The runtime after bytes were put at the end of a file, or of the log where
/// it is no file.
pub open spec fn put_out(rt: Machine, k: u32, s: Seq<u8>) -> Machine {
    match file_of(rt.files, k) {
        Some(o) => if o.is_file {
            changed(rt, k, o.appended(s))
        } else {
            logged(rt, s)
        },
        None => logged(rt, s),
    }
}

/// The runtime after one byte was put out.
pub open spec fn put_one(rt: Machine, k: u32, b: u8) -> Machine {
    match file_of(rt.files, k) {
        Some(o) => if o.is_file {
            changed(rt, k, o.put(b))
        } else {
            logged(rt, seq![b])
        },
        None => logged(rt, seq![b]),
    }
}

/// What reading bytes does.
pub open spec fn read_does(w: World, a: Seq<u32>) -> (World, Deed) {
    let (p, sz, n) = (a[0] as int, a[1] as int, a[2] as int);
    if sz * n > u32::MAX {
        fault(w)
    } else {
        match file_of(w.rt.files, a[3]) {
            None => done(w, 0),
            Some(o) => {
                let got = o.available(sz * n);
                if w.m.mapped(p, got) {
                    done(
                        w.on(changed(w.rt, a[3], o.skipped(got))).with(
                            w.m.write(p, o.data.subrange(o.pos, o.pos + got)),
                        ),
                        if sz == 0 {
                            0
                        } else {
                            (got / sz) as u32
                        },
                    )
                } else {
                    fault(w)
                }
            },
        }
    }
}

/// What writing bytes does.
pub open spec fn write_does(w: World, a: Seq<u32>) -> (World, Deed) {
    let (p, sz, n) = (a[0] as int, a[1] as int, a[2] as int);
    if sz * n > u32::MAX || !w.m.mapped(p, sz * n) {
        fault(w)
    } else {
        let s = w.m.read(p, (sz * n) as nat);
        let rt = match file_of(w.rt.files, a[3]) {
            Some(o) => if o.is_file {
                changed(w.rt, a[3], o.written(s))
            } else {
                logged(w.rt, s)
            },
            None => logged(w.rt, s),
        };
        done(w.on(rt), a[2])
    }
}

/// What reading a line does.
pub open spec fn line_does(w: World, a: Seq<u32>) -> (World, Deed) {
    match file_of(w.rt.files, a[2]) {
        None => done(w, 0),
        Some(o) => if o.pos >= o.data.len() {
            done(w, 0)
        } else {
            let k = o.line_len(o.pos, 0, a[1] as int);
            if w.m.reachable(a[0] as int, k + 1) {
                done(
                    w.on(changed(w.rt, a[2], o.skipped(k))).with(
                        w.m.write(a[0] as int, terminated(o.data.subrange(o.pos, o.pos + k))),
                    ),
                    a[0],
                )
            } else {
                fault(w)
            }
        },
    }
}

/// Which argument a format is.
pub open spec fn format_arg(call: FileCall) -> int {
    match call {
        FileCall::Print => 0,
        FileCall::PrintLimited => 2,
        _ => 1,
    }
}

/// The bytes that a formatting call writes.
pub open spec fn printed(call: FileCall, m: Space, a: Seq<u32>, texts: Seq<Seq<u8>>) -> Option<
    Seq<u8>,
> {
    let i = format_arg(call);
    match formatted(m, a[i], a, i + 1) {
        Some(ps) => match rendered(ps, texts, ps.len()) {
            Some((s, _)) => Some(s),
            None => None,
        },
        None => None,
    }
}

/// As much of a text as fits.
pub open spec fn clipped(call: FileCall, s: Seq<u8>, limit: u32) -> Seq<u8> {
    if call == FileCall::PrintLimited && s.len() > limit - 1 {
        s.subrange(
            0,
            if limit == 0 {
                0
            } else {
                limit - 1
            },
        )
    } else {
        s
    }
}

/// What a formatting call does.
pub open spec fn print_does(call: FileCall, w: World, a: Seq<u32>, g: Given) -> (World, Deed) {
    match printed(call, w.m, a, g.texts) {
        None => fault(w),
        Some(s) => {
            let n = (s.len() % 0x1_0000_0000) as u32;
            if call == FileCall::PrintMemory || call == FileCall::PrintLimited {
                let t = clipped(call, s, a[1]);
                if w.m.reachable(a[0] as int, t.len() as int + 1) {
                    done(w.with(w.m.write(a[0] as int, terminated(t))), n)
                } else {
                    fault(w)
                }
            } else {
                let k = if call == FileCall::PrintFile {
                    a[0]
                } else {
                    0
                };
                done(w.on(put_out(w.rt, k, s)), n)
            }
        },
    }
}

/// What reading values out of a text does.
pub open spec fn scan_does(w: World, a: Seq<u32>, g: Given) -> (World, Deed) {
    match (text_in(w.m, a[0]), text_in(w.m, a[1])) {
        (Some(s), Some(f)) => match scanned(s, f) {
            None => fault(w),
            Some(vs) => match crate::engine::scan::stored(w.m, vs, g.values, a, 2, vs.len()) {
                None => fault(w),
                Some(m) => done(w.with(m), (vs.len() % 0x1_0000_0000) as u32),
            },
        },
        _ => fault(w),
    }
}

/// What a call on a file does.
pub open spec fn file_does(call: FileCall, w: World, a: Seq<u32>, g: Given) -> (World, Deed) {
    match call {
        FileCall::Open => open_does(w, a, g),
        FileCall::Close => {
            let (rt, out) = flushed(w.rt, a[0]);
            (
                w.on(
                    Machine {
                        files: without_file(rt.files, a[0]),
                        heap: rt.heap.freed(a[0]),
                        ..rt
                    },
                ).give(0),
                write_deed(out),
            )
        },
        FileCall::Read => read_does(w, a),
        FileCall::Write => write_does(w, a),
        FileCall::GetByte => match file_of(w.rt.files, a[0]) {
            Some(o) => if o.pos < o.data.len() {
                done(w.on(changed(w.rt, a[0], o.skipped(1))), o.data[o.pos] as u32)
            } else {
                done(w, u32::MAX)
            },
            None => done(w, u32::MAX),
        },
        FileCall::GetLine => line_does(w, a),
        FileCall::PutByte => done(w.on(put_one(w.rt, a[1], (a[0] % 0x100) as u8)), a[0]),
        FileCall::PutConsole => done(w.on(put_one(w.rt, 0, (a[0] % 0x100) as u8)), a[0]),
        FileCall::PutText => match bytes_in(w.m, a[0]) {
            Some(s) => done(w.on(put_out(w.rt, a[1], s)), 0),
            None => fault(w),
        },
        FileCall::Seek => match file_of(w.rt.files, a[0]) {
            Some(o) => done(
                w.on(
                    changed(
                        w.rt,
                        a[0],
                        OpenFile {
                            pos: o.sought(crate::xrt::flags::as_signed(a[1]), a[2]),
                            ..o
                        },
                    ),
                ),
                0,
            ),
            None => done(w, 0),
        },
        FileCall::Tell => match file_of(w.rt.files, a[0]) {
            Some(o) => done(w, (o.pos % 0x1_0000_0000) as u32),
            None => done(w, 0),
        },
        FileCall::Rewind => match file_of(w.rt.files, a[0]) {
            Some(o) => (w.on(changed(w.rt, a[0], OpenFile { pos: 0, ..o })), Deed::Done),
            None => (w, Deed::Done),
        },
        FileCall::AtEnd => match file_of(w.rt.files, a[0]) {
            Some(o) => done(
                w,
                if o.pos >= o.data.len() {
                    1
                } else {
                    0
                },
            ),
            None => done(w, 0),
        },
        FileCall::Flush => {
            let (rt, out) = flushed(w.rt, a[0]);
            (w.on(rt).give(0), write_deed(out))
        },
        FileCall::Remove => match text_in(w.m, a[0]) {
            Some(path) => match led_to(w.rt.mounts, normal(path)) {
                Some(p) => (w.give(0), Deed::Remove(p)),
                None => done(w, 0),
            },
            None => fault(w),
        },
        FileCall::Scan => scan_does(w, a, g),
        _ => print_does(call, w, a, g),
    }
}

/// Changing one file in the table is putting it there.
proof fn one_changed(before: Seq<Entry>, after: Seq<Entry>, i: int, k: u32)
    requires
        0 <= i < before.len(),
        after.len() == before.len(),
        i == file_at(filed(before), k, 0),
        after[i].key == k,
        forall|j: int| 0 <= j < before.len() && j != i ==> #[trigger] after[j] == before[j],
        all_wf(filed(before)),
        after[i].file@.wf(),
    ensures
        filed(after) == with_file(filed(before), k, after[i].file@),
        all_wf(filed(after)),
{
    assert(filed(after) =~= with_file(filed(before), k, after[i].file@));
    files_stay_in_order(filed(before), k, after[i].file@);
}

/// The place of a file that is in order.
fn locate(rt: &Runtime, k: u32) -> (r: Option<usize>)
    requires
        rt@.wf(),
    ensures
        match r {
            Some(i) => i < rt.files@.len() && i == file_at(filed(rt.files@), k, 0)
                && rt.files@[i as int].key == k && file_of(rt@.files, k) == Some(
                rt.files@[i as int].file@,
            ) && rt.files@[i as int].file@.wf(),
            None => file_of(rt@.files, k) is None,
        },
{
    let r: Option<usize> = find_file(&rt.files, k);
    proof {
        if let Some(i) = r {
            assert(filed(rt.files@)[i as int] == (
                rt.files@[i as int].key,
                rt.files@[i as int].file@,
            ));
            assert(rt@.files[i as int].1.wf());
        }
    }
    r
}

/// Puts bytes at the end of a file, or of the log.
fn emit(rt: &mut Runtime, k: u32, s: &[u8])
    requires
        old(rt)@.wf(),
    ensures
        final(rt)@ == put_out(old(rt)@, k, s@),
        final(rt)@.wf(),
{
    let ghost before = rt.files@;
    match locate(rt, k) {
        Some(i) => {
            if rt.files[i].file.is_file {
                rt.files[i].file.append(s);
                proof {
                    one_changed(before, rt.files@, i as int, k);
                }
                return;
            }
        },
        None => {},
    }
    push_bytes(&mut rt.log, s);
}

/// Puts one byte out.
fn emit_one(rt: &mut Runtime, k: u32, b: u8)
    requires
        old(rt)@.wf(),
    ensures
        final(rt)@ == put_one(old(rt)@, k, b),
        final(rt)@.wf(),
{
    let ghost before = rt.files@;
    match locate(rt, k) {
        Some(i) => {
            if rt.files[i].file.is_file {
                rt.files[i].file.put(b);
                proof {
                    one_changed(before, rt.files@, i as int, k);
                }
                return;
            }
        },
        None => {},
    }
    rt.log.push(b);
    assert(rt.log@ =~= old(rt)@.log + seq![b]);
}

/// Whether a mode starts with a letter.
pub(crate) fn starts(mode: &[char], c: char) -> (r: bool)
    ensures
        r == mode_is(mode@, c),
{
    mode.len() > 0 && mode[0] == c
}

/// What a file holds when it is opened.
pub(crate) fn contents(rt: &Runtime, guest: &str, mode: &[char], outside: &Option<Vec<u8>>) -> (r: Option<
    Vec<u8>,
>)
    ensures
        match (
            r,
            opened_with(
                rt@,
                guest@,
                mode@,
                match *outside {
                    Some(d) => Some(d@),
                    None => None,
                },
            ),
        ) {
            (Some(d), Some(want)) => d@ == want,
            (None, None) => true,
            _ => false,
        },
{
    match find_name(&rt.overlays, guest) {
        Some(k) => {
            assert(naming(rt.overlays@)[k as int].1 == rt.overlays@[k as int].data@);
            return Some(vstd::slice::slice_to_vec(rt.overlays[k].data.as_slice()));
        },
        None => {},
    }
    let sink: bool = find_name(&rt.sinks, guest).is_some();
    if sink || starts(mode, 'w') {
        return Some(Vec::new());
    }
    match stored(rt.built_in, guest) {
        Some(d) => {
            return Some(vstd::slice::slice_to_vec(d));
        },
        None => {},
    }
    let append: bool = starts(mode, 'a');
    match (real_place(&rt.mounts, guest), outside) {
        (Some(_), Some(d)) => Some(vstd::slice::slice_to_vec(d.as_slice())),
        _ => if append {
            Some(Vec::new())
        } else {
            None
        },
    }
}

/// Opens a file.
fn open_call(rt: &mut Runtime, c: &mut Cpu, m: &Mem, a: &[u32], g: &Answer) -> (r: Action)
    requires
        old(rt)@.wf(),
        a@.len() == 20,
    ensures
        came_to(
            old(rt)@,
            *old(c),
            m@,
            final(rt)@,
            *final(c),
            m@,
            r@,
            open_does(world(old(rt)@, *old(c), m@), a@, g@),
        ),
{
    let path: String = match cstr(m, a[0]) {
        Some(p) => p,
        None => {
            return Action::Fault;
        },
    };
    let mode: Vec<char> = match cstr(m, a[1]) {
        Some(p) => chars_of(p.as_str()),
        None => {
            return Action::Fault;
        },
    };
    let guest: String = norm(path.as_str());
    let data: Vec<u8> = match contents(rt, guest.as_str(), mode.as_slice(), &g.file) {
        Some(d) => d,
        None => {
            give(c, 0);
            return Action::Done;
        },
    };
    if !rt.heap.has_room(8) {
        return Action::Fault;
    }
    let sink: bool = find_name(&rt.sinks, guest.as_str()).is_some();
    let place: Option<Place> = real_place(&rt.mounts, guest.as_str());
    let append: bool = starts(mode.as_slice(), 'a');
    let pos: usize = if append {
        data.len()
    } else {
        0
    };
    let file = Open {
        guest,
        place,
        sink,
        is_file: true,
        data,
        pos,
        dirty: append || starts(mode.as_slice(), 'w'),
    };
    assert(file@ =~= opened(rt@, guest@, mode@, data@));
    let f: u32 = rt.heap.allot(8);
    put_file(&mut rt.files, f, file);
    proof {
        files_stay_in_order(old(rt)@.files, f, file@);
    }
    give(c, f);
    Action::Done
}

/// Says what is to be written where.
fn to_write(out: Option<(Place, Vec<u8>)>) -> (r: Action)
    ensures
        r@ == write_deed(written_out(out)),
{
    match out {
        Some((place, data)) => Action::Write { place, data },
        None => Action::Done,
    }
}

/// Closes a file, or writes it out.
fn close_call(rt: &mut Runtime, c: &mut Cpu, k: u32, close: bool) -> (r: Action)
    requires
        old(rt)@.wf(),
    ensures
        final(rt)@.wf(),
        ({
            let (s, out) = flushed(old(rt)@, k);
            &&& r@ == write_deed(out)
            &&& final(rt)@ == if close {
                Machine { files: without_file(s.files, k), heap: s.heap.freed(k), ..s }
            } else {
                s
            }
        }),
        final(c).gives(*old(c), 0),
{
    let out: Option<(Place, Vec<u8>)> = rt.flush(k);
    if close {
        let ghost fs = filed(rt.files@);
        drop_file(&mut rt.files, k);
        proof {
            file_found(fs, k, 0);
            let g = without_file(fs, k);
            assert forall|i: int| 0 <= i < g.len() implies (#[trigger] g[i]).1.wf() by {
                let j = file_at(fs, k, 0);
                if j < fs.len() {
                    assert(g[i] == if i < j {
                        fs[i]
                    } else {
                        fs[i + 1]
                    });
                }
            }
        }
        rt.heap.free(k);
    }
    give(c, 0);
    to_write(out)
}

/// The size of `n` items of `sz` bytes, where a word holds it.
fn total_size(sz: u32, n: u32) -> (r: Option<u32>)
    ensures
        match r {
            Some(v) => v == sz * n,
            None => sz * n > u32::MAX,
        },
{
    assert(0 <= sz * n <= u32::MAX * u32::MAX) by (nonlinear_arith)
        requires
            0 <= sz <= u32::MAX,
            0 <= n <= u32::MAX,
    ;
    let wide: u64 = sz as u64 * n as u64;
    if wide <= u32::MAX as u64 {
        Some(wide as u32)
    } else {
        None
    }
}

/// Reads bytes.
fn read_call(rt: &mut Runtime, c: &mut Cpu, m: &mut Mem, a: &[u32]) -> (r: Action)
    requires
        old(rt)@.wf(),
        a@.len() == 20,
    ensures
        came_to(
            old(rt)@,
            *old(c),
            old(m)@,
            final(rt)@,
            *final(c),
            final(m)@,
            r@,
            read_does(world(old(rt)@, *old(c), old(m)@), a@),
        ),
{
    let want: u32 = match total_size(a[1], a[2]) {
        Some(n) => n,
        None => {
            return Action::Fault;
        },
    };
    let ghost before = rt.files@;
    let i: usize = match locate(rt, a[3]) {
        Some(i) => i,
        None => {
            give(c, 0);
            return Action::Done;
        },
    };
    let s: Vec<u8> = rt.files[i].file.read(want as usize);
    proof {
        one_changed(before, rt.files@, i as int, a@[3]);
    }
    let got: u32 = s.len() as u32;
    if !m.mapped(a[0], got) {
        return Action::Fault;
    }
    m.write(a[0], s.as_slice());
    give(
        c,
        if a[1] == 0 {
            0
        } else {
            got / a[1]
        },
    );
    Action::Done
}

/// Writes bytes.
fn write_call(rt: &mut Runtime, c: &mut Cpu, m: &Mem, a: &[u32]) -> (r: Action)
    requires
        old(rt)@.wf(),
        a@.len() == 20,
    ensures
        came_to(
            old(rt)@,
            *old(c),
            m@,
            final(rt)@,
            *final(c),
            m@,
            r@,
            write_does(world(old(rt)@, *old(c), m@), a@),
        ),
{
    let n: u32 = match total_size(a[1], a[2]) {
        Some(n) => n,
        None => {
            return Action::Fault;
        },
    };
    if !m.mapped(a[0], n) {
        return Action::Fault;
    }
    let s: Vec<u8> = m.read(a[0], n as usize);
    let ghost before = rt.files@;
    let mut filed_away: bool = false;
    match locate(rt, a[3]) {
        Some(i) => {
            if rt.files[i].file.is_file {
                rt.files[i].file.write(s.as_slice());
                proof {
                    one_changed(before, rt.files@, i as int, a@[3]);
                }
                filed_away = true;
            }
        },
        None => {},
    }
    if !filed_away {
        push_bytes(&mut rt.log, s.as_slice());
    }
    give(c, a[2]);
    Action::Done
}

/// Reads a byte.
fn byte_call(rt: &mut Runtime, c: &mut Cpu, a: &[u32]) -> (r: Action)
    requires
        old(rt)@.wf(),
        a@.len() == 20,
    ensures
        forall|m: Space, g: Given|
            #[trigger] came_to(
                old(rt)@,
                *old(c),
                m,
                final(rt)@,
                *final(c),
                m,
                r@,
                file_does(FileCall::GetByte, world(old(rt)@, *old(c), m), a@, g),
            ),
{
    let ghost before = rt.files@;
    let i: usize = match locate(rt, a[0]) {
        Some(i) => i,
        None => {
            give(c, u32::MAX);
            return Action::Done;
        },
    };
    if rt.files[i].file.pos >= rt.files[i].file.data.len() {
        give(c, u32::MAX);
        return Action::Done;
    }
    let b: u8 = rt.files[i].file.data[rt.files[i].file.pos];
    let _s: Vec<u8> = rt.files[i].file.read(1);
    proof {
        one_changed(before, rt.files@, i as int, a@[0]);
    }
    give(c, b as u32);
    Action::Done
}

/// Reads a line.
fn line_call(rt: &mut Runtime, c: &mut Cpu, m: &mut Mem, a: &[u32]) -> (r: Action)
    requires
        old(rt)@.wf(),
        a@.len() == 20,
    ensures
        came_to(
            old(rt)@,
            *old(c),
            old(m)@,
            final(rt)@,
            *final(c),
            final(m)@,
            r@,
            line_does(world(old(rt)@, *old(c), old(m)@), a@),
        ),
{
    let ghost before = rt.files@;
    let i: usize = match locate(rt, a[2]) {
        Some(i) => i,
        None => {
            give(c, 0);
            return Action::Done;
        },
    };
    if rt.files[i].file.pos >= rt.files[i].file.data.len() {
        give(c, 0);
        return Action::Done;
    }
    let s: Vec<u8> = rt.files[i].file.read_line(a[1]);
    proof {
        one_changed(before, rt.files@, i as int, a@[2]);
    }
    if !reachable(m, a[0], s.len() as u64 + 1) {
        return Action::Fault;
    }
    put_cstr(m, a[0], s.as_slice());
    give(c, a[0]);
    Action::Done
}

/// Moves a file's position: a seek, or back to the start.
fn move_call(rt: &mut Runtime, k: u32, off: u32, whence: u32)
    requires
        old(rt)@.wf(),
    ensures
        final(rt)@.wf(),
        final(rt)@ == match file_of(old(rt)@.files, k) {
            Some(o) => changed(
                old(rt)@,
                k,
                OpenFile { pos: o.sought(crate::xrt::flags::as_signed(off), whence), ..o },
            ),
            None => old(rt)@,
        },
{
    let ghost before = rt.files@;
    match locate(rt, k) {
        Some(i) => {
            let x: i32 = if off >= 0x8000_0000 {
                (off as i64 - 0x1_0000_0000) as i32
            } else {
                off as i32
            };
            rt.files[i].file.seek(x, whence);
            proof {
                one_changed(before, rt.files@, i as int, k);
            }
        },
        None => {},
    }
}

/// Where a file's position is, and whether it is at the end.
fn position(rt: &Runtime, k: u32) -> (r: (u32, bool))
    requires
        rt@.wf(),
    ensures
        r == match file_of(rt@.files, k) {
            Some(o) => ((o.pos % 0x1_0000_0000) as u32, o.pos >= o.data.len()),
            None => (0u32, false),
        },
{
    match locate(rt, k) {
        Some(i) => {
            let pos: usize = rt.files[i].file.pos;
            ((pos as u64 % 0x1_0000_0000) as u32, pos >= rt.files[i].file.data.len())
        },
        None => (0, false),
    }
}

/// The bytes that a formatting call writes.
fn print_text(call: FileCall, m: &Mem, a: &[u32], texts: &Vec<String>) -> (r: Option<Vec<u8>>)
    requires
        a@.len() == 20,
    ensures
        match (r, printed(call, m@, a@, crate::engine::cfmt::byte_texts(texts@))) {
            (Some(s), Some(want)) => s@ == want,
            (None, None) => true,
            _ => false,
        },
{
    let i: usize = match call {
        FileCall::Print => 0,
        FileCall::PrintLimited => 2,
        _ => 1,
    };
    match crate::engine::cfmt::format(m, a[i], a, i + 1) {
        Some(ps) => {
            assert(parts(ps@).len() == ps@.len());
            render(&ps, texts)
        },
        None => None,
    }
}

/// Writes formatted text.
fn print_call(
    call: FileCall,
    rt: &mut Runtime,
    c: &mut Cpu,
    m: &mut Mem,
    a: &[u32],
    g: &Answer,
) -> (r: Action)
    requires
        old(rt)@.wf(),
        a@.len() == 20,
    ensures
        came_to(
            old(rt)@,
            *old(c),
            old(m)@,
            final(rt)@,
            *final(c),
            final(m)@,
            r@,
            print_does(call, world(old(rt)@, *old(c), old(m)@), a@, g@),
        ),
{
    let s: Vec<u8> = match print_text(call, m, a, &g.texts) {
        Some(s) => s,
        None => {
            return Action::Fault;
        },
    };
    let n: u32 = (s.len() as u64 % 0x1_0000_0000) as u32;
    match call {
        FileCall::PrintMemory | FileCall::PrintLimited => {
            let mut t: &[u8] = s.as_slice();
            if let FileCall::PrintLimited = call {
                let cap: u32 = if a[1] == 0 {
                    0
                } else {
                    a[1] - 1
                };
                if s.len() as u64 > cap as u64 {
                    t = vstd::slice::slice_subrange(s.as_slice(), 0, cap as usize);
                }
            }
            assert(t@ == clipped(call, s@, a@[1]));
            if t.len() as u64 >= 0x1_0000_0000 || !reachable(m, a[0], t.len() as u64 + 1) {
                return Action::Fault;
            }
            put_cstr(m, a[0], t);
        },
        _ => {
            let k: u32 = if let FileCall::PrintFile = call {
                a[0]
            } else {
                0
            };
            emit(rt, k, s.as_slice());
        },
    }
    give(c, n);
    Action::Done
}

/// Reads values out of a text.
fn scan_call(rt: &Runtime, c: &mut Cpu, m: &mut Mem, a: &[u32], g: &Answer) -> (r: Action)
    requires
        rt@.wf(),
        a@.len() == 20,
    ensures
        came_to(
            rt@,
            *old(c),
            old(m)@,
            rt@,
            *final(c),
            final(m)@,
            r@,
            scan_does(world(rt@, *old(c), old(m)@), a@, g@),
        ),
{
    let s: Vec<char> = match cstr(m, a[0]) {
        Some(s) => chars_of(s.as_str()),
        None => {
            return Action::Fault;
        },
    };
    let f: Vec<char> = match cstr(m, a[1]) {
        Some(s) => chars_of(s.as_str()),
        None => {
            return Action::Fault;
        },
    };
    let vs: Vec<Found> = match scan(s.as_slice(), f.as_slice()) {
        Some(v) => v,
        None => {
            return Action::Fault;
        },
    };
    assert(values(vs@).len() == vs@.len());
    if !store(m, &vs, &g.values, a, 2) {
        return Action::Fault;
    }
    give(c, (vs.len() as u64 % 0x1_0000_0000) as u32);
    Action::Done
}

/// Makes a call on a file.
pub fn file_call(
    call: FileCall,
    rt: &mut Runtime,
    c: &mut Cpu,
    m: &mut Mem,
    a: &[u32],
    g: &Answer,
) -> (r: Action)
    requires
        old(rt)@.wf(),
        a@.len() == 20,
    ensures
        came_to(
            old(rt)@,
            *old(c),
            old(m)@,
            final(rt)@,
            *final(c),
            final(m)@,
            r@,
            file_does(call, world(old(rt)@, *old(c), old(m)@), a@, g@),
        ),
{
    match call {
        FileCall::Open => open_call(rt, c, m, a, g),
        FileCall::Close => close_call(rt, c, a[0], true),
        FileCall::Read => read_call(rt, c, m, a),
        FileCall::Write => write_call(rt, c, m, a),
        FileCall::GetByte => byte_call(rt, c, a),
        FileCall::GetLine => line_call(rt, c, m, a),
        FileCall::PutByte => {
            emit_one(rt, a[1], (a[0] % 0x100) as u8);
            give(c, a[0]);
            Action::Done
        },
        FileCall::PutConsole => {
            emit_one(rt, 0, (a[0] % 0x100) as u8);
            give(c, a[0]);
            Action::Done
        },
        FileCall::PutText => match cstr_bytes(m, a[0]) {
            Some(s) => {
                emit(rt, a[1], s.as_slice());
                give(c, 0);
                Action::Done
            },
            None => Action::Fault,
        },
        FileCall::Seek => {
            move_call(rt, a[0], a[1], a[2]);
            give(c, 0);
            Action::Done
        },
        FileCall::Tell => {
            let v: u32 = position(rt, a[0]).0;
            give(c, v);
            Action::Done
        },
        FileCall::Rewind => {
            move_call(rt, a[0], 0, 0);
            Action::Done
        },
        FileCall::AtEnd => {
            let end: bool = position(rt, a[0]).1;
            give(
                c,
                if end {
                    1
                } else {
                    0
                },
            );
            Action::Done
        },
        FileCall::Flush => close_call(rt, c, a[0], false),
        FileCall::Remove => match cstr(m, a[0]) {
            Some(path) => {
                let guest: String = norm(path.as_str());
                let place: Option<Place> = real_place(&rt.mounts, guest.as_str());
                give(c, 0);
                match place {
                    Some(p) => Action::Remove(p),
                    None => Action::Done,
                }
            },
            None => Action::Fault,
        },
        FileCall::Scan => scan_call(rt, c, m, a, g),
        _ => print_call(call, rt, c, m, a, g),
    }
}

/// The texts of the numbers with a fraction among the first `n` values.
pub open spec fn real_texts(vs: Seq<Value>, n: nat) -> Seq<Seq<char>>
    decreases n,
{
    if n == 0 {
        Seq::empty()
    } else {
        match vs[n - 1] {
            Value::Real(t, _) => real_texts(vs, (n - 1) as nat).push(t),
            _ => real_texts(vs, (n - 1) as nat),
        }
    }
}

/// What a call on a file needs to know.
pub open spec fn file_wants(call: FileCall, w: World, a: Seq<u32>) -> Want {
    match call {
        FileCall::Open => match (text_in(w.m, a[0]), text_in(w.m, a[1])) {
            (Some(path), Some(mode)) => {
                let guest = normal(path);
                match led_to(w.rt.mounts, guest) {
                    Some(p) => if looks_outside(w.rt, guest, mode) {
                        Want::File(p)
                    } else {
                        Want::Nothing
                    },
                    None => Want::Nothing,
                }
            },
            _ => Want::Nothing,
        },
        FileCall::Print
        | FileCall::PrintFile
        | FileCall::PrintMemory
        | FileCall::PrintLimited => {
            let i = format_arg(call);
            match formatted(w.m, a[i], a, i + 1) {
                Some(ps) => Want::Texts(reals(ps, ps.len())),
                None => Want::Nothing,
            }
        },
        FileCall::Scan => match (text_in(w.m, a[0]), text_in(w.m, a[1])) {
            (Some(s), Some(f)) => match scanned(s, f) {
                Some(vs) => Want::Values(real_texts(vs, vs.len())),
                None => Want::Nothing,
            },
            _ => Want::Nothing,
        },
        _ => Want::Nothing,
    }
}

/// The texts of the numbers with a fraction.
fn open_texts(vs: &Vec<Found>) -> (r: Vec<String>)
    ensures
        crate::data::sde::strings(r@) == real_texts(values(vs@), vs@.len()),
{
    let mut out: Vec<String> = Vec::new();
    assert(crate::data::sde::strings(out@) =~= Seq::empty());
    let mut i: usize = 0;
    while i < vs.len()
        invariant
            i <= vs@.len(),
            crate::data::sde::strings(out@) == real_texts(values(vs@), i as nat),
        decreases vs@.len() - i,
    {
        assert(values(vs@)[i as int] == vs@[i as int]@);
        match &vs[i] {
            Found::Real { text, long: _ } => {
                let ghost before = crate::data::sde::strings(out@);
                let t: String = text.clone();
                out.push(t);
                assert(crate::data::sde::strings(out@) =~= before.push(t@));
            },
            _ => {},
        }
        i = i + 1;
    }
    out
}

/// What opening a file needs to know.
fn open_needs(rt: &Runtime, m: &Mem, a: &[u32]) -> (r: Need)
    requires
        a@.len() == 20,
    ensures
        forall|c: Cpu| r@ == #[trigger] file_wants(FileCall::Open, world(rt@, c, m@), a@),
{
    let (path, mode) = match (cstr(m, a[0]), cstr(m, a[1])) {
        (Some(p), Some(o)) => (p, chars_of(o.as_str())),
        _ => {
            return Need::Nothing;
        },
    };
    let guest: String = norm(path.as_str());
    let inside: bool = find_name(&rt.overlays, guest.as_str()).is_some() || find_name(
        &rt.sinks,
        guest.as_str(),
    ).is_some() || starts(mode.as_slice(), 'w') || stored(rt.built_in, guest.as_str()).is_some();
    assert(inside == !looks_outside(rt@, guest@, mode@));
    match real_place(&rt.mounts, guest.as_str()) {
        Some(p) => if inside {
            Need::Nothing
        } else {
            Need::File(p)
        },
        None => Need::Nothing,
    }
}

/// Says what a call on a file needs to know.
pub fn file_needs(call: FileCall, rt: &Runtime, m: &Mem, a: &[u32]) -> (r: Need)
    requires
        a@.len() == 20,
    ensures
        forall|c: Cpu| r@ == #[trigger] file_wants(call, world(rt@, c, m@), a@),
{
    match call {
        FileCall::Open => open_needs(rt, m, a),
        FileCall::Print
        | FileCall::PrintFile
        | FileCall::PrintMemory
        | FileCall::PrintLimited => {
            let i: usize = match call {
                FileCall::Print => 0,
                FileCall::PrintLimited => 2,
                _ => 1,
            };
            match crate::engine::cfmt::format(m, a[i], a, i + 1) {
                Some(ps) => {
                    assert(parts(ps@).len() == ps@.len());
                    Need::Texts(open_numbers(&ps))
                },
                None => Need::Nothing,
            }
        },
        FileCall::Scan => match (cstr(m, a[0]), cstr(m, a[1])) {
            (Some(s), Some(f)) => {
                let (s, f) = (chars_of(s.as_str()), chars_of(f.as_str()));
                match scan(s.as_slice(), f.as_slice()) {
                    Some(vs) => {
                        assert(values(vs@).len() == vs@.len());
                        Need::Values(open_texts(&vs))
                    },
                    None => Need::Nothing,
                }
            },
            _ => Need::Nothing,
        },
        _ => Need::Nothing,
    }
}

/// What is written to a file reads back: after a write of `n` bytes that lie in
/// memory and a seek back over them, a read gives the same bytes.
pub proof fn reads_give_back_writes(o: OpenFile, s: Seq<u8>)
    requires
        o.wf(),
    ensures
        ({
            let w = o.written(s);
            let back = OpenFile { pos: w.sought(-(s.len() as int), 1), ..w };
            &&& w.wf()
            &&& back.pos == o.pos
            &&& back.available(s.len() as int) == s.len()
            &&& back.data.subrange(back.pos, back.pos + s.len()) == s
        }),
{
    let w = o.written(s);
    assert(w.data.subrange(o.pos, o.pos + s.len()) =~= s);
}

} // verus!

//! What is reported of calls, for whoever wants to see why the engine does not
//! find something.
use vstd::prelude::*;
use super::files::{contents, mode_is, opened_with, starts, FileCall};
use super::import::Call;
use super::others::{handle_of, mapped_room, module_handle, start_does, OtherCall};
use crate::data::chars::{
    chars_of, debug_of, debug_text, hex8, push_decimal, push_hex8, push_str, text_of, written,
};
use crate::engine::files::{file_of, find_file};
use crate::engine::paths::{led_to, norm, normal, real_place, spot, stored, stored_bytes, Place, Spot};
use crate::engine::runtime::{find_name, under, Machine, Runtime};
use crate::engine::world::{
    arguments, cstr, stack_there, take_arguments, text_in, world, Answer, Given, World,
};
use crate::xrt::cpu::Cpu;
use crate::xrt::mem::{Mem, Space};

verus! {

/// Where a file's contents come from when it is opened.
pub open spec fn source_of(rt: Machine, guest: Seq<char>, mode: Seq<char>) -> Seq<char> {
    if under(rt.overlays, guest) is Some {
        "overlay"@
    } else if under(rt.sinks, guest) is Some || mode_is(mode, 'w') {
        "sink"@
    } else if stored_bytes(rt.built_in, guest) is Some {
        "built in"@
    } else {
        "disk"@
    }
}

/// Whether a path is known to the runtime, whatever lies on disk.
pub open spec fn is_known(rt: Machine, guest: Seq<char>) -> bool {
    ||| under(rt.overlays, guest) is Some
    ||| stored_bytes(rt.built_in, guest) is Some
    ||| under(rt.sinks, guest) is Some
}

/// The line for a file that was opened.
pub open spec fn open_line(
    guest: Seq<char>,
    mode: Seq<char>,
    n: nat,
    from: Seq<char>,
    missing: bool,
) -> Seq<char> {
    "[open] "@ + debug_text(guest) + " "@ + debug_text(mode) + " -> "@ + written(n, 10)
        + " bytes ("@ + from + ")"@ + if missing {
        "  MISSING"@
    } else {
        Seq::empty()
    }
}

/// The line for opening a file. There is none where it is not opened.
pub open spec fn open_report(w: World, a: Seq<u32>, g: Given, there: bool) -> Option<Seq<char>> {
    match (text_in(w.m, a[0]), text_in(w.m, a[1])) {
        (Some(path), Some(mode)) => {
            let guest = normal(path);
            match opened_with(w.rt, guest, mode, g.file) {
                Some(data) => if w.rt.heap.has_room(8) {
                    Some(
                        open_line(
                            guest,
                            mode,
                            data.len(),
                            source_of(w.rt, guest, mode),
                            !there && !is_known(w.rt, guest),
                        ),
                    )
                } else {
                    None
                },
                None => None,
            }
        },
        _ => None,
    }
}

/// The line for finding a module.
pub open spec fn module_report(w: World, a: Seq<u32>) -> Option<Seq<char>> {
    match text_in(w.m, a[0]) {
        Some(path) => match module_handle(w.rt.modules, path) {
            Some(h) => Some(
                "[dlopen] "@ + debug_text(path) + " -> 0x"@ + hex8(h) + if h == 0 {
                    "  NOT BUILT IN"@
                } else {
                    Seq::empty()
                },
            ),
            None => None,
        },
        None => None,
    }
}

/// The line for finding a routine, where it is not found.
pub open spec fn routine_report(w: World, a: Seq<u32>) -> Option<Seq<char>> {
    match text_in(w.m, a[1]) {
        Some(name) => if under(w.rt.exports, name) is None || under(w.rt.exports, name)
            == Some(0u32) {
            Some("[dlsym] "@ + debug_text(name) + " is not exported by any module"@)
        } else {
            None
        },
        None => None,
    }
}

/// The line for mapping a file.
pub open spec fn map_report(w: World, a: Seq<u32>) -> Option<Seq<char>> {
    if file_of(w.rt.files, a[4]) is None {
        Some("[mmap] no open file for fd 0x"@ + hex8(a[4]))
    } else if w.rt.mmap_next + mapped_room(a[1] as int) <= u32::MAX {
        Some(
            "[mmap] fd 0x"@ + hex8(a[4]) + " +"@ + written(a[5] as nat, 10) + " len "@ + written(
                a[1] as nat,
                10,
            ) + " -> 0x"@ + hex8(w.rt.mmap_next),
        )
    } else {
        None
    }
}

/// The line for starting a thread. There is none where it cannot be started.
pub open spec fn start_report(w: World, a: Seq<u32>, g: Given) -> Option<Seq<char>> {
    if start_does(w, a, g).1 is Spawn {
        Some(
            "[sched] thread "@ + written(g.thread as nat, 10) + " at 0x"@ + hex8(a[2])
                + ", stack 0x"@ + hex8((0x7E00_0000 - (g.thread - 1) * 0x40_0000) as u32),
        )
    } else {
        None
    }
}

/// The line that is reported of a call before it is made with what it was told,
/// where there is one. `there` is whether something lies where the call would
/// look on disk.
pub open spec fn reported(call: Call, w: World, g: Given, there: bool) -> Option<Seq<char>> {
    let a = arguments(w.r, w.m);
    if !stack_there(w.r, w.m) {
        None
    } else if call == Call::File(FileCall::Open) {
        open_report(w, a, g, there)
    } else if call == Call::Other(OtherCall::Module) {
        module_report(w, a)
    } else if call == Call::Other(OtherCall::Routine) {
        routine_report(w, a)
    } else if call == Call::Other(OtherCall::MapFile) {
        map_report(w, a)
    } else if call == Call::Other(OtherCall::Start) {
        start_report(w, a, g)
    } else {
        None
    }
}

/// Where a call would look on disk for what it opens.
pub open spec fn looked_for(call: Call, w: World) -> Option<Spot> {
    if call == Call::File(FileCall::Open) && stack_there(w.r, w.m) {
        match text_in(w.m, arguments(w.r, w.m)[0]) {
            Some(path) => led_to(w.rt.mounts, normal(path)),
            None => None,
        }
    } else {
        None
    }
}

/// A line as mathematics.
pub open spec fn line_in(r: Option<String>) -> Option<Seq<char>> {
    match r {
        Some(s) => Some(s@),
        None => None,
    }
}

fn say_open(rt: &Runtime, m: &Mem, a: &[u32], g: &Answer, there: bool) -> (r: Option<String>)
    requires
        a@.len() == 20,
    ensures
        forall|c: Cpu|
            line_in(r) == #[trigger] open_report(world(rt@, c, m@), a@, g@, there),
{
    let (path, mode) = match (cstr(m, a[0]), cstr(m, a[1])) {
        (Some(p), Some(o)) => (p, o),
        _ => {
            return None;
        },
    };
    let guest: String = norm(path.as_str());
    let letters: Vec<char> = chars_of(mode.as_str());
    let n: usize = match contents(rt, guest.as_str(), letters.as_slice(), &g.file) {
        Some(d) => d.len(),
        None => {
            return None;
        },
    };
    if !rt.heap.has_room(8) {
        return None;
    }
    let overlay: bool = find_name(&rt.overlays, guest.as_str()).is_some();
    let sink: bool = find_name(&rt.sinks, guest.as_str()).is_some();
    let carried: bool = stored(rt.built_in, guest.as_str()).is_some();
    let from: &str = if overlay {
        "overlay"
    } else if sink || starts(letters.as_slice(), 'w') {
        "sink"
    } else if carried {
        "built in"
    } else {
        "disk"
    };
    assert(from@ == source_of(rt@, guest@, mode@));
    let mut out: Vec<char> = chars_of("[open] ");
    push_str(&mut out, debug_of(guest.as_str()).as_str());
    push_str(&mut out, " ");
    push_str(&mut out, debug_of(mode.as_str()).as_str());
    push_str(&mut out, " -> ");
    push_decimal(&mut out, n as u64);
    push_str(&mut out, " bytes (");
    push_str(&mut out, from);
    push_str(&mut out, ")");
    let missing: bool = !there && !overlay && !carried && !sink;
    if missing {
        push_str(&mut out, "  MISSING");
    }
    assert(out@ =~= open_line(guest@, mode@, n as nat, from@, missing));
    Some(text_of(out.as_slice()))
}

fn say_module(rt: &Runtime, m: &Mem, a: &[u32]) -> (r: Option<String>)
    requires
        a@.len() == 20,
    ensures
        forall|c: Cpu| line_in(r) == #[trigger] module_report(world(rt@, c, m@), a@),
{
    let path: String = match cstr(m, a[0]) {
        Some(p) => p,
        None => {
            return None;
        },
    };
    let h: u32 = match handle_of(rt, path.as_str()) {
        Some(h) => h,
        None => {
            return None;
        },
    };
    let mut out: Vec<char> = chars_of("[dlopen] ");
    push_str(&mut out, debug_of(path.as_str()).as_str());
    push_str(&mut out, " -> 0x");
    push_hex8(&mut out, h);
    if h == 0 {
        push_str(&mut out, "  NOT BUILT IN");
    }
    assert(out@ =~= "[dlopen] "@ + debug_text(path@) + " -> 0x"@ + hex8(h) + if h == 0 {
        "  NOT BUILT IN"@
    } else {
        Seq::empty()
    });
    Some(text_of(out.as_slice()))
}

fn say_routine(rt: &Runtime, m: &Mem, a: &[u32]) -> (r: Option<String>)
    requires
        a@.len() == 20,
    ensures
        forall|c: Cpu| line_in(r) == #[trigger] routine_report(world(rt@, c, m@), a@),
{
    let name: String = match cstr(m, a[1]) {
        Some(p) => p,
        None => {
            return None;
        },
    };
    let at: u32 = match rt.lookup(name.as_str()) {
        Some(at) => at,
        None => 0,
    };
    if at != 0 {
        return None;
    }
    let mut out: Vec<char> = chars_of("[dlsym] ");
    push_str(&mut out, debug_of(name.as_str()).as_str());
    push_str(&mut out, " is not exported by any module");
    Some(text_of(out.as_slice()))
}

fn say_map(rt: &Runtime, a: &[u32]) -> (r: Option<String>)
    requires
        a@.len() == 20,
    ensures
        forall|c: Cpu, m: Space| line_in(r) == #[trigger] map_report(world(rt@, c, m), a@),
{
    if find_file(&rt.files, a[4]).is_none() {
        let mut out: Vec<char> = chars_of("[mmap] no open file for fd 0x");
        push_hex8(&mut out, a[4]);
        return Some(text_of(out.as_slice()));
    }
    let pages: u64 = (a[1] as u64 + 0xfff) / 0x1000 * 0x1000;
    let room: u64 = if pages < 0x1000 {
        0x1000
    } else {
        pages
    };
    if rt.mmap_next as u64 + room > u32::MAX as u64 {
        return None;
    }
    let mut out: Vec<char> = chars_of("[mmap] fd 0x");
    push_hex8(&mut out, a[4]);
    push_str(&mut out, " +");
    push_decimal(&mut out, a[5] as u64);
    push_str(&mut out, " len ");
    push_decimal(&mut out, a[1] as u64);
    push_str(&mut out, " -> 0x");
    push_hex8(&mut out, rt.mmap_next);
    Some(text_of(out.as_slice()))
}

fn say_start(rt: &Runtime, m: &Mem, a: &[u32], g: &Answer) -> (r: Option<String>)
    requires
        a@.len() == 20,
    ensures
        forall|c: Cpu| line_in(r) == #[trigger] start_report(world(rt@, c, m@), a@, g@),
{
    let k: u32 = g.thread;
    if k < 1 || k > 504 {
        return None;
    }
    let top: u32 = 0x7E00_0000 - (k - 1) * 0x40_0000;
    if !m.vacant(top - 0x40_0000, 0x40_0000) || (a[0] != 0 && !m.mapped(a[0], 4)) {
        return None;
    }
    let mut out: Vec<char> = chars_of("[sched] thread ");
    push_decimal(&mut out, k as u64);
    push_str(&mut out, " at 0x");
    push_hex8(&mut out, a[2]);
    push_str(&mut out, ", stack 0x");
    push_hex8(&mut out, top);
    Some(text_of(out.as_slice()))
}

impl Runtime {
    /// Says what is reported of a call that is about to be made with what it
    /// was told, where anything is. `there` is whether something lies where
    /// [`Runtime::looks_for`] says.
    pub fn report(&self, call: Call, c: &Cpu, m: &Mem, g: &Answer, there: bool) -> (r: Option<String>)
        ensures
            line_in(r) == reported(call, world(self@, *c, m@), g@, there),
    {
        let a: Vec<u32> = match take_arguments(c, m) {
            Some(a) => a,
            None => {
                return None;
            },
        };
        match call {
            Call::File(FileCall::Open) => say_open(self, m, a.as_slice(), g, there),
            Call::Other(OtherCall::Module) => say_module(self, m, a.as_slice()),
            Call::Other(OtherCall::Routine) => say_routine(self, m, a.as_slice()),
            Call::Other(OtherCall::MapFile) => say_map(self, a.as_slice()),
            Call::Other(OtherCall::Start) => say_start(self, m, a.as_slice(), g),
            _ => None,
        }
    }

    /// Says where a call would look on disk for what it opens.
    pub fn looks_for(&self, call: Call, c: &Cpu, m: &Mem) -> (r: Option<Place>)
        ensures
            spot(r) == looked_for(call, world(self@, *c, m@)),
    {
        let a: Vec<u32> = match take_arguments(c, m) {
            Some(a) => a,
            None => {
                return None;
            },
        };
        match call {
            Call::File(FileCall::Open) => match cstr(m, a[0]) {
                Some(path) => real_place(&self.mounts, norm(path.as_str()).as_str()),
                None => None,
            },
            _ => None,
        }
    }
}

/// What is reported is what is done: a file is reported exactly where it opens, a
/// module with the handle that it gets, a routine exactly where none is found.
pub proof fn reports_tell_what_is_done(w: World, a: Seq<u32>, g: Given, there: bool)
    requires
        w.r.len() > 0,
    ensures
        ({
            let (x, deed) = super::files::open_does(w, a, g);
            &&& open_report(w, a, g, there) is Some ==> deed is Done && x.r[0] == w.rt.heap.block(8)
                && x.rt.heap == w.rt.heap.after(8)
            &&& open_report(w, a, g, there) is None ==> deed is Fault || (x.r[0] == 0 && x.rt
                == w.rt)
        }),
        text_in(w.m, a[1]) is Some ==> (routine_report(w, a) is Some <==> super::others::other_does(
            OtherCall::Routine,
            w,
            a,
            g,
        ).0.r[0] == 0),
        start_report(w, a, g) is Some <==> start_does(w, a, g).1 is Spawn,
{
}

} // verus!

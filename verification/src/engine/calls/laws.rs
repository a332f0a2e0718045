//! What holds of calls whatever their arguments are.
use vstd::prelude::*;
use crate::data::sde::strings;
use crate::engine::files::{file_at, file_found, file_of, with_file, without_file, OpenFile};
use crate::engine::paths::{normal, stored_bytes};
use crate::engine::runtime::{
    bare_machine, first_space, flushed, started, stream, symbols, told, with_name, with_streams,
    Machine, Modules,
};
use crate::engine::world::{arguments, text_in, Given, World};
use crate::xrt::mem::Space;
use super::files::{changed, file_does, file_wants, opened, opened_with, FileCall};
use super::import::{does, wants, Call};
use super::others::map_does;

verus! {

/// Whether no open file is one on disk, and none can become one.
pub open spec fn off_disk(rt: Machine) -> bool {
    rt.mounts.len() == 0 && forall|i: int|
        0 <= i < rt.files.len() ==> (#[trigger] rt.files[i]).1.place is None
}

proof fn found_files_are_off_disk(rt: Machine, k: u32)
    requires
        off_disk(rt),
    ensures
        file_of(rt.files, k) matches Some(o) ==> o.place is None,
{
    file_found(rt.files, k, 0);
}

proof fn changed_files_stay_off_disk(rt: Machine, k: u32, f: OpenFile)
    requires
        off_disk(rt),
        f.place is None,
    ensures
        off_disk(changed(rt, k, f)),
{
    file_found(rt.files, k, 0);
}

proof fn dropped_files_stay_off_disk(rt: Machine, k: u32)
    requires
        off_disk(rt),
    ensures
        off_disk(Machine { files: without_file(rt.files, k), ..rt }),
{
    file_found(rt.files, k, 0);
}

proof fn flushing_stays_off_disk(rt: Machine, k: u32)
    requires
        off_disk(rt),
    ensures
        off_disk(flushed(rt, k).0),
        flushed(rt, k).1 is None,
{
    found_files_are_off_disk(rt, k);
    if let Some(o) = file_of(rt.files, k) {
        changed_files_stay_off_disk(rt, k, OpenFile { dirty: false, ..o });
    }
}

proof fn file_calls_stay_off_disk(call: FileCall, w: World, a: Seq<u32>, g: Given)
    requires
        off_disk(w.rt),
    ensures
        off_disk(file_does(call, w, a, g).0.rt),
        !(file_does(call, w, a, g).1 is Write),
        !(file_does(call, w, a, g).1 is Remove),
        !(file_wants(call, w, a) is File),
        !(file_wants(call, w, a) is Names),
{
    assert forall|k: u32, f: OpenFile| f.place is None implies off_disk(
        #[trigger] changed(w.rt, k, f),
    ) by {
        changed_files_stay_off_disk(w.rt, k, f);
    }
    assert forall|k: u32|
        (#[trigger] file_of(w.rt.files, k)) matches Some(o) ==> o.place is None by {
        found_files_are_off_disk(w.rt, k);
    }
    match call {
        FileCall::Open => {
            if let (Some(path), Some(mode)) = (text_in(w.m, a[0]), text_in(w.m, a[1])) {
                let guest = normal(path);
                if let Some(data) = opened_with(w.rt, guest, mode, g.file) {
                    let f = w.rt.heap.block(8);
                    assert(off_disk(changed(w.rt, f, opened(w.rt, guest, mode, data))));
                }
            }
        },
        FileCall::Close => {
            flushing_stays_off_disk(w.rt, a[0]);
            dropped_files_stay_off_disk(flushed(w.rt, a[0]).0, a[0]);
        },
        FileCall::Flush => {
            flushing_stays_off_disk(w.rt, a[0]);
        },
        _ => {},
    }
}

/// Without mounted directories no call looks at the disk, writes to it or
/// removes anything from it, and that stays so.
pub proof fn calls_stay_off_disk(call: Call, w: World, g: Given)
    requires
        off_disk(w.rt),
    ensures
        off_disk(does(call, w, g).0.rt),
        !(does(call, w, g).1 is Write),
        !(does(call, w, g).1 is Remove),
        !(wants(call, w) is File),
        !(wants(call, w) is Names),
{
    if let Call::File(k) = call {
        file_calls_stay_off_disk(k, w, arguments(w.r, w.m), g);
    }
}

proof fn streams_stay_off_disk(rt: Machine, m: Space, host: Seq<(Seq<char>, u32)>, n: nat)
    requires
        off_disk(rt),
    ensures
        with_streams(rt, m, host, n) matches Some((s, _)) ==> off_disk(s),
    decreases n,
{
    if n > 0 {
        streams_stay_off_disk(rt, m, host, (n - 1) as nat);
        if let Some((s, w)) = with_streams(rt, m, host, (n - 1) as nat) {
            changed_files_stay_off_disk(s, s.heap.block(8), stream(host[n - 1].0));
        }
    }
}

/// A runtime over files that the program carries alone starts without mounted
/// directories, and so stays off the disk.
pub proof fn carried_files_keep_off_disk(
    files: Seq<(&'static str, &'static [u8])>,
    mods: Modules,
)
    ensures
        started(""@, ""@, files, mods) matches Some((rt, _)) ==> off_disk(rt),
{
    let rt = bare_machine(""@, ""@, files, symbols(mods.exports@), strings(mods.names@));
    reveal_strlit("");
    assert(rt.mounts.len() == 0);
    streams_stay_off_disk(
        rt,
        told(first_space(mods.regions@), rt.dl_err),
        symbols(mods.host_data@),
        mods.host_data@.len(),
    );
}

/// What is written to a captured path is kept and never written out.
pub proof fn captured_paths_are_kept(rt: Machine, f: u32)
    ensures
        file_of(rt.files, f) matches Some(o) ==> (o.sink ==> flushed(rt, f).1 is None && (o.dirty
            ==> flushed(rt, f).0.sinks == with_name(rt.sinks, o.guest, o.data))),
{
}

/// A file that the program carries is what it is, whatever lies on disk.
pub proof fn carried_files_win(
    rt: Machine,
    guest: Seq<char>,
    mode: Seq<char>,
    x: Option<Seq<u8>>,
    y: Option<Seq<u8>>,
)
    requires
        stored_bytes(rt.built_in, guest) is Some,
    ensures
        opened_with(rt, guest, mode, x) == opened_with(rt, guest, mode, y),
        opened_with(rt, guest, mode, x) is Some,
{
}

/// A file is mapped from an offset and not from its position: moving the
/// position changes neither what is mapped nor where.
pub proof fn mapping_ignores_the_position(w: World, a: Seq<u32>, o: OpenFile, p: int)
    requires
        file_of(w.rt.files, a[4]) == Some(o),
    ensures
        ({
            let moved = w.on(changed(w.rt, a[4], OpenFile { pos: p, ..o }));
            &&& map_does(moved, a).0.m == map_does(w, a).0.m
            &&& map_does(moved, a).0.r == map_does(w, a).0.r
            &&& map_does(moved, a).1 == map_does(w, a).1
        }),
{
    let f = OpenFile { pos: p, ..o };
    let files = with_file(w.rt.files, a[4], f);
    file_found(w.rt.files, a[4], 0);
    same_place(w.rt.files, a[4], f, 0);
}

proof fn same_place(fs: Seq<(u32, OpenFile)>, k: u32, f: OpenFile, from: int)
    requires
        0 <= from <= file_at(fs, k, 0) < fs.len(),
        file_at(fs, k, from) == file_at(fs, k, 0),
    ensures
        file_at(with_file(fs, k, f), k, from) == file_at(fs, k, 0),
    decreases fs.len() - from,
{
    file_found(fs, k, 0);
    if from < file_at(fs, k, 0) {
        same_place(fs, k, f, from + 1);
    }
}

} // verus!

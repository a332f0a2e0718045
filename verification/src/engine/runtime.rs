//! The runtime's state, and what it does on its own: where it starts, how a
//! routine is called, and what it has captured.
use vstd::prelude::*;
use vstd::utf8::encode_utf8;
use super::files::{
    all_wf, file_at, file_found, file_of, filed, find_file, put_file, with_file, Entry, Open,
    OpenFile,
};
use super::heap::{block_size, Blocks, Heap, HEAP, HEAP_SIZE};
use super::paths::{
    mounted, Mount, Spot, Stored, GUEST_DATA, GUEST_LIB, GUEST_OUT, GUEST_ROOT, GUEST_SESSION,
};
use crate::data::chars::{chars_of, equal};
use crate::data::sde::strings;
use crate::xrt::cpu::Cpu;
use crate::xrt::mem::{imaged, word_bytes, Mem, Space};
use crate::xrt::text::{put_cstr, terminated};

verus! {

/// Where mapped files go.
pub const MMAP_BASE: u32 = 0x6000_0000;

/// Where the main stack ends.
pub const STACK_TOP: u32 = 0x7F00_0000;

/// How large it is.
pub const STACK_SIZE: u32 = 0x80_0000;

/// Where a routine that was called from outside returns to.
pub const RETURN: u32 = 0xDEAD_BEEF;

/// Bytes under a name.
#[derive(Debug, Clone)]
pub struct Named {
    /// The name.
    pub name: String,
    /// The bytes.
    pub data: Vec<u8>,
}

/// A routine or a datum under a name.
#[derive(Debug, Clone)]
pub struct Symbol {
    /// The name.
    pub name: String,
    /// Its address.
    pub at: u32,
}

/// An open directory.
#[derive(Debug, Clone)]
pub struct Dir {
    /// What it is known by.
    pub key: u32,
    /// What it holds.
    pub names: Vec<String>,
    /// The next to be read.
    pub at: usize,
    /// Where an entry is put.
    pub ent: u32,
}

/// An open directory as mathematics.
pub struct OpenDir {
    /// What it is known by.
    pub key: u32,
    /// What it holds.
    pub names: Seq<Seq<char>>,
    /// The next to be read.
    pub at: int,
    /// Where an entry is put.
    pub ent: u32,
}

impl View for Dir {
    type V = OpenDir;

    open spec fn view(&self) -> OpenDir {
        OpenDir { key: self.key, names: strings(self.names@), at: self.at as int, ent: self.ent }
    }
}

/// The engine's modules: what they hold and what they are called.
pub struct Modules {
    /// Their images: addresses and bytes.
    pub regions: Vec<(u32, &'static [u8])>,
    /// Data that the runtime has to fill in.
    pub host_data: Vec<Symbol>,
    /// The routines they offer.
    pub exports: Vec<Symbol>,
    /// Their names.
    pub names: Vec<String>,
}

/// The runtime.
pub struct Runtime {
    /// The heap.
    pub heap: Heap,
    /// The open files.
    pub files: Vec<Entry>,
    /// The open directories.
    pub dirs: Vec<Dir>,
    /// Where the error number is.
    pub errno: u32,
    /// Where the loader's message is.
    pub dl_err: u32,
    /// Where the next mapped file goes.
    pub mmap_next: u32,
    /// The mounted directories.
    pub mounts: Vec<Mount>,
    /// Files that are served from memory.
    pub overlays: Vec<Named>,
    /// Files that the program carries.
    pub built_in: &'static Stored,
    /// What was written to captured paths.
    pub sinks: Vec<Named>,
    /// What was written to the console.
    pub log: Vec<u8>,
    /// The state of the random numbers.
    pub seed: u32,
    /// The threads that were asked for: routines and arguments.
    pub deferred: Vec<(u32, u32)>,
    /// How often a thread waited.
    pub cond_waits: u32,
    /// The routines that modules offer.
    pub exports: Vec<Symbol>,
    /// The modules' names.
    pub modules: Vec<String>,
}

/// Named bytes as mathematics.
pub open spec fn naming(v: Seq<Named>) -> Seq<(Seq<char>, Seq<u8>)> {
    v.map_values(|n: Named| (n.name@, n.data@))
}

/// Symbols as mathematics.
pub open spec fn symbols(v: Seq<Symbol>) -> Seq<(Seq<char>, u32)> {
    v.map_values(|s: Symbol| (s.name@, s.at))
}

/// Directories as mathematics.
pub open spec fn listed(v: Seq<Dir>) -> Seq<OpenDir> {
    v.map_values(|d: Dir| d@)
}

/// The runtime as mathematics.
#[verifier::ext_equal]
pub struct Machine {
    /// The heap.
    pub heap: Blocks,
    /// The open files.
    pub files: Seq<(u32, OpenFile)>,
    /// The open directories.
    pub dirs: Seq<OpenDir>,
    /// Where the error number is.
    pub errno: u32,
    /// Where the loader's message is.
    pub dl_err: u32,
    /// Where the next mapped file goes.
    pub mmap_next: u32,
    /// The mounted directories.
    pub mounts: Seq<(Seq<char>, Seq<char>)>,
    /// Files that are served from memory.
    pub overlays: Seq<(Seq<char>, Seq<u8>)>,
    /// Files that the program carries.
    pub built_in: Seq<(&'static str, &'static [u8])>,
    /// What was written to captured paths.
    pub sinks: Seq<(Seq<char>, Seq<u8>)>,
    /// What was written to the console.
    pub log: Seq<u8>,
    /// The state of the random numbers.
    pub seed: u32,
    /// The threads that were asked for.
    pub deferred: Seq<(u32, u32)>,
    /// How often a thread waited.
    pub cond_waits: u32,
    /// The routines that modules offer.
    pub exports: Seq<(Seq<char>, u32)>,
    /// The modules' names.
    pub modules: Seq<Seq<char>>,
}

impl Machine {
    /// The heap's blocks are apart, and no file is read past its end.
    pub open spec fn wf(self) -> bool {
        self.heap.wf() && all_wf(self.files)
    }
}

impl View for Runtime {
    type V = Machine;

    open spec fn view(&self) -> Machine {
        Machine {
            heap: self.heap@,
            files: filed(self.files@),
            dirs: listed(self.dirs@),
            errno: self.errno,
            dl_err: self.dl_err,
            mmap_next: self.mmap_next,
            mounts: mounted(self.mounts@),
            overlays: naming(self.overlays@),
            built_in: self.built_in@,
            sinks: naming(self.sinks@),
            log: self.log@,
            seed: self.seed,
            deferred: self.deferred@,
            cond_waits: self.cond_waits,
            exports: symbols(self.exports@),
            modules: strings(self.modules@),
        }
    }
}

/// The first entry with a name, from `from` on; the number of entries where
/// there is none.
pub open spec fn name_at<T>(v: Seq<(Seq<char>, T)>, name: Seq<char>, from: int) -> int
    decreases v.len() - from,
{
    if from < 0 || from >= v.len() {
        v.len() as int
    } else if v[from].0 == name {
        from
    } else {
        name_at(v, name, from + 1)
    }
}

/// What stands under a name.
pub open spec fn under<T>(v: Seq<(Seq<char>, T)>, name: Seq<char>) -> Option<T> {
    let k = name_at(v, name, 0);
    if k < v.len() {
        Some(v[k].1)
    } else {
        None
    }
}

/// With bytes under a name, in the place of any that were.
pub open spec fn with_name(
    v: Seq<(Seq<char>, Seq<u8>)>,
    name: Seq<char>,
    data: Seq<u8>,
) -> Seq<(Seq<char>, Seq<u8>)> {
    let k = name_at(v, name, 0);
    if k < v.len() {
        v.update(k, (name, data))
    } else {
        v.push((name, data))
    }
}

/// Whether two texts are the same.
pub fn same(a: &str, b: &str) -> (r: bool)
    ensures
        r == (a@ == b@),
{
    equal(chars_of(a).as_slice(), chars_of(b).as_slice())
}

/// The place of a name.
pub fn find_name(v: &Vec<Named>, name: &str) -> (r: Option<usize>)
    ensures
        match r {
            Some(i) => i < v@.len() && i == name_at(naming(v@), name@, 0),
            None => name_at(naming(v@), name@, 0) == v@.len(),
        },
{
    let mut i: usize = 0;
    while i < v.len()
        invariant
            i <= v@.len(),
            name_at(naming(v@), name@, 0) == name_at(naming(v@), name@, i as int),
        decreases v@.len() - i,
    {
        assert(naming(v@)[i as int].0 == v@[i as int].name@);
        if same(v[i].name.as_str(), name) {
            return Some(i);
        }
        i = i + 1;
    }
    None
}

/// Puts bytes under a name.
pub fn put_name(v: &mut Vec<Named>, name: &str, data: Vec<u8>)
    ensures
        naming(final(v)@) == with_name(naming(old(v)@), name@, data@),
{
    let ghost before = naming(v@);
    let named = Named { name: name.to_owned(), data };
    match find_name(v, name) {
        Some(i) => {
            v.set(i, named);
            assert(naming(v@) =~= before.update(i as int, (name@, data@)));
        },
        None => {
            v.push(named);
            assert(naming(v@) =~= before.push((name@, data@)));
        },
    }
}

/// The session file: where the engine's data and modules are, and where it
/// logs.
pub open spec fn session() -> Seq<char> {
    "\"DataPath\" = \"/loq/data\"\n\"LibraryPath\" = \"/loq/lib\"\n\"LogFile\" = \"stderr\"\n"@
}

/// The mounts for two directories. An empty one means that nothing outside is
/// looked at.
pub open spec fn mounts_for(lib: Seq<char>, data: Seq<char>) -> Seq<(Seq<char>, Seq<char>)> {
    if lib.len() == 0 {
        Seq::empty()
    } else {
        seq![("/loq/lib"@, lib), ("/loq/data"@, data), ("/loq"@, lib)]
    }
}

/// Whether a symbol is one of the three console streams.
pub open spec fn is_stream(name: Seq<char>) -> bool {
    name == "stdin"@ || name == "stdout"@ || name == "stderr"@
}

/// A console stream.
pub open spec fn stream(name: Seq<char>) -> OpenFile {
    OpenFile {
        guest: name,
        place: None,
        sink: false,
        is_file: false,
        data: Seq::empty(),
        pos: 0,
        dirty: false,
    }
}

/// The runtime before it has any stream.
pub open spec fn bare_machine(
    lib: Seq<char>,
    data: Seq<char>,
    files: Seq<(&'static str, &'static [u8])>,
    exports: Seq<(Seq<char>, u32)>,
    names: Seq<Seq<char>>,
) -> Machine {
    let h = Blocks::fresh();
    Machine {
        heap: h.after(4).after(64),
        files: Seq::empty(),
        dirs: Seq::empty(),
        errno: h.block(4),
        dl_err: h.after(4).block(64),
        mmap_next: 0x6000_0000,
        mounts: mounts_for(lib, data),
        overlays: seq![("/loq/default.session"@, encode_utf8(session()))],
        built_in: files,
        sinks: seq![("/loq/out.raw"@, Seq::<u8>::empty())],
        log: Seq::empty(),
        seed: 1,
        deferred: Seq::empty(),
        cond_waits: 0,
        exports,
        modules: names,
    }
}

/// The runtime and memory after the streams among the first `n` symbols were
/// opened; nothing where the heap has no room or a symbol is nowhere.
pub open spec fn with_streams(rt: Machine, m: Space, host: Seq<(Seq<char>, u32)>, n: nat) -> Option<
    (Machine, Space),
>
    decreases n,
{
    if n == 0 {
        Some((rt, m))
    } else {
        match with_streams(rt, m, host, (n - 1) as nat) {
            None => None,
            Some((s, w)) => if !is_stream(host[n - 1].0) {
                Some((s, w))
            } else if s.heap.has_room(8) && w.mapped(host[n - 1].1 as int, 4) {
                Some(
                    (
                        with_stream(s, host[n - 1].0),
                        w.write(host[n - 1].1 as int, word_bytes(s.heap.block(8))),
                    ),
                )
            } else {
                None
            },
        }
    }
}

/// The runtime with one more stream.
pub open spec fn with_stream(s: Machine, name: Seq<char>) -> Machine {
    Machine {
        heap: s.heap.after(8),
        files: with_file(s.files, s.heap.block(8), stream(name)),
        ..s
    }
}

/// Zero bytes.
pub open spec fn zeros(n: int) -> Seq<u8> {
    Seq::new(n as nat, |i: int| 0u8)
}

/// Memory with the engine's images, a heap and a stack.
pub open spec fn first_space(regions: Seq<(u32, &'static [u8])>) -> Space {
    imaged(regions, regions.len()).map(0x1000_0000, zeros(0x600_0000)).map(
        0x7E80_0000,
        zeros(0x80_0000),
    )
}

/// The loader's message in memory.
pub open spec fn told(m: Space, at: u32) -> Space {
    m.write(at as int, terminated(loader_message()))
}

/// The loader's message: `cannot open shared object`.
pub open spec fn loader_message() -> Seq<u8> {
    encode_utf8("cannot open shared object"@)
}

/// Whether images leave room for each other, the heap and the stack.
pub open spec fn fit_together(rs: Seq<(u32, &'static [u8])>) -> bool {
    &&& imageable(rs, rs.len())
    &&& imaged(rs, rs.len()).vacant(0x1000_0000, 0x600_0000)
    &&& imaged(rs, rs.len()).map(0x1000_0000, zeros(0x600_0000)).vacant(0x7E80_0000, 0x80_0000)
}

/// Whether the first `n` images leave room for each other.
pub open spec fn imageable(rs: Seq<(u32, &'static [u8])>, n: nat) -> bool
    decreases n,
{
    n == 0 || (imageable(rs, (n - 1) as nat) && imaged(rs, (n - 1) as nat).vacant(
        rs[n - 1].0 as int,
        rs[n - 1].1@.len() as int,
    ))
}

/// Where the runtime starts; nothing where the modules do not fit.
pub open spec fn started(
    lib: Seq<char>,
    data: Seq<char>,
    files: Seq<(&'static str, &'static [u8])>,
    mods: Modules,
) -> Option<(Machine, Space)> {
    let rt = bare_machine(lib, data, files, symbols(mods.exports@), strings(mods.names@));
    if fit_together(mods.regions@) {
        with_streams(
            rt,
            told(first_space(mods.regions@), rt.dl_err),
            symbols(mods.host_data@),
            mods.host_data@.len(),
        )
    } else {
        None
    }
}

proof fn not_imageable(rs: Seq<(u32, &'static [u8])>, n: nat, k: nat)
    requires
        n <= k,
        !imageable(rs, n),
    ensures
        !imageable(rs, k),
    decreases k,
{
    if n < k {
        not_imageable(rs, n, (k - 1) as nat);
    }
}

/// Maps images, where they leave room for each other.
pub fn map_images(rs: &Vec<(u32, &'static [u8])>) -> (r: Option<Mem>)
    ensures
        match r {
            Some(m) => imageable(rs@, rs@.len()) && m@ == imaged(rs@, rs@.len()),
            None => !imageable(rs@, rs@.len()),
        },
{
    let mut m = Mem::new();
    let mut k: usize = 0;
    while k < rs.len()
        invariant
            k <= rs@.len(),
            imageable(rs@, k as nat),
            m@ == imaged(rs@, k as nat),
        decreases rs@.len() - k,
    {
        let (base, bytes) = rs[k];
        assert(rs@[k as int] == (base, bytes));
        if !m.vacant(base, bytes.len() as u64) {
            proof {
                not_imageable(rs@, (k + 1) as nat, rs@.len());
            }
            return None;
        }
        m.map(base, vstd::slice::slice_to_vec(bytes));
        k = k + 1;
    }
    Some(m)
}

/// Maps images, a heap and a stack.
fn first_memory(rs: &Vec<(u32, &'static [u8])>) -> (r: Option<Mem>)
    ensures
        match r {
            Some(m) => fit_together(rs@) && m@ == first_space(rs@),
            None => !fit_together(rs@),
        },
{
    let mut m: Mem = match map_images(rs) {
        Some(m) => m,
        None => {
            return None;
        },
    };
    if !m.vacant(HEAP, HEAP_SIZE as u64) {
        return None;
    }
    m.zeroed(HEAP, HEAP_SIZE);
    assert(m@ =~= imaged(rs@, rs@.len()).map(0x1000_0000, zeros(0x600_0000)));
    if !m.vacant(STACK_TOP - STACK_SIZE, STACK_SIZE as u64) {
        return None;
    }
    m.zeroed(STACK_TOP - STACK_SIZE, STACK_SIZE);
    assert(m@ =~= first_space(rs@));
    Some(m)
}

/// The mounts for two directories.
fn mount_both(lib: &str, data: &str) -> (r: Vec<Mount>)
    ensures
        mounted(r@) == mounts_for(lib@, data@),
{
    let mut v: Vec<Mount> = Vec::new();
    if chars_of(lib).len() > 0 {
        v.push(Mount { prefix: GUEST_LIB.to_owned(), dir: lib.to_owned() });
        v.push(Mount { prefix: GUEST_DATA.to_owned(), dir: data.to_owned() });
        v.push(Mount { prefix: GUEST_ROOT.to_owned(), dir: lib.to_owned() });
    }
    assert(mounted(v@) =~= mounts_for(lib@, data@));
    v
}

/// The bytes of a text.
pub fn bytes_of(s: &str) -> (r: Vec<u8>)
    ensures
        r@ == encode_utf8(s@),
{
    vstd::slice::slice_to_vec(s.as_bytes())
}

proof fn bare_heap()
    ensures
        Blocks::fresh().has_room(4),
        Blocks::fresh().after(4).has_room(64),
        Blocks::fresh().after(4).block(64) == 0x1000_0008,
{
    let h = Blocks::fresh();
    assert(h.free.len() == 0);
    assert(h.after(4).free.len() == 0);
    assert(block_size(4) == 8 && block_size(64) == 64);
}

/// Whether a name is one of the three console streams.
fn names_stream(name: &str) -> (r: bool)
    ensures
        r == is_stream(name@),
{
    same(name, "stdin") || same(name, "stdout") || same(name, "stderr")
}

/// Copies names.
fn copy_names(v: &Vec<String>) -> (r: Vec<String>)
    ensures
        strings(r@) == strings(v@),
{
    let mut out: Vec<String> = Vec::new();
    let mut i: usize = 0;
    while i < v.len()
        invariant
            i <= v@.len(),
            strings(out@) == strings(v@.take(i as int)),
        decreases v@.len() - i,
    {
        let ghost before = out@;
        let name: String = v[i].clone();
        out.push(name);
        assert(strings(out@) =~= strings(before).push(name@));
        assert(strings(v@.take(i + 1)) =~= strings(v@.take(i as int)).push(v@[i as int]@));
        i = i + 1;
    }
    assert(v@.take(v@.len() as int) =~= v@);
    out
}

/// Copies symbols.
fn copy_symbols(v: &Vec<Symbol>) -> (r: Vec<Symbol>)
    ensures
        symbols(r@) == symbols(v@),
{
    let mut out: Vec<Symbol> = Vec::new();
    let mut i: usize = 0;
    while i < v.len()
        invariant
            i <= v@.len(),
            symbols(out@) == symbols(v@.take(i as int)),
        decreases v@.len() - i,
    {
        let ghost before = out@;
        let s = Symbol { name: v[i].name.clone(), at: v[i].at };
        out.push(s);
        assert(symbols(out@) =~= symbols(before).push((s.name@, s.at)));
        assert(symbols(v@.take(i + 1)) =~= symbols(v@.take(i as int)).push(
            (v@[i as int].name@, v@[i as int].at),
        ));
        i = i + 1;
    }
    assert(v@.take(v@.len() as int) =~= v@);
    out
}

impl Runtime {
    /// The runtime before it has any stream.
    fn bare(lib: &str, data: &str, files: &'static Stored, mods: &Modules) -> (r: Runtime)
        ensures
            r@ == bare_machine(
                lib@,
                data@,
                files@,
                symbols(mods.exports@),
                strings(mods.names@),
            ),
            r@.wf(),
    {
        proof {
            bare_heap();
        }
        let mut heap = Heap::new();
        let errno: u32 = heap.allot(4);
        let dl_err: u32 = heap.allot(64);
        let mut overlays: Vec<Named> = Vec::new();
        overlays.push(
            Named {
                name: GUEST_SESSION.to_owned(),
                data: bytes_of(
                    "\"DataPath\" = \"/loq/data\"\n\"LibraryPath\" = \"/loq/lib\"\n\"LogFile\" = \"stderr\"\n",
                ),
            },
        );
        assert(naming(overlays@) =~= seq![("/loq/default.session"@, encode_utf8(session()))]);
        let mut sinks: Vec<Named> = Vec::new();
        sinks.push(Named { name: GUEST_OUT.to_owned(), data: Vec::new() });
        assert(naming(sinks@) =~= seq![("/loq/out.raw"@, Seq::<u8>::empty())]);
        let rt = Runtime {
            heap,
            files: Vec::new(),
            dirs: Vec::new(),
            errno,
            dl_err,
            mmap_next: MMAP_BASE,
            mounts: mount_both(lib, data),
            overlays,
            built_in: files,
            sinks,
            log: Vec::new(),
            seed: 1,
            deferred: Vec::new(),
            cond_waits: 0,
            exports: copy_symbols(&mods.exports),
            modules: copy_names(&mods.names),
        };
        assert(filed(rt.files@) =~= Seq::empty());
        assert(listed(rt.dirs@) =~= Seq::empty());
        rt
    }

    /// Opens a console stream, and says what it is known by.
    fn open_stream(&mut self, name: &str) -> (r: u32)
        requires
            old(self)@.wf(),
            old(self)@.heap.has_room(8),
        ensures
            r == old(self)@.heap.block(8),
            final(self)@ == with_stream(old(self)@, name@),
            final(self)@.wf(),
    {
        let f: u32 = self.heap.allot(8);
        let file = Open {
            guest: name.to_owned(),
            place: None,
            sink: false,
            is_file: false,
            data: Vec::new(),
            pos: 0,
            dirty: false,
        };
        assert(file@ =~= stream(name@));
        put_file(&mut self.files, f, file);
        proof {
            files_stay_in_order(old(self)@.files, f, file@);
        }
        f
    }

    /// Starts the runtime over two directories, files that the program
    /// carries, and the engine's modules: builds the memory that the engine
    /// runs in, and fills in the data that it expects. Nothing comes of it
    /// where the modules do not fit.
    pub fn with(lib: &str, data: &str, files: &'static Stored, mods: &Modules) -> (r: Option<
        (Runtime, Mem),
    >)
        ensures
            match (r, started(lib@, data@, files@, *mods)) {
                (Some((rt, m)), Some((want, space))) => rt@ == want && m@ == space && rt@.wf(),
                (None, None) => true,
                _ => false,
            },
    {
        let mut m: Mem = match first_memory(&mods.regions) {
            Some(m) => m,
            None => {
                return None;
            },
        };
        let mut rt: Runtime = Runtime::bare(lib, data, files, mods);
        proof {
            bare_heap();
            heap_is_reachable(mods.regions@);
            message_is_short();
        }
        put_cstr(&mut m, rt.dl_err, "cannot open shared object".as_bytes());
        let ghost bare = rt@;
        let ghost space = m@;
        let ghost host = symbols(mods.host_data@);
        let mut k: usize = 0;
        while k < mods.host_data.len()
            invariant
                k <= mods.host_data@.len(),
                host == symbols(mods.host_data@),
                started(lib@, data@, files@, *mods) == with_streams(
                    bare,
                    space,
                    host,
                    mods.host_data@.len(),
                ),
                with_streams(bare, space, host, k as nat) == Some((rt@, m@)),
                rt@.wf(),
            decreases mods.host_data@.len() - k,
        {
            let s: &Symbol = &mods.host_data[k];
            assert(host[k as int] == (s.name@, s.at));
            if names_stream(s.name.as_str()) {
                if !rt.heap.has_room(8) || !m.mapped(s.at, 4) {
                    proof {
                        no_streams(bare, space, host, (k + 1) as nat, mods.host_data@.len());
                    }
                    return None;
                }
                let f: u32 = rt.open_stream(s.name.as_str());
                m.w32(s.at, f);
            }
            k = k + 1;
        }
        Some((rt, m))
    }

    /// Starts the runtime over two directories.
    pub fn new(lib: &str, data: &str, mods: &Modules) -> (r: Option<(Runtime, Mem)>)
        ensures
            match (r, started(lib@, data@, Seq::empty(), *mods)) {
                (Some((rt, m)), Some((want, space))) => rt@ == want && m@ == space && rt@.wf(),
                (None, None) => true,
                _ => false,
            },
    {
        let none: &'static Stored = &[];
        assert(none@ =~= Seq::empty());
        Runtime::with(lib, data, none, mods)
    }

    /// Starts the runtime over files that the program carries alone.
    pub fn built_in(files: &'static Stored, mods: &Modules) -> (r: Option<(Runtime, Mem)>)
        ensures
            match (r, started(""@, ""@, files@, *mods)) {
                (Some((rt, m)), Some((want, space))) => rt@ == want && m@ == space && rt@.wf(),
                (None, None) => true,
                _ => false,
            },
    {
        Runtime::with("", "", files, mods)
    }
}

proof fn no_streams(
    rt: Machine,
    m: Space,
    host: Seq<(Seq<char>, u32)>,
    n: nat,
    k: nat,
)
    requires
        n <= k,
        with_streams(rt, m, host, n) is None,
    ensures
        with_streams(rt, m, host, k) is None,
    decreases k,
{
    if n < k {
        no_streams(rt, m, host, n, (k - 1) as nat);
    }
}

/// Putting a file that is in order keeps all in order.
pub proof fn files_stay_in_order(fs: Seq<(u32, OpenFile)>, k: u32, f: OpenFile)
    requires
        all_wf(fs),
        f.wf(),
    ensures
        all_wf(with_file(fs, k, f)),
{
    file_found(fs, k, 0);
    let g = with_file(fs, k, f);
    assert forall|i: int| 0 <= i < g.len() implies (#[trigger] g[i]).1.wf() by {
        if i < fs.len() && i != file_at(fs, k, 0) {
            assert(g[i] == fs[i]);
        }
    }
}

proof fn message_is_short()
    ensures
        loader_message().len() <= 32,
{
    reveal_strlit("cannot open shared object");
    let s = "cannot open shared object"@;
    assert(vstd::utf8::is_ascii_chars(s));
    vstd::utf8::is_ascii_chars_encode_utf8(s);
}

proof fn heap_is_reachable(rs: Seq<(u32, &'static [u8])>)
    ensures
        first_space(rs).reachable(0x1000_0008, loader_message().len() as int + 1),
{
    message_is_short();
    let m = first_space(rs);
    let k = rs.len() as int;
    image_extents(rs, rs.len());
    assert(m.extents[k] == (0x1000_0000int, 0x600_0000int));
    assert forall|i: int| 0 <= i < loader_message().len() + 1 implies #[trigger] m.mapped(
        0x1000_0008 + i,
        1,
    ) by {
        assert(m.inside(k, 0x1000_0008 + i, 1));
    }
}

proof fn image_extents(rs: Seq<(u32, &'static [u8])>, n: nat)
    ensures
        imaged(rs, n).extents.len() == n,
    decreases n,
{
    if n > 0 {
        image_extents(rs, (n - 1) as nat);
    }
}

/// The first captured file with a path, from `from` on; the number of files
/// where there is none.
pub open spec fn captured_at(fs: Seq<(u32, OpenFile)>, guest: Seq<char>, from: int) -> int
    decreases fs.len() - from,
{
    if from < 0 || from >= fs.len() {
        fs.len() as int
    } else if fs[from].1.sink && fs[from].1.guest == guest {
        from
    } else {
        captured_at(fs, guest, from + 1)
    }
}

/// What was written to a captured path, whether or not its file was closed.
pub open spec fn captured(rt: Machine, guest: Seq<char>) -> Seq<u8> {
    let k = captured_at(rt.files, guest, 0);
    if k < rt.files.len() && rt.files[k].1.data.len() > 0 {
        rt.files[k].1.data
    } else {
        match under(rt.sinks, guest) {
            Some(d) => d,
            None => Seq::empty(),
        }
    }
}

/// What the first `n` files hold of a captured path, one after the other.
pub open spec fn collected(fs: Seq<(u32, OpenFile)>, guest: Seq<char>, n: nat) -> Seq<u8>
    decreases n,
{
    if n == 0 {
        Seq::empty()
    } else {
        let before = collected(fs, guest, (n - 1) as nat);
        if fs[n - 1].1.sink && fs[n - 1].1.guest == guest {
            before + fs[n - 1].1.data
        } else {
            before
        }
    }
}

/// A file as it is once what was written to a captured path was taken.
pub open spec fn emptied(f: OpenFile, guest: Seq<char>) -> OpenFile {
    if f.sink && f.guest == guest {
        OpenFile { data: Seq::empty(), pos: 0, ..f }
    } else {
        f
    }
}

/// Files as they are once what was written to a captured path was taken.
pub open spec fn all_emptied(fs: Seq<(u32, OpenFile)>, guest: Seq<char>) -> Seq<(u32, OpenFile)> {
    fs.map_values(|e: (u32, OpenFile)| (e.0, emptied(e.1, guest)))
}

/// The runtime after a file was written out, and what there is to write where.
pub open spec fn flushed(rt: Machine, f: u32) -> (Machine, Option<(Spot, Seq<u8>)>) {
    match file_of(rt.files, f) {
        None => (rt, None),
        Some(o) => if !o.dirty {
            (rt, None)
        } else {
            let clean = Machine {
                files: with_file(rt.files, f, OpenFile { dirty: false, ..o }),
                ..rt
            };
            if o.sink {
                (Machine { sinks: with_name(rt.sinks, o.guest, o.data), ..clean }, None)
            } else {
                match o.place {
                    Some(p) => (clean, Some((p, o.data))),
                    None => (clean, None),
                }
            }
        },
    }
}

/// Memory with the words of `args` from the fifth on, up to `n`, at `sp`.
pub open spec fn laid_out(m: Space, sp: int, args: Seq<u32>, n: nat) -> Space
    decreases n,
{
    if n <= 4 {
        m
    } else {
        laid_out(m, sp, args, (n - 1) as nat).write(sp + 4 * (n - 5), word_bytes(args[n - 1]))
    }
}

/// Where the stack pointer is for a call with `n` arguments.
pub open spec fn frame(n: int) -> int {
    (0x7EFF_FFC0 - 4 * (if n > 4 {
        n - 4
    } else {
        0
    })) / 8 * 8
}

/// Whether the words of a call's arguments can be laid out.
pub open spec fn can_call(m: Space, n: int) -> bool {
    &&& n <= 0x1000_0000
    &&& forall|k: int| 0 <= k < n - 4 ==> #[trigger] m.mapped(frame(n) + 4 * k, 4)
}

impl Runtime {
    /// Where the stack pointer is at first.
    pub fn sp(&self) -> (r: u32)
        ensures
            r == 0x7EFF_FFC0,
    {
        (STACK_TOP - 64) / 8 * 8
    }

    /// Lays out a call: four arguments in registers, the others on the stack.
    /// Nothing comes of it where the stack is not there.
    pub fn call_frame(&self, m: &mut Mem, args: &[u32]) -> (r: Option<Cpu>)
        ensures
            r is Some == can_call(old(m)@, args@.len() as int),
            r matches Some(c) ==> {
                &&& final(m)@ == laid_out(old(m)@, frame(args@.len() as int), args@, args@.len())
                &&& c.r@.len() == 16
                &&& forall|k: int|
                    0 <= k < 16 ==> #[trigger] c.r@[k] == if k < 4 && k < args@.len() {
                        args@[k]
                    } else if k == 13 {
                        frame(args@.len() as int) as u32
                    } else if k == 14 {
                        0xDEAD_BEEFu32
                    } else {
                        0
                    }
                &&& c.f == (crate::xrt::flags::Flags { n: false, z: false, c: false, v: false })
                &&& c.fp@ == Seq::new(8, |i: int| 0u64)
                &&& c.fpsr == 0
            },
    {
        if args.len() > 0x1000_0000 {
            return None;
        }
        let n: u32 = args.len() as u32;
        let extra: u32 = if n > 4 {
            n - 4
        } else {
            0
        };
        let sp: u32 = (self.sp() - 4 * extra) / 8 * 8;
        let ghost before = m@;
        let mut k: u32 = 0;
        while k < extra
            invariant
                k <= extra,
                extra == (if n > 4 {
                    n - 4
                } else {
                    0
                }),
                n == args@.len() <= 0x1000_0000,
                sp == frame(n as int),
                before == old(m)@,
                m@.extents == before.extents,
                m@ == laid_out(before, sp as int, args@, (4 + k) as nat),
                forall|j: int| 0 <= j < k ==> #[trigger] before.mapped(sp + 4 * j, 4),
            decreases extra - k,
        {
            proof {
                crate::xrt::text::regions_decide(before, m@);
            }
            if !m.mapped(sp + 4 * k, 4) {
                assert(!before.mapped(sp + 4 * k, 4));
                return None;
            }
            m.w32(sp + 4 * k, args[4 + k as usize]);
            k = k + 1;
        }
        let mut c = Cpu::default();
        let mut i: usize = 0;
        while i < 4 && i < args.len()
            invariant
                i <= 4,
                i <= args@.len(),
                c.r@.len() == 16,
                c.f == (crate::xrt::flags::Flags { n: false, z: false, c: false, v: false }),
                c.fp@ == Seq::new(8, |i: int| 0u64),
                c.fpsr == 0,
                forall|k: int|
                    0 <= k < 16 ==> #[trigger] c.r@[k] == if k < i {
                        args@[k]
                    } else {
                        0
                    },
            decreases 4 - i,
        {
            c.r[i] = args[i];
            i = i + 1;
        }
        c.r[13] = sp;
        c.r[14] = RETURN;
        Some(c)
    }

    /// The address of a routine that a module offers.
    pub fn lookup(&self, name: &str) -> (r: Option<u32>)
        ensures
            r == under(self@.exports, name@),
    {
        let ghost all = symbols(self.exports@);
        let mut i: usize = 0;
        while i < self.exports.len()
            invariant
                i <= self.exports@.len(),
                all == symbols(self.exports@),
                name_at(all, name@, 0) == name_at(all, name@, i as int),
            decreases self.exports@.len() - i,
        {
            assert(all[i as int] == (self.exports@[i as int].name@, self.exports@[i as int].at));
            if same(self.exports[i].name.as_str(), name) {
                return Some(self.exports[i].at);
            }
            i = i + 1;
        }
        None
    }

    /// Gives out a block of the heap; none where it has no room.
    pub fn allot(&mut self, n: u32) -> (r: Option<u32>)
        requires
            old(self)@.wf(),
        ensures
            final(self)@.wf(),
            old(self)@.heap.has_room(n) ==> r == Some(old(self)@.heap.block(n)) && final(self)@ == (
            Machine { heap: old(self)@.heap.after(n), ..old(self)@ }),
            !old(self)@.heap.has_room(n) ==> r is None && final(self)@ == old(self)@,
    {
        if self.heap.has_room(n) {
            Some(self.heap.allot(n))
        } else {
            None
        }
    }

    /// Puts a text in a new block. Nothing comes of it where there is no room
    /// for it, or no memory.
    pub fn cstring(&mut self, m: &mut Mem, s: &str) -> (r: Option<u32>)
        requires
            old(self)@.wf(),
        ensures
            final(self)@.wf(),
            ({
                let bytes = encode_utf8(s@);
                let h = old(self)@.heap;
                let n = (bytes.len() + 1) as u32;
                let a = h.block(n);
                if bytes.len() < u32::MAX && h.has_room(n) && old(m)@.reachable(a as int, n as int) {
                    &&& r == Some(a)
                    &&& final(self)@ == (Machine { heap: h.after(n), ..old(self)@ })
                    &&& final(m)@ == old(m)@.write(a as int, terminated(bytes))
                } else {
                    r is None
                }
            }),
    {
        let b: Vec<u8> = bytes_of(s);
        if b.len() as u64 >= u32::MAX as u64 {
            return None;
        }
        let n: u32 = b.len() as u32 + 1;
        let a: u32 = match self.allot(n) {
            Some(a) => a,
            None => {
                return None;
            },
        };
        if !crate::xrt::text::reachable(m, a, n as u64) {
            return None;
        }
        put_cstr(m, a, b.as_slice());
        Some(a)
    }

    /// Everything that was written to a captured path, whether or not its file
    /// was closed.
    pub fn sink(&self, guest: &str) -> (r: Vec<u8>)
        ensures
            r@ == captured(self@, guest@),
    {
        let ghost fs = filed(self.files@);
        let mut i: usize = 0;
        let mut found: bool = false;
        while !found && i < self.files.len()
            invariant
                i <= self.files@.len(),
                fs == filed(self.files@),
                !found ==> captured_at(fs, guest@, 0) == captured_at(fs, guest@, i as int),
                found ==> i < self.files@.len() && captured_at(fs, guest@, 0) == i,
            decreases self.files@.len() - i, (if found {
                0int
            } else {
                1
            }),
        {
            assert(fs[i as int].1 == self.files@[i as int].file@);
            if self.files[i].file.sink && same(self.files[i].file.guest.as_str(), guest) {
                found = true;
            } else {
                i = i + 1;
            }
        }
        if found {
            assert(fs[i as int].1 == self.files@[i as int].file@);
            if self.files[i].file.data.len() > 0 {
                return vstd::slice::slice_to_vec(self.files[i].file.data.as_slice());
            }
        }
        match find_name(&self.sinks, guest) {
            Some(k) => {
                assert(naming(self.sinks@)[k as int].1 == self.sinks@[k as int].data@);
                vstd::slice::slice_to_vec(self.sinks[k].data.as_slice())
            },
            None => Vec::new(),
        }
    }

    /// Takes everything that was written to a captured path, and starts it
    /// afresh.
    pub fn take_sink(&mut self, guest: &str) -> (r: Vec<u8>)
        requires
            old(self)@.wf(),
        ensures
            final(self)@.wf(),
            ({
                let rt = old(self)@;
                let kept = match under(rt.sinks, guest@) {
                    Some(d) => d,
                    None => Seq::empty(),
                };
                &&& r@ == kept + collected(rt.files, guest@, rt.files.len())
                &&& final(self)@ == (Machine {
                    sinks: with_name(rt.sinks, guest@, Seq::empty()),
                    files: all_emptied(rt.files, guest@),
                    ..rt
                })
            }),
    {
        let mut out: Vec<u8> = match find_name(&self.sinks, guest) {
            Some(k) => {
                assert(naming(self.sinks@)[k as int].1 == self.sinks@[k as int].data@);
                vstd::slice::slice_to_vec(self.sinks[k].data.as_slice())
            },
            None => Vec::new(),
        };
        let ghost kept = out@;
        put_name(&mut self.sinks, guest, Vec::new());
        let ghost rt = old(self)@;
        let ghost fs = filed(self.files@);
        let ghost now = self@;
        let mut i: usize = 0;
        while i < self.files.len()
            invariant
                i <= self.files@.len() == fs.len(),
                rt == old(self)@,
                fs == rt.files,
                self@ == (Machine { files: filed(self.files@), ..now }),
                out@ == kept + collected(fs, guest@, i as nat),
                forall|k: int|
                    0 <= k < i ==> #[trigger] filed(self.files@)[k] == (
                        fs[k].0,
                        emptied(fs[k].1, guest@),
                    ),
                forall|k: int| i <= k < fs.len() ==> #[trigger] filed(self.files@)[k] == fs[k],
            decreases fs.len() - i,
        {
            let ghost before = self.files@;
            assert(filed(before)[i as int] == (before[i as int].key, before[i as int].file@));
            if self.files[i].file.sink && same(self.files[i].file.guest.as_str(), guest) {
                super::cfmt::push_bytes(&mut out, self.files[i].file.data.as_slice());
                empty_file(&mut self.files, i);
                assert forall|k: int| 0 <= k < fs.len() && k != i implies #[trigger] filed(
                    self.files@,
                )[k] == filed(before)[k] by {}
            }
            assert(out@ =~= kept + collected(fs, guest@, (i + 1) as nat));
            i = i + 1;
        }
        assert(filed(self.files@) =~= all_emptied(rt.files, guest@));
        assert(self@ =~= (Machine {
            sinks: with_name(rt.sinks, guest@, Seq::empty()),
            files: all_emptied(rt.files, guest@),
            ..rt
        }));
        out
    }

    /// Marks a file as written out, and says what there is to write where.
    pub fn flush(&mut self, f: u32) -> (r: Option<(super::paths::Place, Vec<u8>)>)
        requires
            old(self)@.wf(),
        ensures
            final(self)@.wf(),
            (final(self)@, written_out(r)) == flushed(old(self)@, f),
    {
        let i: usize = match find_file(&self.files, f) {
            Some(i) => i,
            None => {
                return None;
            },
        };
        let ghost fs = filed(self.files@);
        proof {
            file_found(fs, f, 0);
            assert(fs[i as int] == (self.files@[i as int].key, self.files@[i as int].file@));
        }
        if !self.files[i].file.dirty {
            return None;
        }
        let data: Vec<u8> = vstd::slice::slice_to_vec(self.files[i].file.data.as_slice());
        let sink: bool = self.files[i].file.sink;
        let guest: String = self.files[i].file.guest.clone();
        let place: Option<super::paths::Place> = copy_place(&self.files[i].file.place);
        clean_file(&mut self.files, i);
        proof {
            let o = OpenFile { dirty: false, ..fs[i as int].1 };
            assert(filed(self.files@) =~= with_file(fs, f, o));
            files_stay_in_order(fs, f, o);
        }
        if sink {
            put_name(&mut self.sinks, guest.as_str(), data);
            return None;
        }
        match place {
            Some(p) => Some((p, data)),
            None => None,
        }
    }
}

/// What is to be written where, as mathematics.
pub open spec fn written_out(r: Option<(super::paths::Place, Vec<u8>)>) -> Option<(Spot, Seq<u8>)> {
    match r {
        Some((p, d)) => Some((p@, d@)),
        None => None,
    }
}

/// Copies a place.
pub fn copy_place(p: &Option<super::paths::Place>) -> (r: Option<super::paths::Place>)
    ensures
        super::paths::spot(r) == super::paths::spot(*p),
{
    match p {
        Some(p) => Some(super::paths::Place { dir: p.dir.clone(), rest: p.rest.clone() }),
        None => None,
    }
}

/// Empties a file.
fn empty_file(v: &mut Vec<Entry>, i: usize)
    requires
        i < old(v)@.len(),
    ensures
        final(v)@.len() == old(v)@.len(),
        final(v)@[i as int].key == old(v)@[i as int].key,
        final(v)@[i as int].file@ == (OpenFile {
            data: Seq::empty(),
            pos: 0,
            ..old(v)@[i as int].file@
        }),
        forall|k: int| 0 <= k < old(v)@.len() && k != i ==> #[trigger] final(v)@[k] == old(v)@[k],
{
    v[i].file.data = Vec::new();
    v[i].file.pos = 0;
}

/// Marks a file as written out.
fn clean_file(v: &mut Vec<Entry>, i: usize)
    requires
        i < old(v)@.len(),
    ensures
        final(v)@.len() == old(v)@.len(),
        final(v)@[i as int].key == old(v)@[i as int].key,
        final(v)@[i as int].file@ == (OpenFile { dirty: false, ..old(v)@[i as int].file@ }),
        forall|k: int| 0 <= k < old(v)@.len() && k != i ==> #[trigger] final(v)@[k] == old(v)@[k],
{
    v[i].file.dirty = false;
}

/// Once a captured path was taken there is nothing left of it, so that what is
/// written next stands alone.
pub proof fn taking_leaves_nothing(rt: Machine, guest: Seq<char>)
    ensures
        ({
            let after = Machine {
                sinks: with_name(rt.sinks, guest, Seq::empty()),
                files: all_emptied(rt.files, guest),
                ..rt
            };
            &&& captured(after, guest) == Seq::<u8>::empty()
            &&& collected(after.files, guest, after.files.len()) == Seq::<u8>::empty()
        }),
{
    let fs = all_emptied(rt.files, guest);
    let sinks = with_name(rt.sinks, guest, Seq::empty());
    name_found(rt.sinks, guest, 0);
    name_found(sinks, guest, 0);
    nothing_collected(rt.files, guest, fs.len());
    captured_place(fs, guest, 0);
    let k = name_at(rt.sinks, guest, 0);
    let j = name_at(sinks, guest, 0);
    if j < k {
        assert(sinks[j] == rt.sinks[j]);
        assert(rt.sinks[j].0 != guest);
    }
    if k < j {
        assert(sinks[k].0 != guest);
    }
    assert(sinks[k] == (guest, Seq::<u8>::empty()));
    let f = captured_at(fs, guest, 0);
    if f < fs.len() {
        assert(fs[f] == (rt.files[f].0, emptied(rt.files[f].1, guest)));
    }
}

proof fn name_found(v: Seq<(Seq<char>, Seq<u8>)>, name: Seq<char>, from: int)
    requires
        0 <= from <= v.len(),
    ensures
        from <= name_at(v, name, from) <= v.len(),
        name_at(v, name, from) < v.len() ==> v[name_at(v, name, from)].0 == name,
        forall|i: int| from <= i < name_at(v, name, from) ==> (#[trigger] v[i]).0 != name,
    decreases v.len() - from,
{
    if from < v.len() && v[from].0 != name {
        name_found(v, name, from + 1);
    }
}

proof fn captured_place(fs: Seq<(u32, OpenFile)>, guest: Seq<char>, from: int)
    requires
        0 <= from <= fs.len(),
    ensures
        from <= captured_at(fs, guest, from) <= fs.len(),
        captured_at(fs, guest, from) < fs.len() ==> fs[captured_at(fs, guest, from)].1.sink && fs[
        captured_at(fs, guest, from)].1.guest == guest,
    decreases fs.len() - from,
{
    if from < fs.len() && !(fs[from].1.sink && fs[from].1.guest == guest) {
        captured_place(fs, guest, from + 1);
    }
}

proof fn nothing_collected(fs: Seq<(u32, OpenFile)>, guest: Seq<char>, n: nat)
    requires
        n <= fs.len(),
    ensures
        collected(all_emptied(fs, guest), guest, n) == Seq::<u8>::empty(),
    decreases n,
{
    if n > 0 {
        nothing_collected(fs, guest, (n - 1) as nat);
        assert(Seq::<u8>::empty() + Seq::<u8>::empty() =~= Seq::<u8>::empty());
    }
}

} // verus!

//! Open files, kept in memory, and the table of them.
use vstd::prelude::*;
use super::cfmt::push_bytes;
use super::paths::{spot, Place, Spot};

verus! {

/// An open file.
#[derive(Debug, Clone)]
pub struct Open {
    /// Its path.
    pub guest: String,
    /// Where it is outside, if anywhere.
    pub place: Option<Place>,
    /// Whether what is written to it is kept rather than written out.
    pub sink: bool,
    /// Whether it is a file rather than the console.
    pub is_file: bool,
    /// What it holds.
    pub data: Vec<u8>,
    /// Where the next read or write is.
    pub pos: usize,
    /// Whether it holds something that was not written out.
    pub dirty: bool,
}

/// An open file as mathematics.
#[verifier::ext_equal]
pub struct OpenFile {
    /// Its path.
    pub guest: Seq<char>,
    /// Where it is outside.
    pub place: Option<Spot>,
    /// Whether what is written to it is kept.
    pub sink: bool,
    /// Whether it is a file.
    pub is_file: bool,
    /// What it holds.
    pub data: Seq<u8>,
    /// Where the next read or write is.
    pub pos: int,
    /// Whether it holds something that was not written out.
    pub dirty: bool,
}

impl View for Open {
    type V = OpenFile;

    open spec fn view(&self) -> OpenFile {
        OpenFile {
            guest: self.guest@,
            place: spot(self.place),
            sink: self.sink,
            is_file: self.is_file,
            data: self.data@,
            pos: self.pos as int,
            dirty: self.dirty,
        }
    }
}

impl OpenFile {
    /// The next read or write is inside or at the end.
    pub open spec fn wf(self) -> bool {
        0 <= self.pos <= self.data.len()
    }

    /// How many of `want` bytes there are to read.
    pub open spec fn available(self, want: int) -> int {
        if want <= self.data.len() - self.pos {
            want
        } else {
            self.data.len() - self.pos
        }
    }

    /// With `n` bytes read.
    pub open spec fn skipped(self, n: int) -> OpenFile {
        OpenFile { pos: self.pos + n, ..self }
    }

    /// With bytes written at the position, over what was there.
    pub open spec fn written(self, s: Seq<u8>) -> OpenFile {
        let end = self.pos + s.len();
        OpenFile {
            data: self.data.subrange(0, self.pos) + s + if end < self.data.len() {
                self.data.subrange(end, self.data.len() as int)
            } else {
                Seq::empty()
            },
            pos: end,
            dirty: true,
            ..self
        }
    }

    /// With bytes put at the end, wherever the position was.
    pub open spec fn appended(self, s: Seq<u8>) -> OpenFile {
        OpenFile { data: self.data + s, pos: (self.data + s).len() as int, dirty: true, ..self }
    }

    /// With one byte put at the end, and the position moved on by one.
    pub open spec fn put(self, b: u8) -> OpenFile {
        OpenFile { data: self.data.push(b), pos: self.pos + 1, dirty: true, ..self }
    }

    /// Where a seek leads: from the start, from the position or from the end,
    /// and never outside.
    pub open spec fn sought(self, off: int, whence: u32) -> int {
        let base = if whence == 1 {
            self.pos
        } else if whence == 2 {
            self.data.len() as int
        } else {
            0
        };
        let to = base + off;
        if to < 0 {
            0
        } else if to > self.data.len() {
            self.data.len() as int
        } else {
            to
        }
    }

    /// How many bytes the line at `from` takes: up to its newline, the end, or
    /// one less than `limit`.
    pub open spec fn line_len(self, from: int, n: int, limit: int) -> int
        decreases self.data.len() - from,
    {
        if from >= self.data.len() || from < 0 || n + 1 >= limit {
            n
        } else if self.data[from] == 10 {
            n + 1
        } else {
            self.line_len(from + 1, n + 1, limit)
        }
    }
}

impl Open {
    /// Reads at most `want` bytes.
    pub fn read(&mut self, want: usize) -> (r: Vec<u8>)
        requires
            old(self)@.wf(),
        ensures
            r@ == old(self)@.data.subrange(
                old(self)@.pos,
                old(self)@.pos + old(self)@.available(want as int),
            ),
            final(self)@ == old(self)@.skipped(r@.len() as int),
            final(self)@.wf(),
    {
        let left: usize = self.data.len() - self.pos;
        let got: usize = if want <= left {
            want
        } else {
            left
        };
        let r: Vec<u8> = vstd::slice::slice_to_vec(
            vstd::slice::slice_subrange(self.data.as_slice(), self.pos, self.pos + got),
        );
        self.pos = self.pos + got;
        r
    }

    /// Writes bytes at the position.
    pub fn write(&mut self, s: &[u8])
        requires
            old(self)@.wf(),
        ensures
            final(self)@ == old(self)@.written(s@),
            final(self)@.wf(),
    {
        let ghost before = self.data@;
        let mut out: Vec<u8> = vstd::slice::slice_to_vec(
            vstd::slice::slice_subrange(self.data.as_slice(), 0, self.pos),
        );
        push_bytes(&mut out, s);
        let end: usize = out.len();
        if end < self.data.len() {
            push_bytes(
                &mut out,
                vstd::slice::slice_subrange(self.data.as_slice(), end, self.data.len()),
            );
        }
        self.data = out;
        self.pos = end;
        self.dirty = true;
        assert(self@ =~= old(self)@.written(s@));
    }

    /// Puts bytes at the end.
    pub fn append(&mut self, s: &[u8])
        requires
            old(self)@.wf(),
        ensures
            final(self)@ == old(self)@.appended(s@),
            final(self)@.wf(),
    {
        push_bytes(&mut self.data, s);
        self.pos = self.data.len();
        self.dirty = true;
    }

    /// Puts one byte at the end.
    pub fn put(&mut self, b: u8)
        requires
            old(self)@.wf(),
        ensures
            final(self)@ == old(self)@.put(b),
            final(self)@.wf(),
    {
        self.data.push(b);
        let n: usize = self.data.len();
        self.pos = self.pos + 1;
        self.dirty = true;
    }

    /// Moves the position.
    pub fn seek(&mut self, off: i32, whence: u32)
        requires
            old(self)@.wf(),
        ensures
            final(self)@ == (OpenFile {
                pos: old(self)@.sought(off as int, whence),
                ..old(self)@
            }),
            final(self)@.wf(),
    {
        let base: i128 = if whence == 1 {
            self.pos as i128
        } else if whence == 2 {
            self.data.len() as i128
        } else {
            0
        };
        let to: i128 = base + off as i128;
        self.pos = if to < 0 {
            0
        } else if to > self.data.len() as i128 {
            self.data.len()
        } else {
            to as usize
        };
    }

    /// Reads a line of at most `limit` less one bytes, its newline among them.
    pub fn read_line(&mut self, limit: u32) -> (r: Vec<u8>)
        requires
            old(self)@.wf(),
        ensures
            ({
                let n = old(self)@.line_len(old(self)@.pos, 0, limit as int);
                &&& r@ == old(self)@.data.subrange(old(self)@.pos, old(self)@.pos + n)
                &&& r@.len() == n
                &&& final(self)@ == old(self)@.skipped(n)
            }),
            final(self)@.wf(),
            r@.len() < limit || r@.len() == 0,
    {
        let mut n: usize = 0;
        let mut found: bool = false;
        while !found && n < self.data.len() - self.pos && (n as u64) + 1 < limit as u64
            invariant
                self@ == old(self)@,
                self@.wf(),
                self.pos + n <= self.data@.len(),
                n < limit || n == 0,
                !found ==> old(self)@.line_len(self.pos as int, 0, limit as int) == old(
                    self,
                )@.line_len(self.pos + n, n as int, limit as int),
                found ==> n == old(self)@.line_len(self.pos as int, 0, limit as int),
            decreases self.data@.len() - n,
        {
            if self.data[self.pos + n] == 10 {
                found = true;
            }
            n = n + 1;
        }
        self.read(n)
    }
}

/// A file in the table.
pub struct Entry {
    /// What it is known by.
    pub key: u32,
    /// The file.
    pub file: Open,
}

/// Files as mathematics.
pub open spec fn filed(v: Seq<Entry>) -> Seq<(u32, OpenFile)> {
    v.map_values(|e: Entry| (e.key, e.file@))
}

/// The first file known by `k`, from `from` on; the number of files where there
/// is none.
pub open spec fn file_at(fs: Seq<(u32, OpenFile)>, k: u32, from: int) -> int
    decreases fs.len() - from,
{
    if from < 0 || from >= fs.len() {
        fs.len() as int
    } else if fs[from].0 == k {
        from
    } else {
        file_at(fs, k, from + 1)
    }
}

/// The file known by `k`.
pub open spec fn file_of(fs: Seq<(u32, OpenFile)>, k: u32) -> Option<OpenFile> {
    let i = file_at(fs, k, 0);
    if i < fs.len() {
        Some(fs[i].1)
    } else {
        None
    }
}

/// The table with a file known by `k` in the place of any other that was.
pub open spec fn with_file(fs: Seq<(u32, OpenFile)>, k: u32, f: OpenFile) -> Seq<(u32, OpenFile)> {
    let i = file_at(fs, k, 0);
    if i < fs.len() {
        fs.update(i, (k, f))
    } else {
        fs.push((k, f))
    }
}

/// The table without the file known by `k`.
pub open spec fn without_file(fs: Seq<(u32, OpenFile)>, k: u32) -> Seq<(u32, OpenFile)> {
    let i = file_at(fs, k, 0);
    if i < fs.len() {
        fs.remove(i)
    } else {
        fs
    }
}

/// Whether every file in the table is in order.
pub open spec fn all_wf(fs: Seq<(u32, OpenFile)>) -> bool {
    forall|i: int| 0 <= i < fs.len() ==> (#[trigger] fs[i]).1.wf()
}

/// Where a file is found, it is the first known by its key.
pub proof fn file_found(fs: Seq<(u32, OpenFile)>, k: u32, from: int)
    requires
        0 <= from <= fs.len(),
    ensures
        from <= file_at(fs, k, from) <= fs.len(),
        file_at(fs, k, from) < fs.len() ==> fs[file_at(fs, k, from)].0 == k,
    decreases fs.len() - from,
{
    if from < fs.len() && fs[from].0 != k {
        file_found(fs, k, from + 1);
    }
}

/// The place of the file known by `k`.
pub fn find_file(v: &Vec<Entry>, k: u32) -> (r: Option<usize>)
    ensures
        match r {
            Some(i) => i < v@.len() && i == file_at(filed(v@), k, 0) && v@[i as int].key == k,
            None => file_at(filed(v@), k, 0) == v@.len(),
        },
{
    let mut i: usize = 0;
    while i < v.len()
        invariant
            i <= v@.len(),
            file_at(filed(v@), k, 0) == file_at(filed(v@), k, i as int),
        decreases v@.len() - i,
    {
        assert(filed(v@)[i as int].0 == v@[i as int].key);
        if v[i].key == k {
            return Some(i);
        }
        i = i + 1;
    }
    None
}

/// Puts a file known by `k` in the table.
pub fn put_file(v: &mut Vec<Entry>, k: u32, file: Open)
    ensures
        filed(final(v)@) == with_file(filed(old(v)@), k, file@),
{
    let ghost before = filed(v@);
    match find_file(v, k) {
        Some(i) => {
            v.set(i, Entry { key: k, file });
            assert(filed(v@) =~= before.update(i as int, (k, file@)));
        },
        None => {
            v.push(Entry { key: k, file });
            assert(filed(v@) =~= before.push((k, file@)));
        },
    }
}

/// Takes the file known by `k` out of the table.
pub fn drop_file(v: &mut Vec<Entry>, k: u32)
    ensures
        filed(final(v)@) == without_file(filed(old(v)@), k),
{
    let ghost before = filed(v@);
    match find_file(v, k) {
        Some(i) => {
            let _gone: Entry = v.remove(i);
            assert(filed(v@) =~= before.remove(i as int));
        },
        None => {},
    }
}

} // verus!

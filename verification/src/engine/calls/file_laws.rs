//! What holds of the calls on files.
use vstd::prelude::*;
use crate::engine::files::{file_at, file_found, file_of, with_file, without_file, OpenFile};
use crate::engine::paths::{led_to, normal, stored_bytes};
use crate::engine::runtime::under;
use crate::engine::world::{bytes_in, text_in, Deed, Given, World};
use crate::xrt::flags::as_signed;
use super::files::{file_does, opened, opened_with, printed, FileCall};

verus! {

proof fn replaced_at(fs: Seq<(u32, OpenFile)>, i: int, k: u32, f: OpenFile, j: u32, from: int)
    requires
        0 <= i < fs.len(),
        fs[i].0 == k,
        0 <= from <= fs.len(),
    ensures
        file_at(fs.update(i, (k, f)), j, from) == file_at(fs, j, from),
    decreases fs.len() - from,
{
    if from < fs.len() && fs[from].0 != j {
        replaced_at(fs, i, k, f, j, from + 1);
    }
}

proof fn added_at(fs: Seq<(u32, OpenFile)>, k: u32, f: OpenFile, j: u32, from: int)
    requires
        0 <= from <= fs.len(),
        file_at(fs, k, from) == fs.len(),
    ensures
        j != k && file_at(fs, j, from) < fs.len() ==> file_at(fs.push((k, f)), j, from) == file_at(
            fs,
            j,
            from,
        ),
        j != k && file_at(fs, j, from) >= fs.len() ==> file_at(fs.push((k, f)), j, from)
            == fs.len() + 1,
        file_at(fs.push((k, f)), k, from) == fs.len(),
    decreases fs.len() - from,
{
    let w = fs.push((k, f));
    file_found(fs, k, from);
    file_found(fs, j, from);
    if from < fs.len() {
        assert(w[from] == fs[from]);
        file_found(fs, k, from + 1);
        added_at(fs, k, f, j, from + 1);
    } else {
        assert(w[from] == (k, f));
        assert(file_at(w, j, from + 1) == fs.len() + 1);
    }
}

proof fn removed_at(fs: Seq<(u32, OpenFile)>, i: int, j: u32, from: int)
    requires
        0 <= i < fs.len(),
        fs[i].0 != j,
        0 <= from <= fs.len(),
    ensures
        ({
            let k = file_at(fs, j, from);
            file_at(fs.remove(i), j, if from > i {
                from - 1
            } else {
                from
            }) == (if k > i {
                k - 1
            } else {
                k
            })
        }),
    decreases fs.len() - from,
{
    let w = fs.remove(i);
    if from < fs.len() {
        file_found(fs, j, from);
        if from < i {
            assert(w[from] == fs[from]);
        } else if from > i {
            assert(w[from - 1] == fs[from]);
        }
        if fs[from].0 != j {
            removed_at(fs, i, j, from + 1);
        }
    }
}

/// A file that is put in the table is found there, and every other file as
/// before. One that is taken out leaves the others.
pub proof fn tables_keep_files_apart(fs: Seq<(u32, OpenFile)>, k: u32, f: OpenFile, j: u32)
    ensures
        file_of(with_file(fs, k, f), k) == Some(f),
        j != k ==> file_of(with_file(fs, k, f), j) == file_of(fs, j),
        j != k ==> file_of(without_file(fs, k), j) == file_of(fs, j),
{
    file_found(fs, k, 0);
    file_found(fs, j, 0);
    let i = file_at(fs, k, 0);
    if i < fs.len() {
        replaced_at(fs, i, k, f, k, 0);
        replaced_at(fs, i, k, f, j, 0);
        if j != k {
            removed_at(fs, i, j, 0);
        }
    } else {
        added_at(fs, k, f, j, 0);
    }
}

/// Reading moves bytes from a file's position to memory, as many as are asked
/// for or as there are, counts the whole items among them, and leaves the
/// file's contents.
pub proof fn reads_move_bytes(w: World, a: Seq<u32>, g: Given, o: OpenFile)
    requires
        w.r.len() > 0,
        file_of(w.rt.files, a[3]) == Some(o),
        o.wf(),
        a[1] * a[2] <= u32::MAX,
        a[1] > 0,
    ensures
        ({
            let (x, deed) = file_does(FileCall::Read, w, a, g);
            let n = a[1] * a[2];
            let left = o.data.len() - o.pos;
            deed is Fault || (deed is Done && exists|got: int|
                {
                    &&& got == n <= left || got == left <= n
                    &&& x.r[0] * a[1] <= got < (x.r[0] + 1) * a[1]
                    &&& file_of(x.rt.files, a[3]) == Some(OpenFile { pos: o.pos + got, ..o })
                    &&& #[trigger] x.m.read(a[0] as int, got as nat) == o.data.subrange(
                        o.pos,
                        o.pos + got,
                    )
                })
        }),
{
    let (x, deed) = file_does(FileCall::Read, w, a, g);
    let (sz, n) = (a[1] as int, a[1] * a[2]);
    assert(0 <= n) by (nonlinear_arith)
        requires
            n == a[1] * a[2],
    ;
    let left = o.data.len() - o.pos;
    let got = if n <= left {
        n
    } else {
        left
    };
    if !(deed is Fault) {
        assert(x.m.read(a[0] as int, got as nat) =~= o.data.subrange(o.pos, o.pos + got));
        let q = got / sz;
        assert(q * sz <= got < (q + 1) * sz && 0 <= q <= got) by (nonlinear_arith)
            requires
                q == got / sz,
                sz > 0,
                got >= 0,
        ;
        assert(x.r[0] == q);
        tables_keep_files_apart(w.rt.files, a[3], OpenFile { pos: o.pos + got, ..o }, a[3]);
    }
}

/// What is written to a file stands at its position, and everything before and
/// behind it stays; the position is behind it.
pub proof fn writes_stand_at_the_position(w: World, a: Seq<u32>, g: Given, o: OpenFile)
    requires
        w.r.len() > 0,
        file_of(w.rt.files, a[3]) == Some(o),
        o.wf(),
        o.is_file,
        a[1] * a[2] <= u32::MAX,
        w.m.mapped(a[0] as int, a[1] * a[2]),
    ensures
        ({
            let (x, deed) = file_does(FileCall::Write, w, a, g);
            let n = a[1] * a[2];
            &&& deed is Done
            &&& x.r[0] == a[2]
            &&& x.m == w.m
            &&& file_of(x.rt.files, a[3]) matches Some(f) && {
                &&& f.pos == o.pos + n
                &&& f.dirty
                &&& f.guest == o.guest && f.place == o.place && f.sink == o.sink
                &&& f.data.len() == (if f.pos > o.data.len() {
                    f.pos
                } else {
                    o.data.len() as int
                })
                &&& forall|i: int|
                    0 <= i < f.data.len() ==> #[trigger] f.data[i] == (if o.pos <= i < f.pos {
                        w.m.at(a[0] + (i - o.pos))
                    } else {
                        o.data[i]
                    })
            }
        }),
{
    let n = a[1] * a[2];
    assert(0 <= n) by (nonlinear_arith)
        requires
            n == a[1] * a[2],
    ;
    let f = o.written(w.m.read(a[0] as int, n as nat));
    tables_keep_files_apart(w.rt.files, a[3], f, a[3]);
}

/// What a file is told after a seek is where the seek led: from the start, from
/// where it stood, or from the end, and never outside.
pub proof fn seeks_are_told(w: World, a: Seq<u32>, g: Given, o: OpenFile)
    requires
        w.r.len() > 0,
        file_of(w.rt.files, a[0]) == Some(o),
        o.wf(),
        o.data.len() <= u32::MAX,
    ensures
        ({
            let (x, _) = file_does(FileCall::Seek, w, a, g);
            let (y, _) = file_does(FileCall::Tell, x, a, g);
            let by = as_signed(a[1]);
            let n = o.data.len() as int;
            &&& a[2] == 0 && 0 <= by <= n ==> y.r[0] == by
            &&& a[2] == 1 && 0 <= o.pos + by <= n ==> y.r[0] == o.pos + by
            &&& a[2] == 2 && 0 <= n + by <= n ==> y.r[0] == n + by
            &&& by < 0 && a[2] == 0 ==> y.r[0] == 0
            &&& by < 0 && a[2] == 1 && o.pos < -by ==> y.r[0] == 0
            &&& by < 0 && a[2] == 2 && n < -by ==> y.r[0] == 0
            &&& by > n ==> a[2] <= 2 ==> y.r[0] == n
            &&& by > n - o.pos && a[2] == 1 ==> y.r[0] == n
            &&& by >= 0 && a[2] == 2 ==> y.r[0] == n
            &&& x.r[0] == 0
            &&& file_of(x.rt.files, a[0]) matches Some(f) && f == OpenFile { pos: f.pos, ..o }
        }),
{
    let f = OpenFile { pos: o.sought(as_signed(a[1]), a[2]), ..o };
    tables_keep_files_apart(w.rt.files, a[0], f, a[0]);
    assert(f.pos % 0x1_0000_0000 == f.pos);
}

/// A file that was rewound stands at its start.
pub proof fn rewinding_leads_to_the_start(w: World, a: Seq<u32>, g: Given, o: OpenFile)
    requires
        w.r.len() > 0,
        file_of(w.rt.files, a[0]) == Some(o),
    ensures
        ({
            let (x, _) = file_does(FileCall::Rewind, w, a, g);
            file_of(x.rt.files, a[0]) == Some(OpenFile { pos: 0, ..o }) && file_does(
                FileCall::Tell,
                x,
                a,
                g,
            ).0.r[0] == 0
        }),
{
    tables_keep_files_apart(w.rt.files, a[0], OpenFile { pos: 0, ..o }, a[0]);
}

/// A file's bytes come one by one until it is at its end, which is where there
/// are none left.
pub proof fn bytes_come_one_by_one(w: World, a: Seq<u32>, g: Given, o: OpenFile)
    requires
        w.r.len() > 0,
        file_of(w.rt.files, a[0]) == Some(o),
        o.wf(),
    ensures
        ({
            let (x, _) = file_does(FileCall::GetByte, w, a, g);
            let (e, _) = file_does(FileCall::AtEnd, w, a, g);
            if o.pos < o.data.len() {
                &&& x.r[0] == o.data[o.pos]
                &&& file_of(x.rt.files, a[0]) == Some(OpenFile { pos: o.pos + 1, ..o })
                &&& e.r[0] == 0
            } else {
                x.r[0] == 0xffff_ffff && x.rt == w.rt && e.r[0] == 1
            }
        }),
{
    tables_keep_files_apart(w.rt.files, a[0], OpenFile { pos: o.pos + 1, ..o }, a[0]);
}

proof fn line_stops(o: OpenFile, from: int, n: int, limit: int)
    requires
        0 <= from <= o.data.len(),
    ensures
        ({
            let k = o.line_len(from, n, limit);
            &&& n <= k <= n + o.data.len() - from
            &&& n + 1 <= limit ==> k + 1 <= limit
            &&& n + 1 >= limit ==> k == n
            &&& forall|i: int| 0 <= i < k - n - 1 ==> #[trigger] o.data[from + i] != 10
            &&& k + 1 < limit && k - n < o.data.len() - from ==> k > n && o.data[from + (k - n) - 1]
                == 10
        }),
    decreases o.data.len() - from,
{
    if from < o.data.len() && n + 1 < limit && o.data[from] != 10 {
        line_stops(o, from + 1, n + 1, limit);
        let k = o.line_len(from, n, limit);
        assert forall|i: int| 0 <= i < k - n - 1 implies #[trigger] o.data[from + i] != 10 by {
            if i > 0 {
                assert(o.data[from + 1 + (i - 1)] != 10);
            }
        }
    }
}

/// A line reaches up to its newline and holds that too, unless the limit, which
/// counts the zero behind it, or the file's end comes first.
pub proof fn lines_end_with_their_newline(w: World, a: Seq<u32>, g: Given, o: OpenFile)
    requires
        w.r.len() > 0,
        file_of(w.rt.files, a[2]) == Some(o),
        o.wf(),
    ensures
        ({
            let (x, deed) = file_does(FileCall::GetLine, w, a, g);
            if o.pos == o.data.len() {
                deed is Done && x.r[0] == 0 && x.rt == w.rt && x.m == w.m
            } else {
                deed is Fault || (deed is Done && x.r[0] == a[0] && (file_of(x.rt.files, a[2])
                    matches Some(f) && {
                    let k = f.pos - o.pos;
                    &&& f == OpenFile { pos: f.pos, ..o }
                    &&& 0 <= k <= o.data.len() - o.pos
                    &&& k + 1 <= a[1] || (k == 0 && a[1] == 0)
                    &&& x.m.read(a[0] as int, k as nat) == o.data.subrange(o.pos, f.pos)
                    &&& x.m.at(a[0] + k) == 0
                    &&& forall|i: int| o.pos <= i < f.pos - 1 ==> #[trigger] o.data[i] != 10
                    &&& k + 1 == a[1] || f.pos == o.data.len() || a[1] == 0 || (k > 0 && o.data[f.pos
                        - 1] == 10)
                }))
            }
        }),
{
    let (x, deed) = file_does(FileCall::GetLine, w, a, g);
    line_stops(o, o.pos, 0, a[1] as int);
    let k = o.line_len(o.pos, 0, a[1] as int);
    if o.pos < o.data.len() && !(deed is Fault) {
        tables_keep_files_apart(w.rt.files, a[2], OpenFile { pos: o.pos + k, ..o }, a[2]);
        assert(x.m.read(a[0] as int, k as nat) =~= o.data.subrange(o.pos, o.pos + k));
        assert forall|i: int| o.pos <= i < o.pos + k - 1 implies #[trigger] o.data[i] != 10 by {
            assert(o.data[o.pos + (i - o.pos)] != 10);
        }
    }
}

/// Text that is put out ends up at the end of its file, wherever that stood, and
/// in the log where there is no such file.
pub proof fn texts_are_put_at_the_end(w: World, a: Seq<u32>, g: Given, s: Seq<u8>)
    requires
        w.r.len() > 0,
        bytes_in(w.m, a[0]) == Some(s),
    ensures
        ({
            let (x, deed) = file_does(FileCall::PutText, w, a, g);
            &&& deed is Done && x.r[0] == 0 && x.m == w.m
            &&& match file_of(w.rt.files, a[1]) {
                Some(o) => if o.is_file {
                    file_of(x.rt.files, a[1]) == Some(
                        OpenFile {
                            data: o.data + s,
                            pos: o.data.len() as int + s.len(),
                            dirty: true,
                            ..o
                        },
                    ) && x.rt.log == w.rt.log
                } else {
                    x.rt.log == w.rt.log + s && x.rt.files == w.rt.files
                },
                None => x.rt.log == w.rt.log + s && x.rt.files == w.rt.files,
            }
        }),
{
    if let Some(o) = file_of(w.rt.files, a[1]) {
        tables_keep_files_apart(w.rt.files, a[1], o.appended(s), a[1]);
    }
}

/// A byte that is put out is the low one of its word, and ends up at the end of
/// its file, or of the log.
pub proof fn bytes_are_put_at_the_end(w: World, a: Seq<u32>, g: Given)
    requires
        w.r.len() > 0,
    ensures
        ({
            let (x, deed) = file_does(FileCall::PutByte, w, a, g);
            let b = (a[0] % 0x100) as u8;
            &&& deed is Done && x.r[0] == a[0] && x.m == w.m
            &&& match file_of(w.rt.files, a[1]) {
                Some(o) => if o.is_file {
                    file_of(x.rt.files, a[1]) matches Some(f) && f.data == o.data.push(b) && f.pos
                        == o.pos + 1 && f.dirty && x.rt.log == w.rt.log
                } else {
                    x.rt.log == w.rt.log.push(b) && x.rt.files == w.rt.files
                },
                None => x.rt.log == w.rt.log.push(b) && x.rt.files == w.rt.files,
            }
        }),
{
    let b = (a[0] % 0x100) as u8;
    assert(w.rt.log + seq![b] =~= w.rt.log.push(b));
    if let Some(o) = file_of(w.rt.files, a[1]) {
        tables_keep_files_apart(w.rt.files, a[1], o.put(b), a[1]);
    }
}

/// What was written to a file is written out once, where the file lies and is not
/// captured; a second flush finds nothing to do.
pub proof fn flushes_write_once(w: World, a: Seq<u32>, g: Given, o: OpenFile)
    requires
        file_of(w.rt.files, a[0]) == Some(o),
    ensures
        ({
            let (x, deed) = file_does(FileCall::Flush, w, a, g);
            let (y, again) = file_does(FileCall::Flush, x, a, g);
            &&& match o.place {
                Some(p) => if o.dirty && !o.sink {
                    deed == Deed::Write(p, o.data)
                } else {
                    deed is Done
                },
                None => deed is Done,
            }
            &&& again is Done
            &&& y.rt == x.rt
            &&& file_of(x.rt.files, a[0]) == Some(OpenFile { dirty: false, ..o })
        }),
{
    tables_keep_files_apart(w.rt.files, a[0], OpenFile { dirty: false, ..o }, a[0]);
}

/// Closing a file writes out what flushing it would, and leaves the others open.
pub proof fn closing_flushes(w: World, a: Seq<u32>, g: Given, j: u32)
    requires
        w.r.len() > 0,
        j != a[0],
    ensures
        ({
            let (x, deed) = file_does(FileCall::Close, w, a, g);
            &&& deed == file_does(FileCall::Flush, w, a, g).1
            &&& x.rt.sinks == file_does(FileCall::Flush, w, a, g).0.rt.sinks
            &&& file_of(x.rt.files, j) == file_of(w.rt.files, j)
            &&& x.rt.files.len() == (if file_of(w.rt.files, a[0]) is Some {
                w.rt.files.len() - 1
            } else {
                w.rt.files.len() as int
            })
        }),
{
    let (fs, k) = (w.rt.files, a[0]);
    file_found(fs, k, 0);
    if let Some(o) = file_of(fs, k) {
        let f = OpenFile { dirty: false, ..o };
        tables_keep_files_apart(fs, k, f, j);
        tables_keep_files_apart(with_file(fs, k, f), k, f, j);
        replaced_at(fs, file_at(fs, k, 0), k, f, k, 0);
    }
    tables_keep_files_apart(fs, k, arbitrary(), j);
}

/// A file opened for writing is empty, one opened for appending stands at its
/// end, any other at its start; only the first two have something to write out.
pub proof fn modes_decide_how_files_open(
    w: World,
    a: Seq<u32>,
    g: Given,
    path: Seq<char>,
    mode: Seq<char>,
)
    requires
        w.r.len() > 0,
        text_in(w.m, a[0]) == Some(path),
        text_in(w.m, a[1]) == Some(mode),
    ensures
        ({
            let (x, deed) = file_does(FileCall::Open, w, a, g);
            let guest = normal(path);
            let (writes, adds) = (
                mode.len() > 0 && mode[0] == 'w',
                mode.len() > 0 && mode[0] == 'a',
            );
            let stored = under(w.rt.overlays, guest) is Some || stored_bytes(
                w.rt.built_in,
                guest,
            ) is Some;
            let there = led_to(w.rt.mounts, guest) is Some && g.file is Some;
            &&& deed is Fault || deed is Done
            &&& deed is Done && !writes && !adds && !stored && !there && under(w.rt.sinks, guest)
                is None ==> x.r[0] == 0 && x.rt == w.rt
            &&& deed is Done && (writes || adds || stored || there) ==> (file_of(
                x.rt.files,
                x.r[0],
            ) matches Some(f) && {
                &&& f.guest == guest
                &&& f.is_file
                &&& f.place == led_to(w.rt.mounts, guest)
                &&& f.sink == (under(w.rt.sinks, guest) is Some)
                &&& f.dirty == (writes || adds)
                &&& f.pos == (if adds {
                    f.data.len() as int
                } else {
                    0
                })
                &&& writes && under(w.rt.overlays, guest) is None ==> f.data.len() == 0
                &&& under(w.rt.overlays, guest) matches Some(d) ==> f.data == d
                &&& !writes && !f.sink && under(w.rt.overlays, guest) is None && stored_bytes(
                    w.rt.built_in,
                    guest,
                ) is None && there ==> f.data == g.file->Some_0
                &&& !stored && !there ==> f.data.len() == 0
            })
        }),
{
    let guest = normal(path);
    if let Some(data) = opened_with(w.rt, guest, mode, g.file) {
        let f = opened(w.rt, guest, mode, data);
        tables_keep_files_apart(w.rt.files, w.rt.heap.block(8), f, 0);
    }
}

/// Text that is printed to memory with a limit is cut to one byte less than
/// that, and closed by a zero; what is told is how long it was. Without a limit
/// it is there whole.
pub proof fn prints_are_cut_to_their_limit(
    w: World,
    a: Seq<u32>,
    g: Given,
    s: Seq<u8>,
    limited: bool,
)
    requires
        w.r.len() > 0,
        s.len() <= u32::MAX,
        printed(
            if limited {
                FileCall::PrintLimited
            } else {
                FileCall::PrintMemory
            },
            w.m,
            a,
            g.texts,
        ) == Some(s),
    ensures
        ({
            let call = if limited {
                FileCall::PrintLimited
            } else {
                FileCall::PrintMemory
            };
            let (x, deed) = file_does(call, w, a, g);
            let n = if limited && a[1] == 0 {
                0
            } else if limited && a[1] - 1 < s.len() {
                a[1] - 1
            } else {
                s.len() as int
            };
            deed is Fault || (deed is Done && x.r[0] == s.len() && x.rt == w.rt && x.m.read(
                a[0] as int,
                n as nat,
            ) == s.take(n) && x.m.at(a[0] + n) == 0)
        }),
{
    let call = if limited {
        FileCall::PrintLimited
    } else {
        FileCall::PrintMemory
    };
    let (x, deed) = file_does(call, w, a, g);
    let n = if limited && a[1] == 0 {
        0
    } else if limited && a[1] - 1 < s.len() {
        a[1] - 1
    } else {
        s.len() as int
    };
    assert(s.len() % 0x1_0000_0000 == s.len());
    if !(deed is Fault) {
        assert(x.m.read(a[0] as int, n as nat) =~= s.take(n));
    }
}

/// Text that is printed to a file is put there as a text is, and its length is
/// told.
pub proof fn prints_are_put_out(w: World, a: Seq<u32>, g: Given, s: Seq<u8>, o: OpenFile)
    requires
        w.r.len() > 0,
        s.len() <= u32::MAX,
        printed(FileCall::PrintFile, w.m, a, g.texts) == Some(s),
        file_of(w.rt.files, a[0]) == Some(o),
        o.is_file,
    ensures
        ({
            let (x, deed) = file_does(FileCall::PrintFile, w, a, g);
            deed is Done && x.r[0] == s.len() && file_of(x.rt.files, a[0]) == Some(
                OpenFile { data: o.data + s, pos: o.data.len() as int + s.len(), dirty: true, ..o },
            )
        }),
{
    assert(s.len() % 0x1_0000_0000 == s.len());
    tables_keep_files_apart(w.rt.files, a[0], o.appended(s), a[0]);
}

} // verus!

//! What holds of the runtime around its calls.
use vstd::prelude::*;
use vstd::utf8::encode_utf8;
use crate::xrt::mem::{word_bytes, words_read_back, Space};
use crate::xrt::text::{terminated, texts_read_back};
use super::files::OpenFile;
use super::path_laws::longest_mounts_win;
use super::paths::{is_below, led_to};
use super::runtime::{
    captured, captured_at, collected, flushed, frame, laid_out, mounts_for, name_at, under,
    with_name, Machine,
};
use super::words::texts_survive;
use super::world::{arguments, bytes_in, text_in};

verus! {

proof fn stack_words(m: Space, sp: int, args: Seq<u32>, n: nat, i: int)
    requires
        4 <= i < n <= args.len(),
    ensures
        laid_out(m, sp, args, n).word(sp + 4 * (i - 4)) == args[i],
    decreases n,
{
    let before = laid_out(m, sp, args, (n - 1) as nat);
    let at = sp + 4 * (n - 5);
    words_read_back(before, at, args[n - 1], 0);
    if i < n - 1 {
        stack_words(m, sp, args, (n - 1) as nat, i);
        let w = before.write(at, word_bytes(args[n - 1]));
        assert(w.word(sp + 4 * (i - 4)) == before.word(sp + 4 * (i - 4)));
    }
}

/// A call finds the arguments that it was laid out with, in registers and on the
/// stack.
pub proof fn calls_find_their_arguments(m: Space, r: Seq<u32>, args: Seq<u32>, i: int)
    requires
        0 <= i < args.len() <= 20,
        r.len() == 16,
        forall|k: int| 0 <= k < 4 && k < args.len() ==> #[trigger] r[k] == args[k],
        r[13] == frame(args.len() as int),
    ensures
        arguments(r, laid_out(m, frame(args.len() as int), args, args.len()))[i] == args[i],
{
    if i >= 4 {
        stack_words(m, frame(args.len() as int), args, args.len(), i);
    }
}

/// The stack pointer of a call is a whole number of eights, and all its arguments
/// lie below where the stack starts, less than eight bytes from there.
pub proof fn frames_end_at_the_top(n: int)
    requires
        0 <= n <= 0x1000_0000,
    ensures
        frame(n) % 8 == 0,
        n > 4 ==> 0x7EFF_FFC0 - 8 < frame(n) + 4 * (n - 4) <= 0x7EFF_FFC0,
        n <= 4 ==> frame(n) == 0x7EFF_FFC0,
{
}

/// What was put under a name is found there, and every other name as before.
pub proof fn names_keep_apart(
    v: Seq<(Seq<char>, Seq<u8>)>,
    name: Seq<char>,
    data: Seq<u8>,
    other: Seq<char>,
)
    ensures
        under(with_name(v, name, data), name) == Some(data),
        other != name ==> under(with_name(v, name, data), other) == under(v, other),
{
    let w = with_name(v, name, data);
    name_is_first(v, name, 0);
    let k = name_at(v, name, 0);
    place_stays(v, w, name, name, 0);
    if other != name {
        name_is_first(v, other, 0);
        place_stays(v, w, name, other, 0);
    }
}

proof fn name_is_first(v: Seq<(Seq<char>, Seq<u8>)>, name: Seq<char>, from: int)
    requires
        0 <= from <= v.len(),
    ensures
        from <= name_at(v, name, from) <= v.len(),
        name_at(v, name, from) < v.len() ==> v[name_at(v, name, from)].0 == name,
    decreases v.len() - from,
{
    if from < v.len() && v[from].0 != name {
        name_is_first(v, name, from + 1);
    }
}

proof fn place_stays(
    v: Seq<(Seq<char>, Seq<u8>)>,
    w: Seq<(Seq<char>, Seq<u8>)>,
    name: Seq<char>,
    other: Seq<char>,
    from: int,
)
    requires
        0 <= from <= v.len(),
        v.len() <= w.len() <= v.len() + 1,
        forall|i: int| 0 <= i < v.len() ==> (#[trigger] w[i]).0 == v[i].0,
        w.len() > v.len() ==> w[v.len() as int].0 == name,
    ensures
        name_at(v, other, from) < v.len() ==> name_at(w, other, from) == name_at(v, other, from),
        name_at(v, other, from) >= v.len() ==> name_at(w, other, from) == (if other == name {
            v.len() as int
        } else {
            w.len() as int
        }),
    decreases v.len() - from,
{
    if from < v.len() {
        assert(w[from].0 == v[from].0);
        if v[from].0 != other {
            place_stays(v, w, name, other, from + 1);
        }
    } else if w.len() > v.len() {
        assert(name_at(w, other, from + 1) == w.len());
    }
}

/// What a captured file holds is what its path is told to hold: what is open and
/// not empty first, and what was kept otherwise.
pub proof fn open_captures_come_first(rt: Machine, guest: Seq<char>, k: int)
    requires
        0 <= k < rt.files.len(),
        rt.files[k].1.sink,
        rt.files[k].1.guest == guest,
        forall|i: int|
            0 <= i < k ==> !((#[trigger] rt.files[i]).1.sink && rt.files[i].1.guest == guest),
    ensures
        rt.files[k].1.data.len() > 0 ==> captured(rt, guest) == rt.files[k].1.data,
        rt.files[k].1.data.len() == 0 ==> captured(rt, guest) == (match under(rt.sinks, guest) {
            Some(d) => d,
            None => Seq::empty(),
        }),
{
    captured_is_first(rt.files, guest, 0, k);
}

proof fn captured_is_first(fs: Seq<(u32, OpenFile)>, guest: Seq<char>, from: int, k: int)
    requires
        0 <= from <= k < fs.len(),
        fs[k].1.sink && fs[k].1.guest == guest,
        forall|i: int| from <= i < k ==> !((#[trigger] fs[i]).1.sink && fs[i].1.guest == guest),
    ensures
        captured_at(fs, guest, from) == k,
    decreases k - from,
{
    if from < k {
        captured_is_first(fs, guest, from + 1, k);
    }
}

/// What is collected of a captured path is what each of its files holds, in
/// order, and nothing of any other file.
pub proof fn collections_take_each_file(fs: Seq<(u32, OpenFile)>, guest: Seq<char>, n: nat)
    requires
        0 < n <= fs.len(),
    ensures
        fs[n - 1].1.sink && fs[n - 1].1.guest == guest ==> collected(fs, guest, n) == collected(
            fs,
            guest,
            (n - 1) as nat,
        ) + fs[n - 1].1.data,
        !fs[n - 1].1.sink || fs[n - 1].1.guest != guest ==> collected(fs, guest, n) == collected(
            fs,
            guest,
            (n - 1) as nat,
        ),
{
}

/// Flushing a captured file keeps what it holds under its path.
pub proof fn flushed_captures_are_kept(rt: Machine, f: u32, o: OpenFile)
    requires
        super::files::file_of(rt.files, f) == Some(o),
        o.sink,
        o.dirty,
    ensures
        under(flushed(rt, f).0.sinks, o.guest) == Some(o.data),
{
    names_keep_apart(rt.sinks, o.guest, o.data, o.guest);
}

/// The engine's paths lead to its two directories: its library and all else that
/// is its own to one, its data to the other.
pub proof fn engine_paths_lead_to_their_directories(
    lib: Seq<char>,
    data: Seq<char>,
    rest: Seq<char>,
)
    requires
        lib.len() > 0,
        rest.len() > 0 ==> rest[0] != '/',
    ensures
        led_to(mounts_for(lib, data), "/loq/lib"@ + seq!['/'] + rest) matches Some(p) && p.dir == lib
            && p.rest == rest,
        led_to(mounts_for(lib, data), "/loq/data"@ + seq!['/'] + rest) matches Some(p) && p.dir
            == data && p.rest == rest,
        !is_below("/loq"@ + seq!['/'] + rest, "/loq/lib"@) && !is_below(
            "/loq"@ + seq!['/'] + rest,
            "/loq/data"@,
        ) ==> (led_to(mounts_for(lib, data), "/loq"@ + seq!['/'] + rest) matches Some(p) && p.dir
            == lib && p.rest == rest),
{
    reveal_strlit("/loq/lib");
    reveal_strlit("/loq/data");
    reveal_strlit("/loq");
    reveal_strlit("/");
    let ms = mounts_for(lib, data);
    let (a, b, c) = ("/loq/lib"@, "/loq/data"@, "/loq"@);
    let (x, y, z) = (a + seq!['/'] + rest, b + seq!['/'] + rest, c + seq!['/'] + rest);
    assert(!is_below(x, b)) by {
        assert(x[5] == 'l' && b[5] == 'd');
        if x.len() > 9 {
            assert(x.subrange(0, 10)[5] == x[5]);
            assert((b + "/"@)[5] == 'd');
        }
    }
    assert(!is_below(y, a)) by {
        assert(y[5] == 'd' && a[5] == 'l');
        if y.len() > 8 {
            assert(y.subrange(0, 9)[5] == y[5]);
            assert((a + "/"@)[5] == 'l');
        }
    }
    assert(ms[0].0 == a && ms[1].0 == b && ms[2].0 == c);
    longest_mounts_win(ms, x, 0, rest);
    longest_mounts_win(ms, y, 1, rest);
    if !is_below(z, a) && !is_below(z, b) {
        longest_mounts_win(ms, z, 2, rest);
    }
}

/// A text that was put in memory is read there as it was, and so are its bytes.
pub proof fn texts_are_read_where_they_were_put(m: Space, a: u32, s: Seq<char>)
    requires
        a != 0,
        m.reachable(a as int, encode_utf8(s).len() as int + 1),
        forall|i: int| 0 <= i < encode_utf8(s).len() ==> #[trigger] encode_utf8(s)[i] != 0,
    ensures
        text_in(m.write(a as int, terminated(encode_utf8(s))), a) == Some(s),
        bytes_in(m.write(a as int, terminated(encode_utf8(s))), a) == Some(encode_utf8(s)),
{
    texts_read_back(m, a as int, encode_utf8(s));
    texts_survive(s);
}

/// No address is an empty text.
pub proof fn no_address_is_an_empty_text(m: Space)
    ensures
        text_in(m, 0) == Some(Seq::<char>::empty()),
{
    texts_survive(Seq::empty());
    assert(encode_utf8(Seq::<char>::empty()) =~= Seq::empty());
}

} // verus!

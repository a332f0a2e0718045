//! What holds of paths and of where they lead.
use vstd::prelude::*;
use crate::data::char_laws::{joined_by, joined_pieces_are_split_again, lacks};
use crate::data::chars::{begins, find_bounds, find_from};
use super::paths::{
    all_plain, as_path, best_mount, first_name, is_below, is_plain, led_to, names_under, normal,
    rooted, slash_each, slashed, stored_at, stored_bytes, stored_names, walked, without_end_slashes,
    without_slashes,
};

verus! {

proof fn parts_of(v: Seq<Seq<char>>, x: Seq<char>)
    ensures
        slash_each(v) + seq!['/'] + x == joined_by(seq![Seq::<char>::empty()] + v + seq![x], '/'),
    decreases v.len(),
{
    let e = Seq::<char>::empty();
    let parts = seq![e] + v + seq![x];
    if v.len() == 0 {
        assert(parts.skip(1) =~= seq![x]);
        assert(joined_by(parts.skip(1), '/') == x);
        assert(e.push('/') + x =~= slash_each(v) + seq!['/'] + x);
    } else {
        reveal_strlit("/");
        assert("/"@ =~= seq!['/']);
        join_at_the_end(seq![e] + v.drop_last(), v.last(), x);
        parts_of(v.drop_last(), v.last());
        assert(parts =~= (seq![e] + v.drop_last()).push(v.last()).push(x));
        assert((seq![e] + v.drop_last()).push(v.last()) =~= seq![e] + v.drop_last() + seq![
            v.last(),
        ]);
        assert(slash_each(v) =~= slash_each(v.drop_last()) + seq!['/'] + v.last());
    }
}

proof fn join_at_the_end(v: Seq<Seq<char>>, y: Seq<char>, x: Seq<char>)
    ensures
        joined_by(v.push(y).push(x), '/') == joined_by(v.push(y), '/') + seq!['/'] + x,
    decreases v.len(),
{
    let (long, short) = (v.push(y).push(x), v.push(y));
    if v.len() == 0 {
        assert(long.skip(1) =~= seq![x]);
        assert(joined_by(long.skip(1), '/') == x);
        assert(y.push('/') + x =~= y + seq!['/'] + x);
    } else {
        assert(long.skip(1) =~= v.skip(1).push(y).push(x));
        assert(short.skip(1) =~= v.skip(1).push(y));
        join_at_the_end(v.skip(1), y, x);
        assert(long[0] == v[0] && short[0] == v[0]);
        assert(v[0].push('/') + (joined_by(short.skip(1), '/') + seq!['/'] + x) =~= v[0].push('/')
            + joined_by(short.skip(1), '/') + seq!['/'] + x);
    }
}

proof fn plain_parts_are_walked(v: Seq<Seq<char>>, x: Seq<char>, n: nat)
    requires
        all_plain(v),
        0 < n <= v.len() + 1,
    ensures
        walked(seq![Seq::<char>::empty()] + v + seq![x], n) == v.take(n - 1),
    decreases n,
{
    let parts = seq![Seq::<char>::empty()] + v + seq![x];
    if n == 1 {
        assert(parts[0].len() == 0);
        assert(walked(parts, 0) =~= Seq::empty());
        assert(v.take(0) =~= Seq::empty());
    } else {
        plain_parts_are_walked(v, x, (n - 1) as nat);
        assert(parts[n - 1] == v[n - 2]);
        assert(is_plain(v[n - 2]));
        assert(v.take(n - 1) =~= v.take(n - 2).push(v[n - 2]));
    }
}

proof fn path_with_one_more(v: Seq<Seq<char>>, x: Seq<char>)
    requires
        all_plain(v),
        lacks(x, '/'),
        lacks(x, '\\'),
    ensures
        ({
            let parts = seq![Seq::<char>::empty()] + v + seq![x];
            normal(slash_each(v) + seq!['/'] + x) == as_path(walked(parts, v.len() + 2)) && walked(
                parts,
                v.len() + 1,
            ) == v && parts[v.len() as int + 1] == x
        }),
{
    let e = Seq::<char>::empty();
    let parts = seq![e] + v + seq![x];
    let s = slash_each(v) + seq!['/'] + x;
    parts_of(v, x);
    assert forall|k: int| 0 <= k < parts.len() implies lacks(#[trigger] parts[k], '/') by {
        if 0 < k <= v.len() {
            assert(is_plain(v[k - 1]));
        }
    }
    joined_pieces_are_split_again(parts, '/');
    assert(s.len() > 0 && s[0] == '/') by {
        assert(s == e.push('/') + joined_by(parts.skip(1), '/'));
    }
    no_backslash(v);
    assert forall|i: int| 0 <= i < s.len() implies #[trigger] s[i] != '\\' by {
        let n = slash_each(v).len();
        if i < n {
            assert(s[i] == slash_each(v)[i]);
        } else if i > n {
            assert(s[i] == x[i - n - 1]);
        }
    }
    assert(slashed(s) =~= s);
    plain_parts_are_walked(v, x, v.len() + 1);
    assert(v.take(v.len() as int) =~= v);
}

proof fn no_backslash(v: Seq<Seq<char>>)
    requires
        all_plain(v),
    ensures
        lacks(slash_each(v), '\\'),
    decreases v.len(),
{
    if v.len() > 0 {
        reveal_strlit("/");
        assert("/"@ =~= seq!['/']);
        no_backslash(v.drop_last());
        let (p, x) = (slash_each(v.drop_last()), v.last());
        assert(is_plain(v[v.len() - 1]));
        let s = slash_each(v);
        assert forall|i: int| 0 <= i < s.len() implies #[trigger] s[i] != '\\' by {
            if i < p.len() {
                assert(s[i] == p[i]);
            } else if i > p.len() {
                assert(s[i] == x[i - p.len() - 1]);
            }
        }
    }
}

/// A name behind a path leads below it. Two dots lead back to where the path's
/// last name hangs, and a dot and an empty name lead nowhere.
pub proof fn detours_lead_back(v: Seq<Seq<char>>, x: Seq<char>)
    requires
        all_plain(v),
        is_plain(x),
    ensures
        normal(slash_each(v) + seq!['/'] + x) == as_path(v.push(x)),
        v.len() > 0 ==> normal(slash_each(v) + seq!['/'] + seq!['.', '.']) == as_path(
            v.drop_last(),
        ),
        v.len() == 0 ==> normal(slash_each(v) + seq!['/'] + seq!['.', '.']) == as_path(v),
        normal(slash_each(v) + seq!['/'] + seq!['.']) == as_path(v),
        normal(slash_each(v) + seq!['/'] + Seq::<char>::empty()) == as_path(v),
{
    reveal_strlit(".");
    reveal_strlit("..");
    assert("."@ =~= seq!['.']);
    assert(".."@ =~= seq!['.', '.']);
    path_with_one_more(v, x);
    path_with_one_more(v, seq!['.', '.']);
    path_with_one_more(v, seq!['.']);
    path_with_one_more(v, Seq::empty());
    assert(seq!['.', '.'] != seq!['.']) by {
        assert(seq!['.', '.'].len() == 2);
    }
}

/// A path that does not start at the root hangs below the engine's, and a
/// backslash is a slash.
pub proof fn loose_paths_hang_below_the_engines(p: Seq<char>)
    ensures
        normal(p) == normal(slashed(p)),
        p.len() > 0 && p[0] != '/' && p[0] != '\\' ==> normal(p) == normal(
            seq!['/', 'l', 'o', 'q', '/'] + p,
        ),
{
    assert(slashed(slashed(p)) =~= slashed(p));
    if p.len() > 0 && p[0] != '/' && p[0] != '\\' {
        reveal_strlit("/loq/");
        let r = seq!['/', 'l', 'o', 'q', '/'];
        assert("/loq/"@ =~= r);
        assert(slashed(r + p) =~= r + slashed(p));
        assert(rooted(slashed(r + p)) == r + slashed(p));
    }
}

proof fn best_is_longest(ms: Seq<(Seq<char>, Seq<char>)>, guest: Seq<char>, n: nat, i: int)
    requires
        n <= ms.len(),
    ensures
        best_mount(ms, guest, n) matches Some(k) ==> 0 <= k < n && is_below(guest, ms[k].0),
        0 <= i < n && is_below(guest, ms[i].0) ==> (best_mount(ms, guest, n) matches Some(k)
            && ms[k].0.len() >= ms[i].0.len() && (ms[k].0.len() == ms[i].0.len() ==> k <= i)),
    decreases n,
{
    if n > 0 {
        best_is_longest(ms, guest, (n - 1) as nat, i);
        if let Some(k) = best_mount(ms, guest, (n - 1) as nat) {
            best_is_longest(ms, guest, (n - 1) as nat, k);
        }
    }
}

proof fn slashes_come_off(rest: Seq<char>)
    requires
        rest.len() > 0 ==> rest[0] != '/',
    ensures
        without_slashes(seq!['/'] + rest) == rest,
        without_slashes(rest) == rest,
{
    let s = seq!['/'] + rest;
    assert(s.subrange(1, s.len() as int) =~= rest);
    assert(without_slashes(rest) == rest);
}

/// A path leads to the directory of the mount with the longest path that it is or
/// lies below, and from there on by the rest of it.
pub proof fn longest_mounts_win(
    ms: Seq<(Seq<char>, Seq<char>)>,
    guest: Seq<char>,
    k: int,
    rest: Seq<char>,
)
    requires
        0 <= k < ms.len(),
        guest == ms[k].0 + seq!['/'] + rest || (guest == ms[k].0 && rest.len() == 0),
        rest.len() > 0 ==> rest[0] != '/',
        forall|i: int|
            0 <= i < ms.len() && i != k && is_below(guest, (#[trigger] ms[i]).0) ==> ms[i].0.len()
                < ms[k].0.len(),
    ensures
        led_to(ms, guest) matches Some(p) && p.dir == ms[k].1 && p.rest == rest,
{
    reveal_strlit("/");
    assert("/"@ =~= seq!['/']);
    let n = ms[k].0.len() as int;
    if guest == ms[k].0 + seq!['/'] + rest {
        assert(guest.subrange(0, n + 1) =~= ms[k].0 + "/"@);
        assert(guest.subrange(n, guest.len() as int) =~= seq!['/'] + rest);
    } else {
        assert(guest.subrange(n, guest.len() as int) =~= rest);
    }
    assert(is_below(guest, ms[k].0));
    best_is_longest(ms, guest, ms.len(), k);
    let b = best_mount(ms, guest, ms.len())->Some_0;
    assert(is_below(guest, ms[b].0));
    assert(b == k);
    slashes_come_off(rest);
}

/// A path that lies below no mount leads nowhere.
pub proof fn other_paths_lead_nowhere(ms: Seq<(Seq<char>, Seq<char>)>, guest: Seq<char>)
    requires
        forall|i: int| 0 <= i < ms.len() ==> !is_below(guest, (#[trigger] ms[i]).0),
    ensures
        led_to(ms, guest) is None,
{
    best_is_longest(ms, guest, ms.len(), 0);
}

proof fn stored_is_first(
    files: Seq<(&'static str, &'static [u8])>,
    guest: Seq<char>,
    from: int,
    k: int,
)
    requires
        0 <= from <= k <= files.len(),
        forall|i: int| from <= i < k ==> (#[trigger] files[i]).0@ != guest,
        k < files.len() ==> files[k].0@ == guest,
    ensures
        stored_at(files, guest, from) == k,
    decreases k - from,
{
    if from < k {
        stored_is_first(files, guest, from + 1, k);
    }
}

/// A file that the program carries is found by its whole path.
pub proof fn carried_files_are_found_by_their_path(
    files: Seq<(&'static str, &'static [u8])>,
    guest: Seq<char>,
    k: int,
)
    requires
        0 <= k <= files.len(),
        forall|i: int| 0 <= i < k ==> (#[trigger] files[i]).0@ != guest,
        k < files.len() ==> files[k].0@ == guest,
    ensures
        stored_bytes(files, guest) == (if k < files.len() {
            Some(files[k].1@)
        } else {
            None
        }),
{
    stored_is_first(files, guest, 0, k);
}

proof fn name_is_kept(
    files: Seq<(&'static str, &'static [u8])>,
    prefix: Seq<char>,
    n: nat,
    k: int,
    name: Seq<char>,
)
    requires
        0 <= k < n <= files.len(),
        begins(files[k].0@, prefix),
        first_name(files[k].0@.subrange(prefix.len() as int, files[k].0@.len() as int)) == name,
    ensures
        names_under(files, prefix, n).contains(name),
    decreases n,
{
    let v = names_under(files, prefix, n);
    if k < n - 1 {
        name_is_kept(files, prefix, (n - 1) as nat, k, name);
        let b = names_under(files, prefix, (n - 1) as nat);
        let i = choose|i: int| 0 <= i < b.len() && b[i] == name;
        assert(v[i] == name);
    } else {
        let b = names_under(files, prefix, (n - 1) as nat);
        if !b.contains(name) {
            assert(v[v.len() - 1] == name);
        }
    }
}

/// A directory tells each name that the path of a carried file goes on with.
pub proof fn carried_files_are_told(
    files: Seq<(&'static str, &'static [u8])>,
    dir: Seq<char>,
    name: Seq<char>,
    rest: Seq<char>,
    k: int,
)
    requires
        0 <= k < files.len(),
        lacks(name, '/'),
        dir.len() > 0 ==> dir.last() != '/',
        files[k].0@ == dir + seq!['/'] + name || files[k].0@ == dir + seq!['/'] + name + seq!['/']
            + rest,
    ensures
        stored_names(files, dir).contains(name),
        stored_names(files, dir + seq!['/']).contains(name),
{
    reveal_strlit("/");
    assert("/"@ =~= seq!['/']);
    let p = files[k].0@;
    let prefix = dir + "/"@;
    let tail = p.subrange(prefix.len() as int, p.len() as int);
    assert(p.subrange(0, prefix.len() as int) =~= prefix);
    find_bounds(tail, '/', 0);
    let e = find_from(tail, '/', 0);
    if e < name.len() {
        assert(tail[e] == name[e]);
    }
    if tail.len() > name.len() {
        assert(tail[name.len() as int] == '/');
    }
    assert(tail.subrange(0, e) =~= name);
    name_is_kept(files, prefix, files.len(), k, name);
    assert(without_end_slashes(dir) == dir);
    let d = dir + seq!['/'];
    assert(d.subrange(0, d.len() - 1) =~= dir);
    assert(without_end_slashes(d) == dir);
}

} // verus!

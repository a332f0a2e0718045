//! Paths as the engine sees them, and where they lead.
//!
//! The engine's tree hangs under one fixed root. A path in it leads to a file
//! that the program carries, or below a directory that is mounted there.
use vstd::prelude::*;
use crate::data::chars::{
    begins, chars_of, equal, find, find_from, pieces, push_all, push_str, rest, split_at_each,
    split_on, starts_with, text_of,
};
use crate::data::sde::strings;

verus! {

/// The root of the engine's tree.
pub const GUEST_ROOT: &'static str = "/loq";

/// Where its modules are.
pub const GUEST_LIB: &'static str = "/loq/lib";

/// Where its data is.
pub const GUEST_DATA: &'static str = "/loq/data";

/// Its session file.
pub const GUEST_SESSION: &'static str = "/loq/default.session";

/// Where it writes its audio.
pub const GUEST_OUT: &'static str = "/loq/out.raw";

/// Backslashes as slashes.
pub open spec fn slashed(p: Seq<char>) -> Seq<char> {
    p.map_values(
        |c: char|
            if c == '\\' {
                '/'
            } else {
                c
            },
    )
}

/// A path from the root: one that is not already hangs under the engine's.
pub open spec fn rooted(p: Seq<char>) -> Seq<char> {
    if p.len() > 0 && p[0] == '/' {
        p
    } else {
        "/loq/"@ + p
    }
}

/// The names that are left after the first `n` parts of a path: an empty part
/// and a dot lead nowhere, two dots lead back.
pub open spec fn walked(parts: Seq<Seq<char>>, n: nat) -> Seq<Seq<char>>
    decreases n,
{
    if n == 0 {
        Seq::empty()
    } else {
        let before = walked(parts, (n - 1) as nat);
        let p = parts[n - 1];
        if p.len() == 0 || p == "."@ {
            before
        } else if p == ".."@ {
            if before.len() > 0 {
                before.drop_last()
            } else {
                before
            }
        } else {
            before.push(p)
        }
    }
}

/// Names with a slash before each; a slash where there are none.
pub open spec fn as_path(names: Seq<Seq<char>>) -> Seq<char> {
    if names.len() == 0 {
        "/"@
    } else {
        slash_each(names)
    }
}

/// Names with a slash before each.
pub open spec fn slash_each(names: Seq<Seq<char>>) -> Seq<char>
    decreases names.len(),
{
    if names.len() == 0 {
        Seq::empty()
    } else {
        slash_each(names.drop_last()) + "/"@ + names.last()
    }
}

/// A path without detours.
pub open spec fn normal(p: Seq<char>) -> Seq<char> {
    let parts = split_at_each(rooted(slashed(p)), '/');
    as_path(walked(parts, parts.len()))
}

/// Backslashes as slashes.
fn to_slashes(p: &[char]) -> (r: Vec<char>)
    ensures
        r@ == slashed(p@),
{
    let mut out: Vec<char> = Vec::new();
    let mut i: usize = 0;
    while i < p.len()
        invariant
            i <= p@.len(),
            out@ == slashed(p@.take(i as int)),
        decreases p@.len() - i,
    {
        out.push(
            if p[i] == '\\' {
                '/'
            } else {
                p[i]
            },
        );
        assert(out@ =~= slashed(p@.take(i + 1)));
        i = i + 1;
    }
    assert(p@.take(p@.len() as int) =~= p@);
    out
}

/// A path without detours, under the engine's root where it does not start at
/// the top.
pub fn norm(p: &str) -> (r: String)
    ensures
        r@ == normal(p@),
{
    let cs: Vec<char> = chars_of(p);
    let p1: Vec<char> = to_slashes(cs.as_slice());
    let mut full: Vec<char> = Vec::new();
    proof {
        reveal_strlit("/loq/");
        reveal_strlit("/loq");
        reveal_strlit("/");
        reveal_strlit(".");
        reveal_strlit("..");
    }
    if !(p1.len() > 0 && p1[0] == '/') {
        push_str(&mut full, "/loq/");
    }
    push_all(&mut full, p1.as_slice());
    assert(full@ =~= rooted(slashed(p@)));
    let parts: Vec<Vec<char>> = split_on(full.as_slice(), '/');
    let ghost ps = pieces(parts@);
    let mut names: Vec<Vec<char>> = Vec::new();
    assert(pieces(names@) =~= Seq::empty());
    let mut i: usize = 0;
    while i < parts.len()
        invariant
            i <= parts@.len(),
            ps == pieces(parts@),
            "."@.len() == 1,
            "."@[0] == '.',
            ".."@.len() == 2,
            ".."@[0] == '.',
            ".."@[1] == '.',
            pieces(names@) == walked(ps, i as nat),
        decreases parts@.len() - i,
    {
        let part: &Vec<char> = &parts[i];
        assert(ps[i as int] == part@);
        let ghost before = pieces(names@);
        let one: bool = part.len() == 1 && part[0] == '.';
        let two: bool = part.len() == 2 && part[0] == '.' && part[1] == '.';
        assert(one == (part@ == "."@)) by {
            if one {
                assert(part@ =~= "."@);
            }
        }
        assert(two == (part@ == ".."@)) by {
            if two {
                assert(part@ =~= ".."@);
            }
        }
        if part.len() == 0 || one {
        } else if two {
            if names.len() > 0 {
                let _last: Option<Vec<char>> = names.pop();
                assert(pieces(names@) =~= before.drop_last());
            }
        } else {
            let name: Vec<char> = vstd::slice::slice_to_vec(part.as_slice());
            names.push(name);
            assert(pieces(names@) =~= before.push(part@));
        }
        i = i + 1;
    }
    path_of(&names)
}

/// Names as a path.
fn path_of(names: &Vec<Vec<char>>) -> (r: String)
    ensures
        r@ == as_path(pieces(names@)),
{
    if names.len() == 0 {
        assert(pieces(names@).len() == 0);
        return "/".to_owned();
    }
    let ghost all = pieces(names@);
    let mut out: Vec<char> = Vec::new();
    let mut i: usize = 0;
    assert(all.take(0) =~= Seq::empty());
    while i < names.len()
        invariant
            i <= names@.len(),
            all == pieces(names@),
            out@ == slash_each(all.take(i as int)),
        decreases names@.len() - i,
    {
        push_str(&mut out, "/");
        push_all(&mut out, names[i].as_slice());
        proof {
            let next = all.take(i + 1);
            assert(next.drop_last() =~= all.take(i as int));
            assert(next.last() == names@[i as int]@);
        }
        i = i + 1;
    }
    assert(all.take(names@.len() as int) =~= all);
    text_of(out.as_slice())
}

/// A directory that is mounted under a path.
#[derive(Debug, Clone)]
pub struct Mount {
    /// The path.
    pub prefix: String,
    /// The directory.
    pub dir: String,
}

/// A place below a directory.
#[derive(Debug, Clone, PartialEq, Eq)]
pub struct Place {
    /// The directory.
    pub dir: String,
    /// The path below it; empty for the directory itself.
    pub rest: String,
}

/// A place as mathematics.
pub struct Spot {
    /// The directory.
    pub dir: Seq<char>,
    /// The path below it.
    pub rest: Seq<char>,
}

impl View for Place {
    type V = Spot;

    open spec fn view(&self) -> Spot {
        Spot { dir: self.dir@, rest: self.rest@ }
    }
}

/// Mounts as mathematics: paths and directories.
pub open spec fn mounted(v: Seq<Mount>) -> Seq<(Seq<char>, Seq<char>)> {
    v.map_values(|m: Mount| (m.prefix@, m.dir@))
}

/// Whether a path is another or lies below it.
pub open spec fn is_below(guest: Seq<char>, prefix: Seq<char>) -> bool {
    guest == prefix || begins(guest, prefix + "/"@)
}

/// Without the slashes at its start.
pub open spec fn without_slashes(s: Seq<char>) -> Seq<char>
    decreases s.len(),
{
    if s.len() > 0 && s[0] == '/' {
        without_slashes(s.subrange(1, s.len() as int))
    } else {
        s
    }
}

/// Of the first `n` mounts, the one with the longest path that `guest` lies
/// below; the first of several.
pub open spec fn best_mount(ms: Seq<(Seq<char>, Seq<char>)>, guest: Seq<char>, n: nat) -> Option<
    int,
>
    decreases n,
{
    if n == 0 {
        None
    } else {
        let before = best_mount(ms, guest, (n - 1) as nat);
        if is_below(guest, ms[n - 1].0) && match before {
            Some(k) => ms[n - 1].0.len() > ms[k].0.len(),
            None => true,
        } {
            Some(n - 1)
        } else {
            before
        }
    }
}

/// Where a path leads.
pub open spec fn led_to(ms: Seq<(Seq<char>, Seq<char>)>, guest: Seq<char>) -> Option<Spot> {
    match best_mount(ms, guest, ms.len()) {
        Some(k) => Some(
            Spot {
                dir: ms[k].1,
                rest: without_slashes(guest.subrange(ms[k].0.len() as int, guest.len() as int)),
            },
        ),
        None => None,
    }
}

/// A place that may be none, as mathematics.
pub open spec fn spot(p: Option<Place>) -> Option<Spot> {
    match p {
        Some(p) => Some(p@),
        None => None,
    }
}

/// Whether a path is another or lies below it.
fn lies_below(guest: &[char], prefix: &[char]) -> (r: bool)
    ensures
        r == is_below(guest@, prefix@),
        r ==> prefix@.len() <= guest@.len(),
{
    if equal(guest, prefix) {
        return true;
    }
    proof {
        reveal_strlit("/");
    }
    let mut p: Vec<char> = vstd::slice::slice_to_vec(prefix);
    p.push('/');
    assert(p@ =~= prefix@ + "/"@);
    starts_with(guest, p.as_slice())
}

/// Without the slashes at its start.
fn skip_slashes(s: &[char]) -> (r: &[char])
    ensures
        r@ == without_slashes(s@),
{
    let mut i: usize = 0;
    assert(s@.subrange(0, s@.len() as int) =~= s@);
    while i < s.len() && s[i] == '/'
        invariant
            i <= s@.len(),
            without_slashes(s@) == without_slashes(s@.subrange(i as int, s@.len() as int)),
        decreases s@.len() - i,
    {
        let ghost left = s@.subrange(i as int, s@.len() as int);
        assert(left.subrange(1, left.len() as int) =~= s@.subrange(i + 1, s@.len() as int));
        i = i + 1;
    }
    rest(s, i)
}

/// Where a path leads, if anywhere: below the longest path that it lies under.
pub fn real_place(mounts: &Vec<Mount>, guest: &str) -> (r: Option<Place>)
    ensures
        spot(r) == led_to(mounted(mounts@), guest@),
{
    let g: Vec<char> = chars_of(guest);
    let ghost ms = mounted(mounts@);
    let mut best: Option<(usize, usize)> = None;
    let mut i: usize = 0;
    while i < mounts.len()
        invariant
            i <= mounts@.len(),
            g@ == guest@,
            ms == mounted(mounts@),
            match (best, best_mount(ms, guest@, i as nat)) {
                (Some((n, k)), Some(want)) => k == want && k < mounts@.len() && n == ms[want].0.len()
                    && n <= g@.len(),
                (None, None) => true,
                _ => false,
            },
        decreases mounts@.len() - i,
    {
        let p: Vec<char> = chars_of(mounts[i].prefix.as_str());
        assert(ms[i as int].0 == p@);
        if lies_below(g.as_slice(), p.as_slice()) {
            let longer: bool = match best {
                Some((n, _)) => p.len() > n,
                None => true,
            };
            if longer {
                best = Some((p.len(), i));
            }
        }
        i = i + 1;
    }
    match best {
        Some((n, k)) => {
            assert(ms[k as int].1 == mounts@[k as int].dir@);
            let below: String = text_of(skip_slashes(rest(g.as_slice(), n)));
            Some(Place { dir: mounts[k].dir.clone(), rest: below })
        },
        None => None,
    }
}

/// Files that the program carries: paths and bytes.
pub type Stored = [(&'static str, &'static [u8])];

/// The first file with a path, from `from` on; the number of files where there
/// is none.
pub open spec fn stored_at(
    files: Seq<(&'static str, &'static [u8])>,
    guest: Seq<char>,
    from: int,
) -> int
    decreases files.len() - from,
{
    if from >= files.len() {
        files.len() as int
    } else if files[from].0@ == guest {
        from
    } else {
        stored_at(files, guest, from + 1)
    }
}

/// The bytes of a file that the program carries.
pub open spec fn stored_bytes(
    files: Seq<(&'static str, &'static [u8])>,
    guest: Seq<char>,
) -> Option<Seq<u8>> {
    let k = stored_at(files, guest, 0);
    if k < files.len() {
        Some(files[k].1@)
    } else {
        None
    }
}

/// The bytes of a file that the program carries, if there is one.
pub fn stored(files: &'static Stored, guest: &str) -> (r: Option<&'static [u8]>)
    ensures
        match (r, stored_bytes(files@, guest@)) {
            (Some(b), Some(want)) => b@ == want,
            (None, None) => true,
            _ => false,
        },
{
    let g: Vec<char> = chars_of(guest);
    let mut i: usize = 0;
    while i < files.len()
        invariant
            i <= files@.len(),
            g@ == guest@,
            stored_at(files@, guest@, 0) == stored_at(files@, guest@, i as int),
        decreases files@.len() - i,
    {
        let (path, bytes) = files[i];
        assert(files@[i as int] == (path, bytes));
        if equal(chars_of(path).as_slice(), g.as_slice()) {
            return Some(bytes);
        }
        i = i + 1;
    }
    None
}

/// Without the slashes at its end.
pub open spec fn without_end_slashes(s: Seq<char>) -> Seq<char>
    decreases s.len(),
{
    if s.len() > 0 && s[s.len() - 1] == '/' {
        without_end_slashes(s.subrange(0, s.len() - 1))
    } else {
        s
    }
}

/// A path's first name.
pub open spec fn first_name(s: Seq<char>) -> Seq<char> {
    s.subrange(0, find_from(s, '/', 0))
}

/// The names that follow `prefix` in the paths of the first `n` files, each
/// once.
pub open spec fn names_under(
    files: Seq<(&'static str, &'static [u8])>,
    prefix: Seq<char>,
    n: nat,
) -> Seq<Seq<char>>
    decreases n,
{
    if n == 0 {
        Seq::empty()
    } else {
        let before = names_under(files, prefix, (n - 1) as nat);
        let p = files[n - 1].0@;
        if begins(p, prefix) {
            let name = first_name(p.subrange(prefix.len() as int, p.len() as int));
            if before.contains(name) {
                before
            } else {
                before.push(name)
            }
        } else {
            before
        }
    }
}

/// What a directory that the program carries holds.
pub open spec fn stored_names(
    files: Seq<(&'static str, &'static [u8])>,
    guest: Seq<char>,
) -> Seq<Seq<char>> {
    names_under(files, without_end_slashes(guest) + "/"@, files.len())
}

/// A directory's names are told once each.
pub proof fn names_are_told_once(
    files: Seq<(&'static str, &'static [u8])>,
    guest: Seq<char>,
    i: int,
    j: int,
)
    requires
        0 <= i < j < stored_names(files, guest).len(),
    ensures
        stored_names(files, guest)[i] != stored_names(files, guest)[j],
{
    names_differ(files, without_end_slashes(guest) + "/"@, files.len(), i, j);
}

proof fn names_differ(
    files: Seq<(&'static str, &'static [u8])>,
    prefix: Seq<char>,
    n: nat,
    i: int,
    j: int,
)
    requires
        0 <= i < j < names_under(files, prefix, n).len(),
    ensures
        names_under(files, prefix, n)[i] != names_under(files, prefix, n)[j],
    decreases n,
{
    let before = names_under(files, prefix, (n - 1) as nat);
    if j < before.len() {
        names_differ(files, prefix, (n - 1) as nat, i, j);
    } else {
        assert(before.contains(before[i]));
    }
}

/// Whether a name is among others.
fn has_name(names: &Vec<String>, name: &[char]) -> (r: bool)
    ensures
        r == strings(names@).contains(name@),
{
    let mut i: usize = 0;
    while i < names.len()
        invariant
            i <= names@.len(),
            forall|k: int| 0 <= k < i ==> #[trigger] strings(names@)[k] != name@,
        decreases names@.len() - i,
    {
        assert(strings(names@)[i as int] == names@[i as int]@);
        if equal(chars_of(names[i].as_str()).as_slice(), name) {
            return true;
        }
        i = i + 1;
    }
    false
}

/// What a directory that the program carries holds: the names that follow it
/// in the paths of its files, each once.
pub fn stored_dir(files: &'static Stored, guest: &str) -> (r: Vec<String>)
    ensures
        strings(r@) == stored_names(files@, guest@),
{
    let g: Vec<char> = chars_of(guest);
    let mut n: usize = g.len();
    assert(g@.subrange(0, n as int) =~= g@);
    while n > 0 && g[n - 1] == '/'
        invariant
            n <= g@.len(),
            without_end_slashes(g@) == without_end_slashes(g@.subrange(0, n as int)),
        decreases n,
    {
        assert(g@.subrange(0, n as int).subrange(0, n - 1) =~= g@.subrange(0, n - 1));
        n = n - 1;
    }
    let mut prefix: Vec<char> = vstd::slice::slice_to_vec(
        vstd::slice::slice_subrange(g.as_slice(), 0, n),
    );
    push_str(&mut prefix, "/");
    let mut names: Vec<String> = Vec::new();
    assert(strings(names@) =~= Seq::empty());
    let mut i: usize = 0;
    while i < files.len()
        invariant
            i <= files@.len(),
            strings(names@) == names_under(files@, prefix@, i as nat),
        decreases files@.len() - i,
    {
        let (path, bytes) = files[i];
        assert(files@[i as int] == (path, bytes));
        let p: Vec<char> = chars_of(path);
        if starts_with(p.as_slice(), prefix.as_slice()) {
            let below: &[char] = rest(p.as_slice(), prefix.len());
            let end: usize = find(below, '/', 0);
            let name: &[char] = vstd::slice::slice_subrange(below, 0, end);
            if !has_name(&names, name) {
                let ghost before = strings(names@);
                let t: String = text_of(name);
                names.push(t);
                assert(strings(names@) =~= before.push(name@));
            }
        }
        i = i + 1;
    }
    names
}

/// Whether a name can stand in a path without detours.
pub open spec fn is_plain(name: Seq<char>) -> bool {
    &&& name.len() > 0
    &&& name != "."@
    &&& name != ".."@
    &&& forall|i: int| 0 <= i < name.len() ==> #[trigger] name[i] != '/' && name[i] != '\\'
}

/// Whether all names can.
pub open spec fn all_plain(names: Seq<Seq<char>>) -> bool {
    forall|k: int| 0 <= k < names.len() ==> is_plain(#[trigger] names[k])
}

/// A path without detours has none: it is made of plain names, and normalising
/// it again changes nothing.
pub proof fn normal_paths_stay(p: Seq<char>)
    ensures
        exists|names: Seq<Seq<char>>| all_plain(names) && normal(p) == #[trigger] as_path(names),
        normal(normal(p)) == normal(p),
{
    let full = rooted(slashed(p));
    let parts = split_at_each(full, '/');
    let names = walked(parts, parts.len());
    reveal_strlit("/loq/");
    assert forall|i: int| 0 <= i < full.len() implies #[trigger] full[i] != '\\' by {}
    parts_hold_no_slash(full);
    walked_names_are_plain(parts, parts.len());
    assert(all_plain(names) && normal(p) == as_path(names));
    plain_paths_are_normal(names);
}

proof fn parts_hold_no_slash(s: Seq<char>)
    requires
        forall|i: int| 0 <= i < s.len() ==> #[trigger] s[i] != '\\',
    ensures
        forall|k: int, i: int|
            #![trigger split_at_each(s, '/')[k][i]]
            0 <= k < split_at_each(s, '/').len() && 0 <= i < split_at_each(s, '/')[k].len()
                ==> split_at_each(s, '/')[k][i] != '/' && split_at_each(s, '/')[k][i] != '\\',
    decreases s.len(),
{
    let n = find_from(s, '/', 0);
    crate::data::chars::find_bounds(s, '/', 0);
    if n < s.len() {
        let more = s.subrange(n + 1, s.len() as int);
        assert forall|i: int| 0 <= i < more.len() implies #[trigger] more[i] != '\\' by {
            assert(more[i] == s[n + 1 + i]);
        }
        parts_hold_no_slash(more);
        let all = split_at_each(s, '/');
        let rest_parts = split_at_each(more, '/');
        assert forall|k: int, i: int|
            #![trigger all[k][i]]
            0 <= k < all.len() && 0 <= i < all[k].len() implies all[k][i] != '/' && all[k][i]
            != '\\' by {
            if k == 0 {
                assert(all[0] == s.subrange(0, n));
                assert(all[0][i] == s[i]);
            } else {
                assert(all[k] == rest_parts[k - 1]);
                assert(rest_parts[k - 1][i] != '/');
            }
        }
    }
}

proof fn walked_names_are_plain(parts: Seq<Seq<char>>, n: nat)
    requires
        n <= parts.len(),
        forall|k: int, i: int|
            #![trigger parts[k][i]]
            0 <= k < parts.len() && 0 <= i < parts[k].len() ==> parts[k][i] != '/' && parts[k][i]
                != '\\',
    ensures
        all_plain(walked(parts, n)),
    decreases n,
{
    if n > 0 {
        walked_names_are_plain(parts, (n - 1) as nat);
        let before = walked(parts, (n - 1) as nat);
        let now = walked(parts, n);
        let p = parts[n - 1];
        assert forall|k: int| 0 <= k < now.len() implies is_plain(#[trigger] now[k]) by {
            if k < before.len() {
                assert(now[k] == before[k]);
            } else {
                assert(now[k] == p);
                assert forall|i: int| 0 <= i < p.len() implies #[trigger] p[i] != '/' && p[i]
                    != '\\' by {
                    assert(parts[n - 1][i] != '/');
                }
            }
        }
    }
}

/// Names set apart by slashes.
spec fn between(names: Seq<Seq<char>>) -> Seq<char>
    decreases names.len(),
{
    if names.len() == 0 {
        Seq::empty()
    } else if names.len() == 1 {
        names[0]
    } else {
        names[0] + "/"@ + between(names.subrange(1, names.len() as int))
    }
}

proof fn slashes_before(names: Seq<Seq<char>>)
    requires
        names.len() > 0,
    ensures
        slash_each(names) == "/"@ + between(names),
    decreases names.len(),
{
    if names.len() == 1 {
        assert(slash_each(names.drop_last()) =~= Seq::empty());
        assert(names.last() == names[0]);
        assert(slash_each(names) =~= "/"@ + names[0]);
    } else {
        let head = names.drop_last();
        slashes_before(head);
        between_last(names);
        assert(slash_each(names) =~= "/"@ + between(names));
    }
}

proof fn between_last(names: Seq<Seq<char>>)
    requires
        names.len() >= 2,
    ensures
        between(names) == between(names.drop_last()) + "/"@ + names.last(),
    decreases names.len(),
{
    let more = names.subrange(1, names.len() as int);
    if names.len() == 2 {
        assert(between(more) == names[1]);
        assert(names.drop_last().len() == 1);
    } else {
        between_last(more);
        assert(more.drop_last() =~= names.drop_last().subrange(1, names.len() - 1));
        assert(names.drop_last()[0] == names[0]);
        assert(between(names) =~= between(names.drop_last()) + "/"@ + names.last());
    }
}

proof fn find_first_slash(a: Seq<char>, b: Seq<char>, from: int)
    requires
        0 <= from <= a.len(),
        forall|i: int| 0 <= i < a.len() ==> #[trigger] a[i] != '/',
        b.len() == 0 || b[0] == '/',
    ensures
        find_from(a + b, '/', from) == a.len(),
    decreases a.len() - from,
{
    if from < a.len() {
        assert((a + b)[from] == a[from]);
        find_first_slash(a, b, from + 1);
    } else if b.len() > 0 {
        assert((a + b)[from] == b[0]);
    }
}

proof fn split_between(names: Seq<Seq<char>>)
    requires
        names.len() > 0,
        all_plain(names),
    ensures
        split_at_each(between(names), '/') == names,
    decreases names.len(),
{
    reveal_strlit("/");
    assert(is_plain(names[0]));
    if names.len() == 1 {
        find_first_slash(names[0], Seq::empty(), 0);
        assert(names[0] + Seq::<char>::empty() =~= names[0]);
        assert(split_at_each(names[0], '/') =~= names);
    } else {
        let more = names.subrange(1, names.len() as int);
        assert forall|k: int| 0 <= k < more.len() implies is_plain(#[trigger] more[k]) by {
            assert(is_plain(names[k + 1]));
        }
        split_between(more);
        let tail = "/"@ + between(more);
        let s = between(names);
        assert(s =~= names[0] + tail);
        find_first_slash(names[0], tail, 0);
        let n = names[0].len() as int;
        assert(s.subrange(0, n) =~= names[0]);
        assert(s.subrange(n + 1, s.len() as int) =~= between(more));
        assert(split_at_each(s, '/') =~= names);
    }
}

proof fn walk_plain(names: Seq<Seq<char>>, n: nat)
    requires
        all_plain(names),
        n <= names.len(),
    ensures
        walked(seq![Seq::<char>::empty()] + names, n + 1) == names.take(n as int),
    decreases n,
{
    let parts = seq![Seq::<char>::empty()] + names;
    if n == 0 {
        assert(walked(parts, 0) =~= Seq::empty());
        assert(walked(parts, 1) =~= names.take(0));
    } else {
        walk_plain(names, (n - 1) as nat);
        assert(parts[n as int] == names[n - 1]);
        assert(is_plain(names[n - 1]));
        assert(names.take(n as int) =~= names.take(n - 1).push(names[n - 1]));
    }
}

proof fn plain_paths_are_normal(names: Seq<Seq<char>>)
    requires
        all_plain(names),
    ensures
        normal(as_path(names)) == as_path(names),
{
    reveal_strlit("/");
    let p = as_path(names);
    let nothing = Seq::<char>::empty();
    if names.len() == 0 {
        assert(slashed(p) =~= p);
        assert(find_from(p, '/', 0) == 0);
        assert(p.subrange(0, 0) =~= nothing);
        assert(p.subrange(1, 1) =~= nothing);
        assert(split_at_each(nothing, '/') =~= seq![nothing]);
        let parts = split_at_each(p, '/');
        assert(parts =~= seq![nothing, nothing]);
        assert(walked(parts, 0) =~= Seq::empty());
        assert(walked(parts, 1) =~= Seq::empty());
        assert(walked(parts, 2) =~= Seq::empty());
    } else {
        slashes_before(names);
        no_backslash(names);
        assert(slashed(p) =~= p);
        split_between(names);
        assert(p[0] == '/');
        assert(find_from(p, '/', 0) == 0);
        assert(p.subrange(0, 0) =~= nothing);
        assert(p.subrange(1, p.len() as int) =~= between(names));
        let parts = split_at_each(p, '/');
        assert(parts =~= seq![nothing] + names);
        walk_plain(names, names.len());
        assert(names.take(names.len() as int) =~= names);
    }
}

proof fn no_backslash(names: Seq<Seq<char>>)
    requires
        all_plain(names),
    ensures
        forall|i: int| 0 <= i < slash_each(names).len() ==> #[trigger] slash_each(names)[i] != '\\',
    decreases names.len(),
{
    reveal_strlit("/");
    if names.len() > 0 {
        let head = names.drop_last();
        assert forall|k: int| 0 <= k < head.len() implies is_plain(#[trigger] head[k]) by {
            assert(is_plain(names[k]));
        }
        no_backslash(head);
        assert(is_plain(names[names.len() - 1]));
        let (a, b) = (slash_each(head), names.last());
        let all = slash_each(names);
        assert(all == a + "/"@ + b);
        assert forall|i: int| 0 <= i < all.len() implies #[trigger] all[i] != '\\' by {
            if i < a.len() {
                assert(all[i] == a[i]);
            } else if i == a.len() {
                assert(all[i] == '/');
            } else {
                assert(all[i] == b[i - a.len() - 1]);
                assert(names[names.len() - 1][i - a.len() - 1] != '/');
            }
        }
    }
}

} // verus!

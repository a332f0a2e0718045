//! What holds of the command line, whatever it says.
use vstd::prelude::*;
use vstd::utf8::encode_utf8;
use crate::data::char_laws::{decimals_read_back, end_taken_off, lacks};
use crate::data::chars::{find_bounds, find_from, is_white, trimmed, written};
use crate::engine::heap::requests_keep_blocks_apart;
use crate::engine::runtime::Machine;
use crate::engine::runtime_laws::texts_are_read_where_they_were_put;
use crate::engine::world::text_in;
use crate::xrt::mem::Space;
use super::args::{
    kind_of, nothing_said, origin_of, parse_from, with_value, Kind, Origin, Valued, Wish,
};
use super::program::{input_of, plan_of, Planned, Taken};
use super::session::text_put;
use super::text::{payload_of, request_on, utterance_of, Asked};

verus! {

/// Arguments are taken in turn: those behind a whole command line say what they
/// say on top of it, and where it is at fault they change nothing.
pub proof fn arguments_are_taken_in_turn(
    argv: Seq<Seq<char>>,
    more: Seq<Seq<char>>,
    k: int,
    w: Wish,
)
    requires
        0 <= k <= argv.len(),
    ensures
        match parse_from(argv, k, w) {
            Ok(x) => parse_from(argv + more, k, w) == parse_from(
                argv + more,
                argv.len() as int,
                x,
            ),
            Err(e) => more.len() == 0 ==> parse_from(argv + more, k, w) is Err,
        },
    decreases argv.len() - k,
{
    let all = argv + more;
    if more.len() == 0 {
        assert(all =~= argv);
    }
    if k < argv.len() {
        assert(all[k] == argv[k]);
        match kind_of(argv[k]) {
            Kind::Valued(v) => {
                if k + 1 < argv.len() {
                    assert(all[k + 1] == argv[k + 1]);
                    if let Ok(x) = with_value(w, v, argv[k + 1]) {
                        arguments_are_taken_in_turn(argv, more, k + 2, x);
                    }
                }
            },
            Kind::Raw => arguments_are_taken_in_turn(argv, more, k + 1, Wish { raw: true, ..w }),
            Kind::Serve => arguments_are_taken_in_turn(argv, more, k + 1, Wish { serve: true, ..w }),
            Kind::Quiet => arguments_are_taken_in_turn(argv, more, k + 1, Wish { quiet: true, ..w }),
            Kind::Text => arguments_are_taken_in_turn(
                argv,
                more,
                k + 1,
                Wish { text: Some(argv[k]), ..w },
            ),
            Kind::Unknown => {},
        }
    }
}

proof fn known_options()
    ensures
        kind_of("-o"@) == Kind::Valued(Valued::Out),
        kind_of("--out"@) == Kind::Valued(Valued::Out),
        kind_of("-f"@) == Kind::Valued(Valued::File),
        kind_of("--file"@) == Kind::Valued(Valued::File),
        kind_of("--voice"@) == Kind::Valued(Valued::Voice),
        kind_of("--rate"@) == Kind::Valued(Valued::Rate),
        kind_of("--lib"@) == Kind::Valued(Valued::Lib),
        kind_of("--data"@) == Kind::Valued(Valued::Data),
        kind_of("--raw"@) == Kind::Raw,
        kind_of("--serve"@) == Kind::Serve,
        kind_of("-q"@) == Kind::Quiet,
        kind_of("--quiet"@) == Kind::Quiet,
{
    reveal_strlit("-o");
    reveal_strlit("--out");
    reveal_strlit("-f");
    reveal_strlit("--file");
    reveal_strlit("--voice");
    reveal_strlit("--rate");
    reveal_strlit("--lib");
    reveal_strlit("--data");
    reveal_strlit("--raw");
    reveal_strlit("--serve");
    reveal_strlit("-q");
    reveal_strlit("--quiet");
    assert("-o"@[1] == 'o' && "-f"@[1] == 'f' && "-q"@[1] == 'q');
    assert("--out"@[2] == 'o' && "--lib"@[2] == 'l');
    assert("--raw"@[2] == 'r' && "--rate"@[2] == 'r');
    assert("--raw"@.len() == 5 && "--lib"@.len() == 5 && "--out"@.len() == 5);
    assert("--raw"@ != "--lib"@);
    assert("--raw"@ != "--out"@);
    assert("--raw"@ != "-o"@ && "--raw"@ != "-f"@ && "--raw"@ != "--file"@);
    assert("--raw"@ != "--voice"@ && "--raw"@ != "--rate"@ && "--raw"@ != "--data"@);
    assert(kind_of("--raw"@) == Kind::Raw);
    assert("--file"@[2] == 'f' && "--data"@[2] == 'd');
    assert("--voice"@[2] == 'v' && "--serve"@[2] == 's' && "--quiet"@[2] == 'q');
}

proof fn value_added(
    argv: Seq<Seq<char>>,
    w: Wish,
    x: Wish,
    name: Seq<char>,
    v: Valued,
    s: Seq<char>,
    y: Wish,
)
    requires
        parse_from(argv, 0, w) == Ok::<Wish, Seq<char>>(x),
        kind_of(name) == Kind::Valued(v),
        with_value(x, v, s) == Ok::<Wish, Seq<char>>(y),
    ensures
        parse_from(argv + seq![name, s], 0, w) == Ok::<Wish, Seq<char>>(y),
{
    let all = argv + seq![name, s];
    let n = argv.len() as int;
    arguments_are_taken_in_turn(argv, seq![name, s], 0, w);
    assert(all[n] == name && all[n + 1] == s && all.len() == n + 2);
    assert(parse_from(all, n + 2, y) == Ok::<Wish, Seq<char>>(y));
}

proof fn nothing_left(all: Seq<Seq<char>>, y: Wish)
    ensures
        parse_from(all, all.len() as int, y) == Ok::<Wish, Seq<char>>(y),
{
}

proof fn one_added(argv: Seq<Seq<char>>, w: Wish, x: Wish, s: Seq<char>)
    requires
        parse_from(argv, 0, w) == Ok::<Wish, Seq<char>>(x),
    ensures
        ({
            let r = parse_from(argv + seq![s], 0, w);
            match kind_of(s) {
                Kind::Raw => r == Ok::<Wish, Seq<char>>(Wish { raw: true, ..x }),
                Kind::Serve => r == Ok::<Wish, Seq<char>>(Wish { serve: true, ..x }),
                Kind::Quiet => r == Ok::<Wish, Seq<char>>(Wish { quiet: true, ..x }),
                Kind::Text => r == Ok::<Wish, Seq<char>>(Wish { text: Some(s), ..x }),
                _ => r is Err,
            }
        }),
{
    let all = argv + seq![s];
    let n = argv.len() as int;
    arguments_are_taken_in_turn(argv, seq![s], 0, w);
    assert(all[n] == s && all.len() == n + 1);
    nothing_left(all, Wish { raw: true, ..x });
    nothing_left(all, Wish { serve: true, ..x });
    nothing_left(all, Wish { quiet: true, ..x });
    nothing_left(all, Wish { text: Some(s), ..x });
}

/// An option at the end sets what it is for to its value, whatever was said of
/// that before, and nothing else.
pub proof fn last_values_win(argv: Seq<Seq<char>>, w: Wish, x: Wish, s: Seq<char>, n: u32)
    requires
        parse_from(argv, 0, w) == Ok::<Wish, Seq<char>>(x),
    ensures
        parse_from(argv + seq!["--out"@, s], 0, w) == Ok::<Wish, Seq<char>>(Wish { out: s, ..x }),
        parse_from(argv + seq!["-o"@, s], 0, w) == Ok::<Wish, Seq<char>>(Wish { out: s, ..x }),
        parse_from(argv + seq!["--file"@, s], 0, w) == Ok::<Wish, Seq<char>>(
            Wish { file: Some(s), ..x },
        ),
        parse_from(argv + seq!["-f"@, s], 0, w) == Ok::<Wish, Seq<char>>(
            Wish { file: Some(s), ..x },
        ),
        parse_from(argv + seq!["--voice"@, s], 0, w) == Ok::<Wish, Seq<char>>(
            Wish { voice: s, ..x },
        ),
        parse_from(argv + seq!["--lib"@, s], 0, w) == Ok::<Wish, Seq<char>>(
            Wish { lib: Some(s), ..x },
        ),
        parse_from(argv + seq!["--data"@, s], 0, w) == Ok::<Wish, Seq<char>>(
            Wish { data: Some(s), ..x },
        ),
        parse_from(argv + seq!["--rate"@, written(n as nat, 10)], 0, w) == Ok::<Wish, Seq<char>>(
            Wish { rate: n, ..x },
        ),
{
    known_options();
    decimals_read_back(n as nat, u32::MAX as int);
    value_added(argv, w, x, "--out"@, Valued::Out, s, Wish { out: s, ..x });
    value_added(argv, w, x, "-o"@, Valued::Out, s, Wish { out: s, ..x });
    value_added(argv, w, x, "--file"@, Valued::File, s, Wish { file: Some(s), ..x });
    value_added(argv, w, x, "-f"@, Valued::File, s, Wish { file: Some(s), ..x });
    value_added(argv, w, x, "--voice"@, Valued::Voice, s, Wish { voice: s, ..x });
    value_added(argv, w, x, "--lib"@, Valued::Lib, s, Wish { lib: Some(s), ..x });
    value_added(argv, w, x, "--data"@, Valued::Data, s, Wish { data: Some(s), ..x });
    value_added(argv, w, x, "--rate"@, Valued::Rate, written(n as nat, 10), Wish { rate: n, ..x });
}

/// A switch at the end is on, and text at the end is what is said; an option that
/// lacks its value, and one that nobody knows, are at fault.
pub proof fn switches_turn_on(argv: Seq<Seq<char>>, w: Wish, x: Wish, s: Seq<char>)
    requires
        parse_from(argv, 0, w) == Ok::<Wish, Seq<char>>(x),
    ensures
        parse_from(argv + seq!["--raw"@], 0, w) == Ok::<Wish, Seq<char>>(Wish { raw: true, ..x }),
        parse_from(argv + seq!["--serve"@], 0, w) == Ok::<Wish, Seq<char>>(
            Wish { serve: true, ..x },
        ),
        parse_from(argv + seq!["-q"@], 0, w) == Ok::<Wish, Seq<char>>(Wish { quiet: true, ..x }),
        parse_from(argv + seq!["--quiet"@], 0, w) == Ok::<Wish, Seq<char>>(
            Wish { quiet: true, ..x },
        ),
        s.len() == 0 || s[0] != '-' || s.len() == 1 ==> parse_from(argv + seq![s], 0, w) == Ok::<
            Wish,
            Seq<char>,
        >(Wish { text: Some(s), ..x }),
        kind_of(s) is Valued ==> parse_from(argv + seq![s], 0, w) is Err,
        kind_of(s) is Unknown ==> parse_from(argv + seq![s], 0, w) is Err,
{
    known_options();
    one_added(argv, w, x, "--raw"@);
    one_added(argv, w, x, "--serve"@);
    one_added(argv, w, x, "-q"@);
    one_added(argv, w, x, "--quiet"@);
    one_added(argv, w, x, s);
    if s.len() == 0 || s[0] != '-' || s.len() == 1 {
        reveal_strlit("-o");
        reveal_strlit("--out");
        reveal_strlit("-f");
        reveal_strlit("--file");
        reveal_strlit("--voice");
        reveal_strlit("--rate");
        reveal_strlit("--lib");
        reveal_strlit("--data");
        reveal_strlit("--raw");
        reveal_strlit("--serve");
        reveal_strlit("-q");
        reveal_strlit("--quiet");
        assert(kind_of(s) is Text);
    }
}

/// Voices come from disk exactly where both directories are named, and from the
/// program exactly where neither is and it carries them.
pub proof fn directories_go_together(w: Wish, present: bool)
    ensures
        origin_of(w, present) is Ok <==> (w.lib is Some && w.data is Some) || (w.lib is None
            && w.data is None && present),
        w.lib is Some && w.data is Some ==> origin_of(w, present) == Ok::<Origin, Seq<char>>(
            Origin::Disk(w.lib->Some_0, w.data->Some_0),
        ),
        w.lib is None && w.data is None && present ==> origin_of(w, present) == Ok::<
            Origin,
            Seq<char>,
        >(Origin::BuiltIn),
{
}

/// A request's path stands before the first tab of its line, without the white
/// space around it, and its text is all that follows.
pub proof fn requests_are_split_at_the_first_tab(path: Seq<char>, text: Seq<char>)
    requires
        lacks(path, '\t'),
        trimmed(path + seq!['\t'] + text).len() > 0,
    ensures
        request_on(path + seq!['\t'] + text) == Asked::Say(trimmed(path), text),
        trimmed(path).len() > 0 ==> request_on(path) == Asked::NoTab,
        trimmed(path).len() == 0 ==> request_on(path) == Asked::Blank,
{
    let s = path + seq!['\t'] + text;
    find_bounds(s, '\t', 0);
    find_bounds(path, '\t', 0);
    let n = find_from(s, '\t', 0);
    assert(s[path.len() as int] == '\t');
    if n < path.len() {
        assert(s[n] == path[n]);
    }
    assert(s.subrange(0, n) =~= path);
    assert(s.subrange(n + 1, s.len() as int) =~= text);
}

/// A text that ends a sentence, with or without white space behind it, is given
/// as it is; any other gets a full stop.
pub proof fn only_open_sentences_get_a_full_stop(s: Seq<char>, c: char, tail: Seq<char>)
    requires
        forall|i: int| 0 <= i < tail.len() ==> is_white(#[trigger] tail[i]),
        !is_white(c),
    ensures
        c == '.' || c == '!' || c == '?' || c == ';' || c == ':' ==> utterance_of(s.push(c) + tail)
            == s.push(c) + tail,
        !(c == '.' || c == '!' || c == '?' || c == ';' || c == ':') ==> utterance_of(
            s.push(c) + tail,
        ) == (s.push(c) + tail).push('.'),
{
    let t = s.push(c);
    assert(t.last() == c);
    end_taken_off(t, tail);
}

/// Text comes from the file where one is named, from standard input where that is
/// a dash, and else from the arguments.
pub proof fn named_files_come_first(w: Wish, p: Seq<char>, t: Seq<char>)
    ensures
        w.file == Some(p) && p != seq!['-'] ==> input_of(w) == Taken::File(p),
        w.file == Some(seq!['-']) ==> input_of(w) == Taken::Stdin,
        w.file is None && w.text == Some(t) ==> input_of(w) == Taken::Given(trimmed(t)),
{
    reveal_strlit("-");
    assert("-"@ =~= seq!['-']);
}

/// Raw audio is written as it is. Otherwise a header stands before it, unless it
/// is too long for one.
pub proof fn payloads_end_with_the_samples(pcm: Seq<u8>, rate: u32)
    requires
        rate * 2 <= u32::MAX,
    ensures
        payload_of(pcm, true, rate) == Some(pcm),
        payload_of(pcm, false, rate) is Some <==> pcm.len() <= u32::MAX - 36,
        payload_of(pcm, false, rate) matches Some(f) ==> f.len() == 44 + pcm.len() && f.skip(44)
            == pcm,
{
    if pcm.len() + 36 <= u32::MAX {
        crate::wav::samples_follow_the_header(pcm, rate);
        let f = crate::wav::header(pcm.len() as u32, rate) + pcm;
        assert(f.skip(44) =~= f.subrange(44, 44 + pcm.len() as int));
    }
}

/// A plan tells what was asked for: requests are answered where that was said,
/// and otherwise one text is spoken.
pub proof fn plans_follow_the_wish(argv: Seq<Seq<char>>, present: bool, w: Wish, o: Origin)
    requires
        !argv.contains("-h"@),
        !argv.contains("--help"@),
        !argv.contains("--version"@),
        parse_from(argv, 0, nothing_said()) == Ok::<Wish, Seq<char>>(w),
        origin_of(w, present) == Ok::<Origin, Seq<char>>(o),
    ensures
        w.serve ==> plan_of(argv, present) == Planned::Serve(w, o),
        !w.serve ==> plan_of(argv, present) == Planned::Speak(w, o, input_of(w)),
{
}

/// A text that is put in memory for a call is read there as it was, in a block of
/// its own.
pub proof fn put_texts_are_read(rt: Machine, m: Space, s: Seq<char>)
    requires
        rt.wf(),
        forall|i: int| 0 <= i < encode_utf8(s).len() ==> #[trigger] encode_utf8(s)[i] != 0,
    ensures
        text_put(rt, m, s) matches Some((r, w, a)) ==> text_in(w, a) == Some(s)
            && !rt.heap.live.dom().contains(a) && r.heap.size(a) > encode_utf8(s).len() && r == (
        Machine { heap: r.heap, ..rt }),
{
    if let Some((r, w, a)) = text_put(rt, m, s) {
        let n = (encode_utf8(s).len() + 1) as u32;
        requests_keep_blocks_apart(rt.heap, n);
        assert(r.heap.live.dom().contains(a));
        assert(crate::engine::heap::block_inside(a, r.heap.live[a], r.heap.next));
        texts_are_read_where_they_were_put(m, a, s);
    }
}

} // verus!

//! What the program does: from its arguments to a plan, from a plan to a text,
//! and from audio to what is written and said of it.
use vstd::prelude::*;
use crate::data::chars::{lines, push_decimal, push_str, text_of, trimmed, written};
use crate::data::sde::strings;
use crate::engine::runtime::same;
use super::args::{
    mode, nothing_said, origin_of, parse, parse_from, said, source, Args, Mode, Origin, Source,
    Wish,
};
use super::text::{
    asked, bare, latin1_text, payload, payload_of, requests, requests_on, said_by, Asked, Request,
};

verus! {

/// Where the text comes from.
#[derive(Debug, Clone, PartialEq, Eq)]
pub enum Input {
    /// It was given as an argument.
    Given(String),
    /// Standard input.
    Stdin,
    /// A file.
    File(String),
}

/// Where the text comes from, as mathematics.
pub enum Taken {
    /// It was given as an argument.
    Given(Seq<char>),
    /// Standard input.
    Stdin,
    /// A file.
    File(Seq<char>),
}

impl View for Input {
    type V = Taken;

    open spec fn view(&self) -> Taken {
        match *self {
            Input::Given(s) => Taken::Given(s@),
            Input::Stdin => Taken::Stdin,
            Input::File(p) => Taken::File(p@),
        }
    }
}

/// What the program is to do.
#[derive(Debug, Clone)]
pub enum Plan {
    /// Tell how it is used.
    Help,
    /// Tell what it is.
    Version,
    /// Fail, and say why.
    Fail(String),
    /// Answer requests.
    Serve(Args, Source),
    /// Speak one text.
    Speak(Args, Source, Input),
}

/// What the program is to do, as mathematics.
pub enum Planned {
    /// Tell how it is used.
    Help,
    /// Tell what it is.
    Version,
    /// Fail, and say why.
    Fail(Seq<char>),
    /// Answer requests.
    Serve(Wish, Origin),
    /// Speak one text.
    Speak(Wish, Origin, Taken),
}

impl View for Plan {
    type V = Planned;

    open spec fn view(&self) -> Planned {
        match *self {
            Plan::Help => Planned::Help,
            Plan::Version => Planned::Version,
            Plan::Fail(e) => Planned::Fail(e@),
            Plan::Serve(a, s) => Planned::Serve(a@, s@),
            Plan::Speak(a, s, i) => Planned::Speak(a@, s@, i@),
        }
    }
}

/// Where the text comes from: the file where one was named, a dash for standard
/// input, and else the argument without the white space around it.
pub open spec fn input_of(w: Wish) -> Taken {
    match w.file {
        Some(p) => if p == "-"@ {
            Taken::Stdin
        } else {
            Taken::File(p)
        },
        None => Taken::Given(
            match w.text {
                Some(t) => trimmed(t),
                None => trimmed(Seq::empty()),
            },
        ),
    }
}

fn find_input(a: &Args) -> (r: Input)
    ensures
        r@ == input_of(a@),
{
    match &a.file {
        Some(p) => if same(p.as_str(), "-") {
            Input::Stdin
        } else {
            Input::File(p.clone())
        },
        None => match &a.text {
            Some(t) => Input::Given(bare(t.as_str())),
            None => {
                let none: String = String::new();
                Input::Given(bare(none.as_str()))
            },
        },
    }
}

/// What the program is to do: help before all else, then the version; then the
/// arguments have to make sense, and there has to be a voice.
pub open spec fn plan_of(argv: Seq<Seq<char>>, present: bool) -> Planned {
    if said(argv, "-h"@) || said(argv, "--help"@) {
        Planned::Help
    } else if said(argv, "--version"@) {
        Planned::Version
    } else {
        match parse_from(argv, 0, nothing_said()) {
            Err(e) => Planned::Fail(e),
            Ok(w) => match origin_of(w, present) {
                Err(e) => Planned::Fail(e),
                Ok(o) => if w.serve {
                    Planned::Serve(w, o)
                } else {
                    Planned::Speak(w, o, input_of(w))
                },
            },
        }
    }
}

/// Makes a plan of arguments. `present` says whether the program carries voices.
pub fn plan(argv: &Vec<String>, present: bool) -> (r: Plan)
    ensures
        r@ == plan_of(strings(argv@), present),
{
    match mode(argv) {
        Mode::Help => {
            return Plan::Help;
        },
        Mode::Version => {
            return Plan::Version;
        },
        Mode::Speak => {},
    }
    let a: Args = match parse(argv) {
        Ok(a) => a,
        Err(e) => {
            return Plan::Fail(e);
        },
    };
    let src: Source = match source(&a, present) {
        Ok(s) => s,
        Err(e) => {
            return Plan::Fail(e);
        },
    };
    if a.serve {
        Plan::Serve(a, src)
    } else {
        let input: Input = find_input(&a);
        Plan::Speak(a, src, input)
    }
}

/// Help and the version need no voice, and say nothing of the other arguments.
pub proof fn help_needs_no_voice(argv: Seq<Seq<char>>, present: bool)
    requires
        argv.contains("-h"@) || argv.contains("--help"@) || argv.contains("--version"@),
    ensures
        plan_of(argv, present) == plan_of(argv, !present),
        plan_of(argv, present) is Help || plan_of(argv, present) is Version,
{
}

/// A plan to speak or to serve names two directories or none, and none only
/// where the program carries voices.
pub proof fn voices_come_from_somewhere(argv: Seq<Seq<char>>, present: bool)
    ensures
        match plan_of(argv, present) {
            Planned::Speak(w, o, _) => (o is BuiltIn ==> present) && (o is BuiltIn <==> w.lib is None)
                && (w.lib is None <==> w.data is None),
            Planned::Serve(w, o) => (o is BuiltIn ==> present) && (o is BuiltIn <==> w.lib is None)
                && (w.lib is None <==> w.data is None),
            _ => true,
        },
{
}

/// The text of an input, given what was read of it.
pub open spec fn text_in(input: Taken, raw: Seq<u8>) -> Seq<char> {
    match input {
        Taken::Given(t) => t,
        _ => trimmed(said_by(raw)),
    }
}

/// Finds the text to speak, given what was read of the input. It fails where
/// there is none.
pub fn to_speak(input: &Input, raw: &[u8]) -> (r: Result<String, String>)
    ensures
        match r {
            Ok(t) => t@ == text_in(input@, raw@) && trimmed(t@).len() > 0,
            Err(e) => trimmed(text_in(input@, raw@)).len() == 0 && e@
                == "no text to speak (try --help)"@,
        },
{
    let t: String = match input {
        Input::Given(t) => t.clone(),
        _ => bare(latin1_text(raw).as_str()),
    };
    let b: String = bare(t.as_str());
    if crate::data::chars::chars_of(b.as_str()).len() == 0 {
        Err("no text to speak (try --help)".to_owned())
    } else {
        Ok(t)
    }
}

/// Whether a path is the program's own standard stream.
pub fn is_console(path: &str) -> (r: bool)
    ensures
        r == (path@ == "-"@),
{
    same(path, "-")
}

/// What comes of audio.
#[derive(Debug, Clone, PartialEq, Eq)]
pub enum Outcome {
    /// There is none.
    Silent,
    /// There is more than a file can hold.
    TooLong,
    /// What is written.
    Bytes(Vec<u8>),
}

/// Says what comes of audio.
pub fn outcome(pcm: &[u8], raw: bool, rate: u32) -> (r: Outcome)
    ensures
        match r {
            Outcome::Silent => pcm@.len() == 0,
            Outcome::TooLong => pcm@.len() > 0 && payload_of(pcm@, raw, rate) is None,
            Outcome::Bytes(v) => pcm@.len() > 0 && payload_of(pcm@, raw, rate) == Some(v@),
        },
{
    if pcm.len() == 0 {
        return Outcome::Silent;
    }
    match payload(pcm, raw, rate) {
        Some(v) => Outcome::Bytes(v),
        None => Outcome::TooLong,
    }
}

/// Whether a request asks for anything.
pub open spec fn asks(r: Asked) -> bool {
    !(r is Blank)
}

/// The requests in what was read, those that say nothing left out.
pub open spec fn requests_in(raw: Seq<u8>) -> Seq<Asked> {
    requests_on(lines(said_by(raw))).filter(|r: Asked| asks(r))
}

/// Reads the requests, one to a line, and leaves out lines that say nothing.
pub fn read_requests(raw: &[u8]) -> (r: Vec<Request>)
    ensures
        asked(r@) == requests_in(raw@),
{
    let text: String = latin1_text(raw);
    let all: Vec<Request> = requests(text.as_str());
    let ghost want = asked(all@);
    let mut out: Vec<Request> = Vec::new();
    let mut i: usize = 0;
    while i < all.len()
        invariant
            i <= all@.len(),
            asked(all@) == want,
            asked(out@) == want.take(i as int).filter(|r: Asked| asks(r)),
        decreases all@.len() - i,
    {
        let ghost before = asked(out@);
        let ghost f = |r: Asked| asks(r);
        assert(want[i as int] == all@[i as int]@);
        proof {
            assert(want.take(i + 1).drop_last() =~= want.take(i as int));
            assert(want.take(i + 1).last() == want[i as int]);
            reveal(Seq::filter);
        }
        match &all[i] {
            Request::Blank => {},
            Request::NoTab => {
                out.push(Request::NoTab);
                assert(asked(out@) =~= before.push(Asked::NoTab));
            },
            Request::Say { path, text } => {
                let r: Request = Request::Say { path: path.clone(), text: text.clone() };
                out.push(r);
                assert(asked(out@) =~= before.push(want[i as int]));
            },
        }
        i = i + 1;
    }
    assert(want.take(all@.len() as int) =~= want);
    out
}

/// What is answered to a request: where the audio went, how many samples it has
/// and how long it took, or what went wrong.
pub open spec fn answer_to(path: Seq<char>, got: Result<nat, Seq<char>>, secs: Seq<char>) -> Seq<
    char,
> {
    match got {
        Ok(n) => "ok "@ + path + " "@ + written(n, 10) + " "@ + secs,
        Err(e) => "error "@ + e,
    }
}

/// Writes what is answered to a request.
pub fn answer(path: &str, got: &Result<usize, String>, secs: &str) -> (r: String)
    ensures
        r@ == answer_to(
            path@,
            match *got {
                Ok(n) => Ok(n as nat),
                Err(e) => Err(e@),
            },
            secs@,
        ),
{
    let mut out: Vec<char> = Vec::new();
    match got {
        Ok(n) => {
            push_str(&mut out, "ok ");
            push_str(&mut out, path);
            push_str(&mut out, " ");
            push_decimal(&mut out, *n as u64);
            push_str(&mut out, " ");
            push_str(&mut out, secs);
            assert(out@ =~= "ok "@ + path@ + " "@ + written(*n as nat, 10) + " "@ + secs@);
        },
        Err(e) => {
            push_str(&mut out, "error ");
            push_str(&mut out, e.as_str());
            assert(out@ =~= "error "@ + e@);
        },
    }
    text_of(out.as_slice())
}

} // verus!

//! Options.
use vstd::prelude::*;
use crate::data::chars::{chars_of, parse_unsigned, unsigned};
use crate::data::error::quoted;
use crate::data::sde::strings;
use crate::engine::runtime::same;

verus! {

/// What was asked for.
#[derive(Debug, Clone)]
pub struct Args {
    /// The text.
    pub text: Option<String>,
    /// A file with the text.
    pub file: Option<String>,
    /// Where the audio goes.
    pub out: String,
    /// Whether it is written without a header.
    pub raw: bool,
    /// The voice.
    pub voice: String,
    /// The sample rate.
    pub rate: u32,
    /// Whether requests are served.
    pub serve: bool,
    /// Where the modules are.
    pub lib: Option<String>,
    /// Where the voices are.
    pub data: Option<String>,
    /// Whether only errors are told.
    pub quiet: bool,
}

/// What was asked for, as mathematics.
pub struct Wish {
    /// The text.
    pub text: Option<Seq<char>>,
    /// A file with the text.
    pub file: Option<Seq<char>>,
    /// Where the audio goes.
    pub out: Seq<char>,
    /// Whether it is written without a header.
    pub raw: bool,
    /// The voice.
    pub voice: Seq<char>,
    /// The sample rate.
    pub rate: u32,
    /// Whether requests are served.
    pub serve: bool,
    /// Where the modules are.
    pub lib: Option<Seq<char>>,
    /// Where the voices are.
    pub data: Option<Seq<char>>,
    /// Whether only errors are told.
    pub quiet: bool,
}

/// A text that may be none, as mathematics.
pub open spec fn maybe(s: Option<String>) -> Option<Seq<char>> {
    match s {
        Some(s) => Some(s@),
        None => None,
    }
}

impl View for Args {
    type V = Wish;

    open spec fn view(&self) -> Wish {
        Wish {
            text: maybe(self.text),
            file: maybe(self.file),
            out: self.out@,
            raw: self.raw,
            voice: self.voice@,
            rate: self.rate,
            serve: self.serve,
            lib: maybe(self.lib),
            data: maybe(self.data),
            quiet: self.quiet,
        }
    }
}

/// What is asked for where nothing is said.
pub open spec fn nothing_said() -> Wish {
    Wish {
        text: None,
        file: None,
        out: "speech.wav"@,
        raw: false,
        voice: "Dave"@,
        rate: 16000,
        serve: false,
        lib: None,
        data: None,
        quiet: false,
    }
}

/// An option that takes a value.
#[derive(Debug, Clone, Copy, PartialEq, Eq, Structural)]
pub enum Valued {
    /// Where the audio goes.
    Out,
    /// A file with the text.
    File,
    /// The voice.
    Voice,
    /// The sample rate.
    Rate,
    /// Where the modules are.
    Lib,
    /// Where the voices are.
    Data,
}

/// What an argument is.
#[derive(Debug, Clone, Copy, PartialEq, Eq, Structural)]
pub enum Kind {
    /// An option that takes a value.
    Valued(Valued),
    /// Audio without a header.
    Raw,
    /// Serving.
    Serve,
    /// Only errors.
    Quiet,
    /// An option that is not known.
    Unknown,
    /// The text.
    Text,
}

/// What an argument is.
pub open spec fn kind_of(a: Seq<char>) -> Kind {
    if a == "-o"@ || a == "--out"@ {
        Kind::Valued(Valued::Out)
    } else if a == "-f"@ || a == "--file"@ {
        Kind::Valued(Valued::File)
    } else if a == "--voice"@ {
        Kind::Valued(Valued::Voice)
    } else if a == "--rate"@ {
        Kind::Valued(Valued::Rate)
    } else if a == "--lib"@ {
        Kind::Valued(Valued::Lib)
    } else if a == "--data"@ {
        Kind::Valued(Valued::Data)
    } else if a == "--raw"@ {
        Kind::Raw
    } else if a == "--serve"@ {
        Kind::Serve
    } else if a == "-q"@ || a == "--quiet"@ {
        Kind::Quiet
    } else if a.len() > 1 && a[0] == '-' {
        Kind::Unknown
    } else {
        Kind::Text
    }
}

/// Says what an argument is.
fn classify(a: &str) -> (r: Kind)
    ensures
        r == kind_of(a@),
{
    if same(a, "-o") || same(a, "--out") {
        return Kind::Valued(Valued::Out);
    }
    if same(a, "-f") || same(a, "--file") {
        return Kind::Valued(Valued::File);
    }
    if same(a, "--voice") {
        return Kind::Valued(Valued::Voice);
    }
    if same(a, "--rate") {
        return Kind::Valued(Valued::Rate);
    }
    if same(a, "--lib") {
        return Kind::Valued(Valued::Lib);
    }
    if same(a, "--data") {
        return Kind::Valued(Valued::Data);
    }
    if same(a, "--raw") {
        return Kind::Raw;
    }
    if same(a, "--serve") {
        return Kind::Serve;
    }
    if same(a, "-q") || same(a, "--quiet") {
        return Kind::Quiet;
    }
    let cs: Vec<char> = chars_of(a);
    if cs.len() > 1 && cs[0] == '-' {
        Kind::Unknown
    } else {
        Kind::Text
    }
}

/// How an option that takes a value is spelled out.
pub open spec fn long_name(v: Valued) -> Seq<char> {
    match v {
        Valued::Out => "--out"@,
        Valued::File => "--file"@,
        Valued::Voice => "--voice"@,
        Valued::Rate => "--rate"@,
        Valued::Lib => "--lib"@,
        Valued::Data => "--data"@,
    }
}

/// What is asked for with an option's value.
pub open spec fn with_value(w: Wish, v: Valued, s: Seq<char>) -> Result<Wish, Seq<char>> {
    match v {
        Valued::Out => Ok(Wish { out: s, ..w }),
        Valued::File => Ok(Wish { file: Some(s), ..w }),
        Valued::Voice => Ok(Wish { voice: s, ..w }),
        Valued::Rate => match unsigned(s, u32::MAX as int) {
            Some(n) => Ok(Wish { rate: n as u32, ..w }),
            None => Err("--rate "@ + s + ": not a number"@),
        },
        Valued::Lib => Ok(Wish { lib: Some(s), ..w }),
        Valued::Data => Ok(Wish { data: Some(s), ..w }),
    }
}

/// What the arguments from `k` on ask for, or what is wrong with them.
pub open spec fn parse_from(argv: Seq<Seq<char>>, k: int, w: Wish) -> Result<Wish, Seq<char>>
    decreases argv.len() - k,
{
    if k < 0 || k >= argv.len() {
        Ok(w)
    } else {
        match kind_of(argv[k]) {
            Kind::Valued(v) => if k + 1 >= argv.len() {
                Err(long_name(v) + " needs a value"@)
            } else {
                match with_value(w, v, argv[k + 1]) {
                    Ok(x) => parse_from(argv, k + 2, x),
                    Err(e) => Err(e),
                }
            },
            Kind::Raw => parse_from(argv, k + 1, Wish { raw: true, ..w }),
            Kind::Serve => parse_from(argv, k + 1, Wish { serve: true, ..w }),
            Kind::Quiet => parse_from(argv, k + 1, Wish { quiet: true, ..w }),
            Kind::Unknown => Err("unknown option `"@ + argv[k] + "` (try --help)"@),
            Kind::Text => parse_from(argv, k + 1, Wish { text: Some(argv[k]), ..w }),
        }
    }
}

fn name_of(v: Valued) -> (r: &'static str)
    ensures
        r@ == long_name(v),
{
    match v {
        Valued::Out => "--out",
        Valued::File => "--file",
        Valued::Voice => "--voice",
        Valued::Rate => "--rate",
        Valued::Lib => "--lib",
        Valued::Data => "--data",
    }
}

fn set_value(a: Args, v: Valued, s: &str) -> (r: Result<Args, String>)
    ensures
        match (r, with_value(a@, v, s@)) {
            (Ok(x), Ok(want)) => x@ == want,
            (Err(e), Err(want)) => e@ == want,
            _ => false,
        },
{
    let mut b: Args = a;
    match v {
        Valued::Out => {
            b.out = s.to_owned();
        },
        Valued::File => {
            b.file = Some(s.to_owned());
        },
        Valued::Voice => {
            b.voice = s.to_owned();
        },
        Valued::Rate => {
            let cs: Vec<char> = chars_of(s);
            match parse_unsigned(cs.as_slice(), u32::MAX as u64) {
                Some(n) => {
                    b.rate = n as u32;
                },
                None => {
                    return Err(quoted("--rate ", cs.as_slice(), ": not a number"));
                },
            }
        },
        Valued::Lib => {
            b.lib = Some(s.to_owned());
        },
        Valued::Data => {
            b.data = Some(s.to_owned());
        },
    }
    Ok(b)
}

/// Reads arguments.
pub fn parse(argv: &Vec<String>) -> (r: Result<Args, String>)
    ensures
        match (r, parse_from(strings(argv@), 0, nothing_said())) {
            (Ok(a), Ok(want)) => a@ == want,
            (Err(e), Err(want)) => e@ == want,
            _ => false,
        },
{
    let ghost all = strings(argv@);
    let mut a = Args {
        text: None,
        file: None,
        out: "speech.wav".to_owned(),
        raw: false,
        voice: "Dave".to_owned(),
        rate: 16000,
        serve: false,
        lib: None,
        data: None,
        quiet: false,
    };
    let mut k: usize = 0;
    while k < argv.len()
        invariant
            k <= argv@.len(),
            all == strings(argv@),
            parse_from(all, 0, nothing_said()) == parse_from(all, k as int, a@),
        decreases argv@.len() - k,
    {
        assert(all[k as int] == argv@[k as int]@);
        match classify(argv[k].as_str()) {
            Kind::Valued(v) => {
                if k + 1 >= argv.len() {
                    let name: Vec<char> = chars_of(name_of(v));
                    let text: String = quoted("", name.as_slice(), " needs a value");
                    proof {
                        reveal_strlit("");
                        assert(""@ + name@ =~= name@);
                    }
                    return Err(text);
                }
                assert(all[k + 1] == argv@[k + 1]@);
                match set_value(a, v, argv[k + 1].as_str()) {
                    Ok(b) => {
                        a = b;
                    },
                    Err(e) => {
                        return Err(e);
                    },
                }
                k = k + 2;
            },
            Kind::Raw => {
                a.raw = true;
                k = k + 1;
            },
            Kind::Serve => {
                a.serve = true;
                k = k + 1;
            },
            Kind::Quiet => {
                a.quiet = true;
                k = k + 1;
            },
            Kind::Unknown => {
                return Err(
                    quoted(
                        "unknown option `",
                        chars_of(argv[k].as_str()).as_slice(),
                        "` (try --help)",
                    ),
                );
            },
            Kind::Text => {
                a.text = Some(argv[k].clone());
                k = k + 1;
            },
        }
    }
    Ok(a)
}

/// Where the voices come from.
#[derive(Debug, Clone, PartialEq, Eq)]
pub enum Source {
    /// The program carries them.
    BuiltIn,
    /// They are on disk: modules and voices.
    Disk(String, String),
}

/// Where the voices come from, as mathematics.
pub enum Origin {
    /// The program carries them.
    BuiltIn,
    /// They are on disk.
    Disk(Seq<char>, Seq<char>),
}

impl View for Source {
    type V = Origin;

    open spec fn view(&self) -> Origin {
        match *self {
            Source::BuiltIn => Origin::BuiltIn,
            Source::Disk(l, d) => Origin::Disk(l@, d@),
        }
    }
}

/// Where the voices come from: what the program carries unless directories were
/// named, and those only together.
pub open spec fn origin_of(w: Wish, present: bool) -> Result<Origin, Seq<char>> {
    match (w.lib, w.data) {
        (None, None) => if present {
            Ok(Origin::BuiltIn)
        } else {
            Err("this build carries no voice tree; pass --lib <dir> --data <dir>"@)
        },
        (Some(l), Some(d)) => Ok(Origin::Disk(l, d)),
        _ => Err("--lib and --data go together"@),
    }
}

/// Says where the voices come from.
pub fn source(a: &Args, present: bool) -> (r: Result<Source, String>)
    ensures
        match (r, origin_of(a@, present)) {
            (Ok(s), Ok(want)) => s@ == want,
            (Err(e), Err(want)) => e@ == want,
            _ => false,
        },
{
    match (&a.lib, &a.data) {
        (None, None) => if present {
            Ok(Source::BuiltIn)
        } else {
            Err("this build carries no voice tree; pass --lib <dir> --data <dir>".to_owned())
        },
        (Some(l), Some(d)) => Ok(Source::Disk(l.clone(), d.clone())),
        _ => Err("--lib and --data go together".to_owned()),
    }
}

/// What the program is to do.
#[derive(Debug, Clone, Copy, PartialEq, Eq, Structural)]
pub enum Mode {
    /// Tell how it is used.
    Help,
    /// Tell what it is.
    Version,
    /// Speak.
    Speak,
}

/// Whether an argument is among others.
pub open spec fn said(argv: Seq<Seq<char>>, a: Seq<char>) -> bool {
    argv.contains(a)
}

fn is_said(argv: &Vec<String>, a: &str) -> (r: bool)
    ensures
        r == said(strings(argv@), a@),
{
    let mut k: usize = 0;
    while k < argv.len()
        invariant
            k <= argv@.len(),
            forall|i: int| 0 <= i < k ==> #[trigger] strings(argv@)[i] != a@,
        decreases argv@.len() - k,
    {
        assert(strings(argv@)[k as int] == argv@[k as int]@);
        if same(argv[k].as_str(), a) {
            return true;
        }
        k = k + 1;
    }
    false
}

/// Says what the program is to do. Help comes before all else.
pub fn mode(argv: &Vec<String>) -> (r: Mode)
    ensures
        r == if said(strings(argv@), "-h"@) || said(strings(argv@), "--help"@) {
            Mode::Help
        } else if said(strings(argv@), "--version"@) {
            Mode::Version
        } else {
            Mode::Speak
        },
{
    if is_said(argv, "-h") || is_said(argv, "--help") {
        Mode::Help
    } else if is_said(argv, "--version") {
        Mode::Version
    } else {
        Mode::Speak
    }
}

} // verus!

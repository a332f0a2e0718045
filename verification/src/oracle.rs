//! What the engine says of itself: which switches make it talk, what was
//! captured of one sentence, and what a switch brought.
use vstd::prelude::*;
use crate::data::chars::{chars_of, push_str, text_of};
use crate::engine::words::{lossy, lossy_text};

pub mod capture;
pub mod probe;

verus! {

/// A stage of the engine.
#[derive(Debug, Clone, Copy, PartialEq, Eq, Structural)]
pub enum Stage {
    /// Text.
    Top,
    /// Words.
    Les,
    /// Phones.
    Fon,
    /// Units.
    Cat,
    /// Signal.
    Sig,
    /// Audio.
    Acu,
}

/// A stage's name.
pub open spec fn stage_name(s: Stage) -> Seq<char> {
    match s {
        Stage::Top => "top"@,
        Stage::Les => "les"@,
        Stage::Fon => "fon"@,
        Stage::Cat => "cat"@,
        Stage::Sig => "sig"@,
        Stage::Acu => "acu"@,
    }
}

impl Stage {
    /// The stages, in order.
    pub const ALL: [Stage; 6] = [
        Stage::Top,
        Stage::Les,
        Stage::Fon,
        Stage::Cat,
        Stage::Sig,
        Stage::Acu,
    ];

    /// The stage's name.
    pub fn as_str(self) -> (r: &'static str)
        ensures
            r@ == stage_name(self),
    {
        match self {
            Stage::Top => "top",
            Stage::Les => "les",
            Stage::Fon => "fon",
            Stage::Cat => "cat",
            Stage::Sig => "sig",
            Stage::Acu => "acu",
        }
    }
}

/// Where the engine writes its trace.
pub const TRACE_PATH: &'static str = "/loq/trace.txt";

/// The slot of the engine's standard output.
pub const STDOUT_SLOT: &'static str = "<stdout>";

/// Values that may mean yes.
pub const PROBE_VALUES: [&'static str; 9] = ["YES", "yes", "Y", "y", "1", "TRUE", "ON", "t", "s"];

/// The file that a stage's text is kept in.
pub open spec fn stage_file_name(s: Stage) -> Seq<char> {
    "stage-"@ + stage_name(s) + ".txt"@
}

/// The file that a stage's text is kept in.
pub fn stage_file(stage: Stage) -> (r: String)
    ensures
        r@ == stage_file_name(stage),
{
    let mut out: Vec<char> = chars_of("stage-");
    push_str(&mut out, stage.as_str());
    push_str(&mut out, ".txt");
    text_of(out.as_slice())
}

/// The path that a stage's text is written to.
pub fn stage_path(stage: Stage) -> (r: String)
    ensures
        r@ == "/loq/"@ + stage_file_name(stage),
{
    let mut out: Vec<char> = chars_of("/loq/");
    push_str(&mut out, stage_file(stage).as_str());
    text_of(out.as_slice())
}

/// A parameter that makes the engine talk, and the stage it talks of.
#[derive(Debug, Clone, Copy, PartialEq, Eq)]
pub struct Switch {
    /// The parameter.
    pub key: &'static str,
    /// Its value.
    pub value: &'static str,
    /// The stage, where there is one.
    pub stage: Option<Stage>,
}

/// The switches' parameters and stages.
pub open spec fn switch_list() -> Seq<(Seq<char>, Seq<char>, Option<Stage>)> {
    seq![
        ("PlainLesOut"@, "YES"@, Some(Stage::Les)),
        ("PlainFonOut"@, "YES"@, Some(Stage::Fon)),
        ("TraceChunks"@, "YES"@, Some(Stage::Les)),
        ("TraceWordTranscription"@, "YES"@, Some(Stage::Fon)),
        ("TraceSelection"@, "YES"@, Some(Stage::Cat)),
        ("TracePhdAtm"@, "YES"@, None),
    ]
}

/// Switches as mathematics.
pub open spec fn switched(v: Seq<Switch>) -> Seq<(Seq<char>, Seq<char>, Option<Stage>)> {
    v.map_values(|s: Switch| (s.key@, s.value@, s.stage))
}

/// The parameters that make the engine talk.
pub fn trace_switches() -> (r: Vec<Switch>)
    ensures
        switched(r@) == switch_list(),
{
    let mut v: Vec<Switch> = Vec::new();
    v.push(Switch { key: "PlainLesOut", value: "YES", stage: Some(Stage::Les) });
    v.push(Switch { key: "PlainFonOut", value: "YES", stage: Some(Stage::Fon) });
    v.push(Switch { key: "TraceChunks", value: "YES", stage: Some(Stage::Les) });
    v.push(Switch { key: "TraceWordTranscription", value: "YES", stage: Some(Stage::Fon) });
    v.push(Switch { key: "TraceSelection", value: "YES", stage: Some(Stage::Cat) });
    v.push(Switch { key: "TracePhdAtm", value: "YES", stage: None });
    assert(switched(v@) =~= switch_list());
    v
}

/// A parameter and its value.
#[derive(Debug, Clone, PartialEq, Eq)]
pub struct Param {
    /// The parameter.
    pub key: String,
    /// Its value.
    pub value: String,
}

/// Parameters as mathematics.
pub open spec fn params(v: Seq<Param>) -> Seq<(Seq<char>, Seq<char>)> {
    v.map_values(|p: Param| (p.key@, p.value@))
}

/// How the engine is opened.
#[derive(Debug, Clone)]
pub struct OracleConfig {
    /// Where the modules are.
    pub lib_dir: String,
    /// Where the voices are.
    pub data_dir: String,
    /// The voice.
    pub voice: String,
    /// How its bank is coded.
    pub endec: String,
    /// The sample rate.
    pub sample_rate: u32,
    /// Parameters that are set once it is open.
    pub params: Vec<Param>,
    /// The stages whose text is captured.
    pub dump_stages: Vec<Stage>,
    /// Whether the routines that take the most time may be replaced.
    pub native: bool,
}

/// How the engine is opened, as mathematics.
pub struct Setup {
    /// Where the modules are.
    pub lib_dir: Seq<char>,
    /// Where the voices are.
    pub data_dir: Seq<char>,
    /// The voice.
    pub voice: Seq<char>,
    /// How its bank is coded.
    pub endec: Seq<char>,
    /// The sample rate.
    pub sample_rate: u32,
    /// Parameters that are set once it is open.
    pub params: Seq<(Seq<char>, Seq<char>)>,
    /// The stages whose text is captured.
    pub dump_stages: Seq<Stage>,
    /// Whether routines may be replaced.
    pub native: bool,
}

impl View for OracleConfig {
    type V = Setup;

    open spec fn view(&self) -> Setup {
        Setup {
            lib_dir: self.lib_dir@,
            data_dir: self.data_dir@,
            voice: self.voice@,
            endec: self.endec@,
            sample_rate: self.sample_rate,
            params: params(self.params@),
            dump_stages: self.dump_stages@,
            native: self.native,
        }
    }
}

/// All switches as parameters.
pub open spec fn switch_params(n: nat) -> Seq<(Seq<char>, Seq<char>)> {
    Seq::new(n, |i: int| (switch_list()[i].0, switch_list()[i].1))
}

impl OracleConfig {
    /// The engine as it is opened where nothing else is said.
    pub fn new(lib_dir: &str, data_dir: &str) -> (r: Self)
        ensures
            r@ == (Setup {
                lib_dir: lib_dir@,
                data_dir: data_dir@,
                voice: "Dave"@,
                endec: "loqmsx"@,
                sample_rate: 16000,
                params: Seq::empty(),
                dump_stages: Seq::empty(),
                native: true,
            }),
    {
        let r = OracleConfig {
            lib_dir: lib_dir.to_owned(),
            data_dir: data_dir.to_owned(),
            voice: "Dave".to_owned(),
            endec: "loqmsx".to_owned(),
            sample_rate: 16000,
            params: Vec::new(),
            dump_stages: Vec::new(),
            native: true,
        };
        assert(params(r.params@) =~= Seq::empty());
        r
    }

    /// With no routine replaced.
    pub fn interpreted(self) -> (r: Self)
        ensures
            r@ == (Setup { native: false, ..self@ }),
    {
        let mut r: OracleConfig = self;
        r.native = false;
        r
    }

    /// With the text of every stage.
    pub fn with_all_stage_dumps(self) -> (r: Self)
        ensures
            r@ == (Setup {
                dump_stages: seq![
                    Stage::Top,
                    Stage::Les,
                    Stage::Fon,
                    Stage::Cat,
                    Stage::Sig,
                    Stage::Acu,
                ],
                ..self@
            }),
    {
        let mut r: OracleConfig = self;
        r.dump_stages = vec![
            Stage::Top,
            Stage::Les,
            Stage::Fon,
            Stage::Cat,
            Stage::Sig,
            Stage::Acu,
        ];
        assert(r.dump_stages@ =~= seq![
            Stage::Top,
            Stage::Les,
            Stage::Fon,
            Stage::Cat,
            Stage::Sig,
            Stage::Acu,
        ]);
        r
    }

    /// With the text of one more stage.
    pub fn with_stage_dump(self, stage: Stage) -> (r: Self)
        ensures
            r@ == (Setup { dump_stages: self@.dump_stages.push(stage), ..self@ }),
    {
        let mut r: OracleConfig = self;
        r.dump_stages.push(stage);
        r
    }

    /// With every switch.
    pub fn with_all_traces(self) -> (r: Self)
        ensures
            r@ == (Setup { params: self@.params + switch_params(6), ..self@ }),
    {
        let mut r: OracleConfig = self;
        let ghost before = r@;
        let all: Vec<Switch> = trace_switches();
        assert(switched(all@).len() == all@.len());
        let mut i: usize = 0;
        assert(r@.params =~= before.params + switch_params(0));
        while i < all.len()
            invariant
                i <= all@.len() == 6,
                switched(all@) == switch_list(),
                r@ == (Setup { params: before.params + switch_params(i as nat), ..before }),
            decreases all@.len() - i,
        {
            let ghost so_far = r@.params;
            assert(switched(all@)[i as int] == (
                all@[i as int].key@,
                all@[i as int].value@,
                all@[i as int].stage,
            ));
            let p = Param { key: all[i].key.to_owned(), value: all[i].value.to_owned() };
            r.params.push(p);
            assert(params(r.params@) =~= so_far.push((p.key@, p.value@)));
            assert(r@.params =~= before.params + switch_params((i + 1) as nat));
            i = i + 1;
        }
        r
    }

    /// With one more parameter.
    pub fn with_param(self, key: &str, value: &str) -> (r: Self)
        ensures
            r@ == (Setup { params: self@.params.push((key@, value@)), ..self@ }),
    {
        let mut r: OracleConfig = self;
        let ghost before = r@.params;
        let p = Param { key: key.to_owned(), value: value.to_owned() };
        r.params.push(p);
        assert(params(r.params@) =~= before.push((key@, value@)));
        r
    }
}

/// What was captured of one sentence.
#[derive(Debug, Clone, PartialEq, Eq)]
pub struct Capture {
    /// The sentence.
    pub text: String,
    /// The samples, two bytes each.
    pub audio: Vec<u8>,
    /// The trace.
    pub trace: String,
    /// The standard output.
    pub stdout: String,
    /// The text of stages.
    pub stages: Vec<(Stage, String)>,
}

impl Default for Capture {
    fn default() -> (r: Self)
        ensures
            r.text@.len() == 0,
            r.audio@.len() == 0,
            r.trace@.len() == 0,
            r.stdout@.len() == 0,
            r.stages@.len() == 0,
    {
        Capture {
            text: String::new(),
            audio: Vec::new(),
            trace: String::new(),
            stdout: String::new(),
            stages: Vec::new(),
        }
    }
}

/// The first text of a stage, from `from` on; their number where there is none.
pub open spec fn stage_at(v: Seq<(Stage, String)>, s: Stage, from: int) -> int
    decreases v.len() - from,
{
    if from < 0 || from >= v.len() {
        v.len() as int
    } else if v[from].0 == s {
        from
    } else {
        stage_at(v, s, from + 1)
    }
}

impl Capture {
    /// How many samples there are.
    pub fn samples(&self) -> (r: usize)
        ensures
            r == self.audio@.len() / 2,
    {
        self.audio.len() / 2
    }

    /// A stage's text, if it was captured.
    pub fn stage(&self, stage: Stage) -> (r: Option<&str>)
        ensures
            ({
                let k = stage_at(self.stages@, stage, 0);
                match r {
                    Some(t) => k < self.stages@.len() && t@ == self.stages@[k].1@,
                    None => k >= self.stages@.len(),
                }
            }),
    {
        let mut i: usize = 0;
        while i < self.stages.len()
            invariant
                i <= self.stages@.len(),
                stage_at(self.stages@, stage, 0) == stage_at(self.stages@, stage, i as int),
            decreases self.stages@.len() - i,
        {
            if self.stages[i].0 == stage {
                return Some(self.stages[i].1.as_str());
            }
            i = i + 1;
        }
        None
    }
}

/// What was written past a mark.
pub open spec fn past_mark(data: Seq<u8>, mark: int) -> Seq<u8> {
    if mark < data.len() {
        data.subrange(mark, data.len() as int)
    } else {
        Seq::empty()
    }
}

/// Takes what was written past a mark, and moves the mark to the end. Nothing
/// where there is nothing new.
pub fn drain(data: &[u8], mark: &mut usize) -> (r: Option<String>)
    ensures
        *final(mark) == data@.len(),
        match r {
            Some(t) => *old(mark) < data@.len() && t@ == lossy(past_mark(data@, *old(mark) as int)),
            None => *old(mark) >= data@.len(),
        },
{
    let from: usize = *mark;
    *mark = data.len();
    if from < data.len() {
        Some(lossy_text(vstd::slice::slice_subrange(data, from, data.len())))
    } else {
        None
    }
}

/// Draining twice gives everything once: what the second takes is what was
/// written after the first.
pub proof fn drains_join(first: Seq<u8>, second: Seq<u8>, mark: int)
    requires
        0 <= mark <= first.len(),
    ensures
        past_mark(first + second, mark) == past_mark(first, mark) + past_mark(
            first + second,
            first.len() as int,
        ),
        past_mark(first + second, first.len() as int) == second,
{
    assert(past_mark(first + second, first.len() as int) =~= second);
    assert(past_mark(first + second, mark) =~= past_mark(first, mark) + second);
}

/// What a switch brought.
#[derive(Debug, Clone)]
pub struct ProbeResult {
    /// The switch.
    pub key: String,
    /// The stage it talks of.
    pub stage: Option<Stage>,
    /// Bytes of trace with it.
    pub trace_bytes: usize,
    /// Bytes of standard output with it.
    pub stdout_bytes: usize,
    /// Bytes of trace without it.
    pub baseline_trace: usize,
    /// Bytes of standard output without it.
    pub baseline_stdout: usize,
    /// What went wrong.
    pub error: Option<String>,
}

/// What a switch brought, as mathematics.
pub struct Probed {
    /// The switch.
    pub key: Seq<char>,
    /// The stage it talks of.
    pub stage: Option<Stage>,
    /// Bytes of trace and standard output with it.
    pub with: (int, int),
    /// Bytes of trace and standard output without it.
    pub without: (int, int),
    /// What went wrong.
    pub error: Option<Seq<char>>,
}

impl View for ProbeResult {
    type V = Probed;

    open spec fn view(&self) -> Probed {
        Probed {
            key: self.key@,
            stage: self.stage,
            with: (self.trace_bytes as int, self.stdout_bytes as int),
            without: (self.baseline_trace as int, self.baseline_stdout as int),
            error: match self.error {
                Some(e) => Some(e@),
                None => None,
            },
        }
    }
}

/// A difference, or zero where it would be less.
pub open spec fn over(a: int, b: int) -> int {
    if a > b {
        a - b
    } else {
        0
    }
}

impl Probed {
    /// Whether the switch brought anything.
    pub open spec fn productive(self) -> bool {
        self.error is None && (self.with.0 > self.without.0 || self.with.1 > self.without.1)
    }

    /// After one more try: the one that brought the most is kept, and what went
    /// wrong where none brought anything.
    pub open spec fn tried(self, got: Result<(int, int), Seq<char>>) -> Probed {
        match got {
            Ok((t, s)) => if t + s > self.with.0 + self.with.1 {
                Probed { with: (t, s), error: None, ..self }
            } else {
                self
            },
            Err(e) => if self.productive() {
                self
            } else {
                Probed { error: Some(e), ..self }
            },
        }
    }
}

impl ProbeResult {
    /// Before any try.
    pub fn new(key: &str, stage: Option<Stage>, trace: usize, stdout: usize) -> (r: Self)
        ensures
            r@ == (Probed {
                key: key@,
                stage,
                with: (trace as int, stdout as int),
                without: (trace as int, stdout as int),
                error: None,
            }),
    {
        ProbeResult {
            key: key.to_owned(),
            stage,
            trace_bytes: trace,
            stdout_bytes: stdout,
            baseline_trace: trace,
            baseline_stdout: stdout,
            error: None,
        }
    }

    /// Takes one more try.
    pub fn consider(&mut self, got: Result<(usize, usize), String>)
        ensures
            final(self)@ == old(self)@.tried(
                match got {
                    Ok((t, s)) => Ok((t as int, s as int)),
                    Err(e) => Err(e@),
                },
            ),
    {
        match got {
            Ok((t, s)) => {
                if t as u128 + s as u128 > self.trace_bytes as u128 + self.stdout_bytes as u128 {
                    self.trace_bytes = t;
                    self.stdout_bytes = s;
                    self.error = None;
                }
            },
            Err(e) => {
                if !self.produced_output() {
                    self.error = Some(e);
                }
            },
        }
    }

    /// Whether the switch brought anything.
    pub fn produced_output(&self) -> (r: bool)
        ensures
            r == self@.productive(),
    {
        self.error.is_none() && (self.extra_trace() > 0 || self.extra_stdout() > 0)
    }

    /// Bytes of trace that it brought.
    pub fn extra_trace(&self) -> (r: usize)
        ensures
            r == over(self@.with.0, self@.without.0),
    {
        if self.trace_bytes > self.baseline_trace {
            self.trace_bytes - self.baseline_trace
        } else {
            0
        }
    }

    /// Bytes of standard output that it brought.
    pub fn extra_stdout(&self) -> (r: usize)
        ensures
            r == over(self@.with.1, self@.without.1),
    {
        if self.stdout_bytes > self.baseline_stdout {
            self.stdout_bytes - self.baseline_stdout
        } else {
            0
        }
    }
}

} // verus!

//! Capturing a sentence: what the engine wrote since the last one, and the
//! files that a capture is kept in.
use vstd::prelude::*;
use vstd::utf8::encode_utf8;
use super::{drain, past_mark, stage_file, stage_file_name, Capture, Stage};
use crate::data::chars::{chars_of, hex8, push_hex8, push_str, text_of};
use crate::engine::runtime::{bytes_of, same};
use crate::engine::words::{lossy, lossy_text, texts_survive};

verus! {

/// A capture as mathematics.
pub struct Heard {
    /// The sentence.
    pub text: Seq<char>,
    /// The samples.
    pub audio: Seq<u8>,
    /// The trace.
    pub trace: Seq<char>,
    /// The standard output.
    pub stdout: Seq<char>,
    /// The text of stages.
    pub stages: Seq<(Stage, Seq<char>)>,
}

/// The text of stages as mathematics.
pub open spec fn dumps(v: Seq<(Stage, String)>) -> Seq<(Stage, Seq<char>)> {
    v.map_values(|d: (Stage, String)| (d.0, d.1@))
}

impl View for Capture {
    type V = Heard;

    open spec fn view(&self) -> Heard {
        Heard {
            text: self.text@,
            audio: self.audio@,
            trace: self.trace@,
            stdout: self.stdout@,
            stages: dumps(self.stages@),
        }
    }
}

/// How much of what the engine wrote was taken already.
#[derive(Debug, Clone)]
pub struct Marks {
    /// Of the trace.
    pub trace: usize,
    /// Of the standard output.
    pub stdout: usize,
    /// Of each stage's text.
    pub stages: Vec<(Stage, usize)>,
}

/// The text that was written past a mark.
pub open spec fn drained(data: Seq<u8>, mark: int) -> Seq<char> {
    if mark < data.len() {
        lossy(past_mark(data, mark))
    } else {
        Seq::empty()
    }
}

/// The texts of the first `n` stages, of those that wrote any past their marks.
pub open spec fn stages_drained(
    marks: Seq<(Stage, usize)>,
    written: Seq<Seq<u8>>,
    n: nat,
) -> Seq<(Stage, Seq<char>)>
    decreases n,
{
    if n == 0 {
        Seq::empty()
    } else {
        let before = stages_drained(marks, written, (n - 1) as nat);
        if written[n - 1].len() > marks[n - 1].1 {
            before.push(
                (marks[n - 1].0, lossy(past_mark(written[n - 1], marks[n - 1].1 as int))),
            )
        } else {
            before
        }
    }
}

/// Marks at the end of what was written.
pub open spec fn marks_moved(marks: Seq<(Stage, usize)>, written: Seq<Seq<u8>>) -> Seq<
    (Stage, usize),
> {
    Seq::new(marks.len(), |i: int| (marks[i].0, written[i].len() as usize))
}

/// Byte strings as mathematics.
pub open spec fn blobs(v: Seq<Vec<u8>>) -> Seq<Seq<u8>> {
    v.map_values(|b: Vec<u8>| b@)
}

impl Marks {
    /// Marks where the engine has written this much already.
    pub fn new(trace: usize, stdout: usize) -> (r: Self)
        ensures
            r.trace == trace,
            r.stdout == stdout,
            r.stages@.len() == 0,
    {
        Marks { trace, stdout, stages: Vec::new() }
    }

    /// Follows one more stage, from the start of its text.
    pub fn follow(&mut self, stage: Stage)
        ensures
            final(self).stages@ == old(self).stages@.push((stage, 0usize)),
            final(self).trace == old(self).trace,
            final(self).stdout == old(self).stdout,
    {
        self.stages.push((stage, 0));
    }

    fn take_stages(&mut self, written: &Vec<Vec<u8>>) -> (r: Vec<(Stage, String)>)
        requires
            written@.len() == old(self).stages@.len(),
        ensures
            dumps(r@) == stages_drained(old(self).stages@, blobs(written@), written@.len()),
            final(self).stages@ == marks_moved(old(self).stages@, blobs(written@)),
            final(self).trace == old(self).trace,
            final(self).stdout == old(self).stdout,
    {
        let ghost marks = self.stages@;
        let ghost all = blobs(written@);
        let mut out: Vec<(Stage, String)> = Vec::new();
        let mut i: usize = 0;
        assert(dumps(out@) =~= stages_drained(marks, all, 0));
        while i < self.stages.len()
            invariant
                i <= self.stages@.len() == written@.len() == marks.len(),
                all == blobs(written@),
                forall|k: int| i <= k < marks.len() ==> self.stages@[k] == marks[k],
                forall|k: int|
                    0 <= k < i ==> self.stages@[k] == (marks[k].0, all[k].len() as usize),
                dumps(out@) == stages_drained(marks, all, i as nat),
                self.trace == old(self).trace,
                self.stdout == old(self).stdout,
            decreases marks.len() - i,
        {
            assert(all[i as int] == written@[i as int]@);
            let ghost before = dumps(out@);
            let stage: Stage = self.stages[i].0;
            let mut mark: usize = self.stages[i].1;
            match drain(written[i].as_slice(), &mut mark) {
                Some(t) => {
                    out.push((stage, t));
                    assert(dumps(out@) =~= before.push((stage, t@)));
                },
                None => {},
            }
            self.stages.set(i, (stage, mark));
            i = i + 1;
        }
        assert(self.stages@ =~= marks_moved(marks, all));
        out
    }

    /// Takes what the engine wrote for a sentence: all that stands past the
    /// marks, which move to the end. There may be no standard output to take
    /// from.
    pub fn capture(
        &mut self,
        text: &str,
        audio: Vec<u8>,
        trace: &[u8],
        stdout: Option<&[u8]>,
        written: &Vec<Vec<u8>>,
    ) -> (r: Capture)
        requires
            written@.len() == old(self).stages@.len(),
        ensures
            r@ == (Heard {
                text: text@,
                audio: audio@,
                trace: drained(trace@, old(self).trace as int),
                stdout: match stdout {
                    Some(d) => drained(d@, old(self).stdout as int),
                    None => Seq::empty(),
                },
                stages: stages_drained(old(self).stages@, blobs(written@), written@.len()),
            }),
            final(self).trace == trace@.len(),
            final(self).stdout == (match stdout {
                Some(d) => d@.len(),
                None => old(self).stdout as nat,
            }),
            final(self).stages@ == marks_moved(old(self).stages@, blobs(written@)),
    {
        let mut mark: usize = self.trace;
        let said: String = match drain(trace, &mut mark) {
            Some(t) => t,
            None => String::new(),
        };
        self.trace = mark;
        let printed: String = match stdout {
            Some(d) => {
                let mut mark: usize = self.stdout;
                let t: String = match drain(d, &mut mark) {
                    Some(t) => t,
                    None => String::new(),
                };
                self.stdout = mark;
                t
            },
            None => String::new(),
        };
        let stages: Vec<(Stage, String)> = self.take_stages(written);
        Capture { text: text.to_owned(), audio, trace: said, stdout: printed, stages }
    }
}

/// A capture takes what was written for its own sentence alone: with everything
/// before it taken, it takes what was written since.
pub proof fn captures_take_their_own(earlier: Seq<u8>, own: Seq<u8>)
    ensures
        drained(earlier + own, earlier.len() as int) == if own.len() > 0 {
            lossy(own)
        } else {
            Seq::empty()
        },
{
    super::drains_join(earlier, own, earlier.len() as int);
}

/// What is said where a stage's text cannot be had.
pub fn output_failure(stage: Stage, rc: u32) -> (r: String)
    ensures
        r@ == "ttsSetOutput("@ + super::stage_name(stage) + ") failed with 0x"@ + hex8(rc),
{
    let mut out: Vec<char> = chars_of("ttsSetOutput(");
    push_str(&mut out, stage.as_str());
    push_str(&mut out, ") failed with 0x");
    push_hex8(&mut out, rc);
    text_of(out.as_slice())
}

/// The line of the session file that names the trace.
pub fn trace_setting() -> (r: String)
    ensures
        r@ == "\"TraceFile\" = \""@ + super::TRACE_PATH@ + "\""@,
{
    let mut out: Vec<char> = chars_of("\"TraceFile\" = \"");
    push_str(&mut out, super::TRACE_PATH);
    push_str(&mut out, "\"");
    text_of(out.as_slice())
}

/// Files as mathematics: names and contents.
pub open spec fn named(v: Seq<(String, Vec<u8>)>) -> Seq<(Seq<char>, Seq<u8>)> {
    v.map_values(|f: (String, Vec<u8>)| (f.0@, f.1@))
}

/// The files of the first `n` stages.
pub open spec fn stage_files(s: Seq<(Stage, Seq<char>)>, n: nat) -> Seq<(Seq<char>, Seq<u8>)> {
    Seq::new(n, |i: int| (stage_file_name(s[i].0), encode_utf8(s[i].1)))
}

/// The files that a capture is kept in.
pub open spec fn files_of(c: Heard) -> Seq<(Seq<char>, Seq<u8>)> {
    seq![
        ("text.txt"@, encode_utf8(c.text)),
        ("audio.raw"@, c.audio),
        ("trace.txt"@, encode_utf8(c.trace)),
        ("stdout.txt"@, encode_utf8(c.stdout)),
    ] + stage_files(c.stages, c.stages.len())
}

/// What is in a file, among the first `n` that were written: the last that was
/// written under its name.
pub open spec fn contents(
    files: Seq<(Seq<char>, Seq<u8>)>,
    name: Seq<char>,
    n: nat,
) -> Option<Seq<u8>>
    decreases n,
{
    if n == 0 {
        None
    } else if files[n - 1].0 == name {
        Some(files[n - 1].1)
    } else {
        contents(files, name, (n - 1) as nat)
    }
}

/// What is in a file.
pub open spec fn file_in(files: Seq<(Seq<char>, Seq<u8>)>, name: Seq<char>) -> Option<Seq<u8>> {
    contents(files, name, files.len())
}

/// The texts of the first `n` stages, of those that have a file.
pub open spec fn stages_in(files: Seq<(Seq<char>, Seq<u8>)>, n: nat) -> Seq<(Stage, Seq<char>)>
    decreases n,
{
    if n == 0 || n > 6 {
        Seq::empty()
    } else {
        let before = stages_in(files, (n - 1) as nat);
        let s = Stage::ALL@[n - 1];
        match file_in(files, stage_file_name(s)) {
            Some(b) => before.push((s, lossy(b))),
            None => before,
        }
    }
}

/// The capture that files hold, or the name of the first that is missing. A
/// missing standard output is an empty one.
pub open spec fn heard_in(files: Seq<(Seq<char>, Seq<u8>)>) -> Result<Heard, Seq<char>> {
    match (file_in(files, "text.txt"@), file_in(files, "audio.raw"@), file_in(files, "trace.txt"@)) {
        (None, _, _) => Err("text.txt"@),
        (_, None, _) => Err("audio.raw"@),
        (_, _, None) => Err("trace.txt"@),
        (Some(text), Some(audio), Some(trace)) => Ok(
            Heard {
                text: lossy(text),
                audio,
                trace: lossy(trace),
                stdout: match file_in(files, "stdout.txt"@) {
                    Some(b) => lossy(b),
                    None => Seq::empty(),
                },
                stages: stages_in(files, 6),
            },
        ),
    }
}

fn find_file<'a>(files: &'a Vec<(String, Vec<u8>)>, name: &str) -> (r: Option<&'a Vec<u8>>)
    ensures
        match (r, file_in(named(files@), name@)) {
            (Some(b), Some(want)) => b@ == want,
            (None, None) => true,
            _ => false,
        },
{
    let ghost all = named(files@);
    let mut n: usize = files.len();
    while n > 0
        invariant
            n <= files@.len(),
            all == named(files@),
            file_in(all, name@) == contents(all, name@, n as nat),
        decreases n,
    {
        assert(all[n - 1] == (files@[n - 1].0@, files@[n - 1].1@));
        if same(files[n - 1].0.as_str(), name) {
            return Some(&files[n - 1].1);
        }
        n = n - 1;
    }
    None
}

impl Capture {
    /// The files that the capture is kept in, in the order in which they are
    /// written.
    pub fn save(&self) -> (r: Vec<(String, Vec<u8>)>)
        ensures
            named(r@) == files_of(self@),
    {
        let mut out: Vec<(String, Vec<u8>)> = Vec::new();
        out.push(("text.txt".to_owned(), bytes_of(self.text.as_str())));
        out.push(
            ("audio.raw".to_owned(), vstd::slice::slice_to_vec(self.audio.as_slice())),
        );
        out.push(("trace.txt".to_owned(), bytes_of(self.trace.as_str())));
        out.push(("stdout.txt".to_owned(), bytes_of(self.stdout.as_str())));
        let ghost head = named(out@);
        let mut i: usize = 0;
        assert(named(out@) =~= head + stage_files(self@.stages, 0));
        while i < self.stages.len()
            invariant
                i <= self.stages@.len(),
                named(out@) == head + stage_files(self@.stages, i as nat),
            decreases self.stages@.len() - i,
        {
            let ghost before = named(out@);
            let f = (stage_file(self.stages[i].0), bytes_of(self.stages[i].1.as_str()));
            out.push(f);
            assert(named(out@) =~= before.push((f.0@, f.1@)));
            i = i + 1;
            assert(named(out@) =~= head + stage_files(self@.stages, i as nat));
        }
        assert(head =~= seq![
            ("text.txt"@, encode_utf8(self.text@)),
            ("audio.raw"@, self.audio@),
            ("trace.txt"@, encode_utf8(self.trace@)),
            ("stdout.txt"@, encode_utf8(self.stdout@)),
        ]);
        assert(named(out@) =~= files_of(self@));
        out
    }

    /// The capture that files hold. It fails with the name of the first that is
    /// missing.
    pub fn load(files: &Vec<(String, Vec<u8>)>) -> (r: Result<Capture, String>)
        ensures
            match (r, heard_in(named(files@))) {
                (Ok(c), Ok(want)) => c@ == want,
                (Err(e), Err(want)) => e@ == want,
                _ => false,
            },
    {
        let ghost all = named(files@);
        let text: &Vec<u8> = match find_file(files, "text.txt") {
            Some(b) => b,
            None => {
                return Err("text.txt".to_owned());
            },
        };
        let audio: &Vec<u8> = match find_file(files, "audio.raw") {
            Some(b) => b,
            None => {
                return Err("audio.raw".to_owned());
            },
        };
        let trace: &Vec<u8> = match find_file(files, "trace.txt") {
            Some(b) => b,
            None => {
                return Err("trace.txt".to_owned());
            },
        };
        let stdout: String = match find_file(files, "stdout.txt") {
            Some(b) => lossy_text(b.as_slice()),
            None => String::new(),
        };
        let mut stages: Vec<(Stage, String)> = Vec::new();
        let mut i: usize = 0;
        assert(dumps(stages@) =~= stages_in(all, 0));
        while i < 6
            invariant
                i <= 6,
                all == named(files@),
                dumps(stages@) == stages_in(all, i as nat),
            decreases 6 - i,
        {
            let s: Stage = Stage::ALL[i];
            let ghost before = dumps(stages@);
            match find_file(files, stage_file(s).as_str()) {
                Some(b) => {
                    let t: String = lossy_text(b.as_slice());
                    stages.push((s, t));
                    assert(dumps(stages@) =~= before.push((s, t@)));
                },
                None => {},
            }
            i = i + 1;
        }
        Ok(
            Capture {
                text: lossy_text(text.as_slice()),
                audio: vstd::slice::slice_to_vec(audio.as_slice()),
                trace: lossy_text(trace.as_slice()),
                stdout,
                stages,
            },
        )
    }
}

/// A stage's place in the order of stages.
pub open spec fn rank(s: Stage) -> int {
    match s {
        Stage::Top => 0,
        Stage::Les => 1,
        Stage::Fon => 2,
        Stage::Cat => 3,
        Stage::Sig => 4,
        Stage::Acu => 5,
    }
}

/// Whether texts are in the order of their stages, one to a stage at most.
pub open spec fn in_order(s: Seq<(Stage, Seq<char>)>) -> bool {
    forall|i: int, j: int| 0 <= i < j < s.len() ==> rank(s[i].0) < rank(s[j].0)
}

proof fn fixed_names_differ()
    ensures
        "text.txt"@ != "audio.raw"@,
        "text.txt"@ != "trace.txt"@,
        "text.txt"@ != "stdout.txt"@,
        "audio.raw"@ != "trace.txt"@,
        "audio.raw"@ != "stdout.txt"@,
        "trace.txt"@ != "stdout.txt"@,
{
    reveal_strlit("text.txt");
    reveal_strlit("audio.raw");
    reveal_strlit("trace.txt");
    reveal_strlit("stdout.txt");
    assert("text.txt"@[0] != "audio.raw"@[0]);
    assert("trace.txt"@[0] != "audio.raw"@[0]);
    assert("text.txt"@.len() != "trace.txt"@.len());
    assert("stdout.txt"@[0] != "audio.raw"@[0]);
}

proof fn stage_names_differ(a: Stage, b: Stage)
    ensures
        a != b ==> stage_file_name(a) != stage_file_name(b),
        stage_file_name(a) != "text.txt"@,
        stage_file_name(a) != "audio.raw"@,
        stage_file_name(a) != "trace.txt"@,
        stage_file_name(a) != "stdout.txt"@,
{
    reveal_strlit("text.txt");
    reveal_strlit("audio.raw");
    reveal_strlit("trace.txt");
    reveal_strlit("stdout.txt");
    reveal_strlit("stage-");
    reveal_strlit(".txt");
    reveal_strlit("top");
    reveal_strlit("les");
    reveal_strlit("fon");
    reveal_strlit("cat");
    reveal_strlit("sig");
    reveal_strlit("acu");
    assert(stage_file_name(a).len() == 13);
    if a != b {
        assert(stage_file_name(a)[6] == super::stage_name(a)[0]);
        assert(stage_file_name(b)[6] == super::stage_name(b)[0]);
    }
}

proof fn fixed_files(c: Heard, n: nat)
    requires
        4 <= n <= files_of(c).len(),
    ensures
        contents(files_of(c), "text.txt"@, n) == Some(encode_utf8(c.text)),
        contents(files_of(c), "audio.raw"@, n) == Some(c.audio),
        contents(files_of(c), "trace.txt"@, n) == Some(encode_utf8(c.trace)),
        contents(files_of(c), "stdout.txt"@, n) == Some(encode_utf8(c.stdout)),
    decreases n,
{
    fixed_names_differ();
    if n == 4 {
        reveal_with_fuel(contents, 5);
    } else {
        fixed_files(c, (n - 1) as nat);
        let k = n - 5;
        assert(files_of(c)[n - 1].0 == stage_file_name(c.stages[k].0));
        stage_names_differ(c.stages[k].0, c.stages[k].0);
    }
}

proof fn stage_file_found(c: Heard, k: int, n: nat)
    requires
        in_order(c.stages),
        0 <= k < c.stages.len(),
        4 + k < n <= files_of(c).len(),
    ensures
        contents(files_of(c), stage_file_name(c.stages[k].0), n) == Some(
            encode_utf8(c.stages[k].1),
        ),
    decreases n,
{
    let i = n - 5;
    assert(files_of(c)[n - 1] == (stage_file_name(c.stages[i].0), encode_utf8(c.stages[i].1)));
    if i != k {
        stage_names_differ(c.stages[i].0, c.stages[k].0);
        stage_file_found(c, k, (n - 1) as nat);
    }
}

proof fn stage_file_missing(c: Heard, s: Stage, n: nat)
    requires
        n <= files_of(c).len(),
        forall|k: int| 0 <= k < c.stages.len() ==> #[trigger] c.stages[k].0 != s,
    ensures
        contents(files_of(c), stage_file_name(s), n) is None,
    decreases n,
{
    if n > 0 {
        stage_names_differ(s, s);
        if n > 4 {
            let i = n - 5;
            assert(files_of(c)[n - 1].0 == stage_file_name(c.stages[i].0));
            stage_names_differ(s, c.stages[i].0);
        }
        stage_file_missing(c, s, (n - 1) as nat);
    }
}

proof fn stages_found(c: Heard, n: nat, m: nat)
    requires
        in_order(c.stages),
        n <= 6,
        m <= c.stages.len(),
        forall|i: int| 0 <= i < m ==> rank(#[trigger] c.stages[i].0) < n,
        forall|i: int| m <= i < c.stages.len() ==> rank(#[trigger] c.stages[i].0) >= n,
    ensures
        stages_in(files_of(c), n) == c.stages.take(m as int),
    decreases n,
{
    if n == 0 {
        if m > 0 {
            assert(rank(c.stages[0].0) < 0);
        }
        assert(c.stages.take(0) =~= Seq::empty());
    } else {
        let s = Stage::ALL@[n - 1];
        assert(rank(s) == n - 1);
        let len = files_of(c).len();
        if m > 0 && rank(c.stages[m - 1].0) == n - 1 {
            assert(c.stages[m - 1].0 == s);
            stage_file_found(c, m - 1, len);
            stages_found(c, (n - 1) as nat, (m - 1) as nat);
            texts_survive(c.stages[m - 1].1);
            assert(c.stages.take(m as int) =~= c.stages.take(m - 1).push(c.stages[m - 1]));
        } else {
            assert forall|k: int| 0 <= k < c.stages.len() implies #[trigger] c.stages[k].0 != s by {
                if k < m - 1 {
                    assert(rank(c.stages[k].0) < rank(c.stages[m - 1].0));
                }
            }
            assert forall|i: int| 0 <= i < m implies rank(#[trigger] c.stages[i].0) < n - 1 by {
                if i < m - 1 {
                    assert(rank(c.stages[i].0) < rank(c.stages[m - 1].0));
                }
            }
            stage_file_missing(c, s, len);
            stages_found(c, (n - 1) as nat, m);
        }
    }
}

/// A capture whose stages are in order is read back from its files as it was.
pub proof fn captures_read_back(c: Heard)
    requires
        in_order(c.stages),
    ensures
        heard_in(files_of(c)) == Ok::<Heard, Seq<char>>(c),
{
    fixed_files(c, files_of(c).len());
    texts_survive(c.text);
    texts_survive(c.trace);
    texts_survive(c.stdout);
    stages_found(c, 6, c.stages.len());
    assert(c.stages.take(c.stages.len() as int) =~= c.stages);
}

/// A file that is written again holds what was written last, and every other is
/// as it was.
pub proof fn later_files_replace_earlier(
    files: Seq<(Seq<char>, Seq<u8>)>,
    name: Seq<char>,
    data: Seq<u8>,
    other: Seq<char>,
)
    requires
        other != name,
    ensures
        file_in(files.push((name, data)), name) == Some(data),
        file_in(files.push((name, data)), other) == file_in(files, other),
{
    same_contents(files, (name, data), other, files.len());
}

proof fn same_contents(
    files: Seq<(Seq<char>, Seq<u8>)>,
    one: (Seq<char>, Seq<u8>),
    name: Seq<char>,
    n: nat,
)
    requires
        n <= files.len(),
    ensures
        contents(files.push(one), name, n) == contents(files, name, n),
    decreases n,
{
    if n > 0 {
        same_contents(files, one, name, (n - 1) as nat);
    }
}

} // verus!

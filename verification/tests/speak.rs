use loqng::engine::runtime::{Modules, Runtime, Symbol};
use loqng::speak::args::{mode, parse, source, Mode, Source};
use loqng::speak::program::{
    answer, is_console, outcome, plan, read_requests, to_speak, Input, Outcome, Plan,
};
use loqng::speak::session::{take_log, Session, OPENING};
use loqng::speak::text::{
    bare, failure, latin1_text, payload, request, requests, silence, utterance, Request,
};
use loqng::xrt::mem::Mem;

fn argv(words: &[&str]) -> Vec<String> {
    words.iter().map(|w| w.to_string()).collect()
}

#[test]
fn nothing_said_means_the_usual() {
    let a = parse(&argv(&[])).unwrap();
    assert_eq!(a.text, None);
    assert_eq!(a.file, None);
    assert_eq!(a.out, "speech.wav");
    assert_eq!(a.voice, "Dave");
    assert_eq!(a.rate, 16000);
    assert!(!a.raw && !a.serve && !a.quiet);
    assert_eq!((a.lib, a.data), (None, None));
}

#[test]
fn every_option_is_read() {
    let a = parse(&argv(&[
        "one", "-o", "x.wav", "-f", "in.txt", "--voice", "Kate", "--rate", "8000", "--lib", "L",
        "--data", "D", "--raw", "--serve", "-q", "two",
    ]))
    .unwrap();
    assert_eq!(a.text.as_deref(), Some("two"));
    assert_eq!(a.out, "x.wav");
    assert_eq!(a.file.as_deref(), Some("in.txt"));
    assert_eq!(a.voice, "Kate");
    assert_eq!(a.rate, 8000);
    assert_eq!(a.lib.as_deref(), Some("L"));
    assert_eq!(a.data.as_deref(), Some("D"));
    assert!(a.raw && a.serve && a.quiet);
    let a = parse(&argv(&["--out", "-", "--file", "-", "--quiet", "-", "--rate", "+9"])).unwrap();
    assert_eq!(a.out, "-");
    assert_eq!(a.file.as_deref(), Some("-"));
    assert_eq!(a.text.as_deref(), Some("-"));
    assert_eq!(a.rate, 9);
}

#[test]
fn what_is_wrong_with_arguments_is_said() {
    let e = |w: &[&str]| parse(&argv(w)).unwrap_err();
    assert_eq!(e(&["-o"]), "--out needs a value");
    assert_eq!(e(&["--file"]), "--file needs a value");
    assert_eq!(e(&["--voice"]), "--voice needs a value");
    assert_eq!(e(&["--rate"]), "--rate needs a value");
    assert_eq!(e(&["--lib"]), "--lib needs a value");
    assert_eq!(e(&["--data"]), "--data needs a value");
    assert_eq!(e(&["--rate", "fast"]), "--rate fast: not a number");
    assert_eq!(e(&["--rate", "4294967296"]), "--rate 4294967296: not a number");
    assert_eq!(e(&["-z"]), "unknown option `-z` (try --help)");
    assert_eq!(e(&["--help-me", "--rate"]), "unknown option `--help-me` (try --help)");
}

#[test]
fn the_mode_is_told_by_any_argument() {
    assert_eq!(mode(&argv(&["a", "--version", "-h"])), Mode::Help);
    assert_eq!(mode(&argv(&["--help"])), Mode::Help);
    assert_eq!(mode(&argv(&["--bad", "--version"])), Mode::Version);
    assert_eq!(mode(&argv(&["a"])), Mode::Speak);
}

#[test]
fn voices_are_carried_or_named() {
    let a = parse(&argv(&[])).unwrap();
    assert_eq!(source(&a, true), Ok(Source::BuiltIn));
    assert_eq!(
        source(&a, false),
        Err("this build carries no voice tree; pass --lib <dir> --data <dir>".to_string())
    );
    let a = parse(&argv(&["--lib", "L", "--data", "D"])).unwrap();
    assert_eq!(source(&a, true), Ok(Source::Disk("L".to_string(), "D".to_string())));
    let a = parse(&argv(&["--data", "D"])).unwrap();
    assert_eq!(source(&a, true), Err("--lib and --data go together".to_string()));
}

#[test]
fn a_plan_is_made_of_arguments() {
    assert!(matches!(plan(&argv(&["-z", "-h"]), false), Plan::Help));
    assert!(matches!(plan(&argv(&["-z", "--version"]), false), Plan::Version));
    match plan(&argv(&["-z"]), true) {
        Plan::Fail(e) => assert_eq!(e, "unknown option `-z` (try --help)"),
        other => panic!("{other:?}"),
    }
    match plan(&argv(&["hi"]), false) {
        Plan::Fail(e) => assert!(e.starts_with("this build carries no voice tree")),
        other => panic!("{other:?}"),
    }
    match plan(&argv(&["--serve"]), true) {
        Plan::Serve(a, s) => {
            assert!(a.serve);
            assert_eq!(s, Source::BuiltIn);
        }
        other => panic!("{other:?}"),
    }
    match plan(&argv(&["  hi there "]), true) {
        Plan::Speak(_, _, i) => assert_eq!(i, Input::Given("hi there".to_string())),
        other => panic!("{other:?}"),
    }
    match plan(&argv(&["-f", "-", "hi"]), true) {
        Plan::Speak(_, _, i) => assert_eq!(i, Input::Stdin),
        other => panic!("{other:?}"),
    }
    match plan(&argv(&["-f", "a.txt"]), true) {
        Plan::Speak(_, _, i) => assert_eq!(i, Input::File("a.txt".to_string())),
        other => panic!("{other:?}"),
    }
}

#[test]
fn there_has_to_be_a_text() {
    assert_eq!(to_speak(&Input::Given("hi".to_string()), b"x"), Ok("hi".to_string()));
    assert_eq!(to_speak(&Input::Stdin, b" \n hello\n"), Ok("hello".to_string()));
    assert_eq!(to_speak(&Input::File("f".to_string()), b"caf\xe9 "), Ok("café".to_string()));
    let none = Err("no text to speak (try --help)".to_string());
    assert_eq!(to_speak(&Input::Stdin, b" \t\n"), none);
    assert_eq!(to_speak(&Input::Given(String::new()), b"x"), none);
    assert!(is_console("-"));
    assert!(!is_console("--"));
}

#[test]
fn bytes_are_read_as_they_are_or_one_by_one() {
    assert_eq!(latin1_text("naïve".as_bytes()), "naïve");
    assert_eq!(latin1_text(b"na\xefve"), "naïve");
    assert_eq!(latin1_text(b"\xff\xfe"), "ÿþ");
    assert_eq!(latin1_text(b""), "");
    assert_eq!(bare(" \u{a0}x y\u{2003}\n"), "x y");
}

#[test]
fn an_utterance_ends_a_sentence() {
    assert_eq!(utterance("Hello"), "Hello.");
    assert_eq!(utterance("Hello. "), "Hello. ");
    assert_eq!(utterance("Really?"), "Really?");
    assert_eq!(utterance("a;"), "a;");
    assert_eq!(utterance("a:"), "a:");
    assert_eq!(utterance("a!"), "a!");
    assert_eq!(utterance("a,"), "a,.");
    assert_eq!(utterance(""), ".");
    assert_eq!(utterance(&utterance("so ")), utterance("so "));
}

#[test]
fn requests_are_read_line_by_line() {
    let line: Vec<char> = " out.wav \tSay\tit ".chars().collect();
    let say = Request::Say { path: "out.wav".to_string(), text: "Say\tit ".to_string() };
    assert_eq!(request(&line), say);
    assert_eq!(
        requests("\n a\tb\r\nno tab\n"),
        vec![
            Request::Blank,
            Request::Say { path: "a".to_string(), text: "b".to_string() },
            Request::NoTab,
        ]
    );
    assert_eq!(
        read_requests(b"\n a\tcaf\xe9\n  \nno tab\n"),
        vec![
            Request::Say { path: "a".to_string(), text: "café".to_string() },
            Request::NoTab,
        ]
    );
}

#[test]
fn requests_are_answered_on_a_line() {
    assert_eq!(answer("a.wav", &Ok(1200), "0.035"), "ok a.wav 1200 0.035");
    assert_eq!(answer("a.wav", &Err("no audio".to_string()), "0"), "error no audio");
}

#[test]
fn audio_is_written_raw_or_with_a_header() {
    assert_eq!(payload(&[1, 2], true, 16000), Some(vec![1, 2]));
    let w = payload(&[1, 2], false, 16000).unwrap();
    assert_eq!(w.len(), 46);
    assert_eq!(&w[44..], &[1, 2]);
    assert_eq!(payload(&[1, 2], false, u32::MAX), None);
    assert_eq!(outcome(&[], true, 16000), Outcome::Silent);
    assert_eq!(outcome(&[7], true, u32::MAX), Outcome::Bytes(vec![7]));
    assert_eq!(outcome(&[7], false, u32::MAX), Outcome::TooLong);
}

#[test]
fn failures_carry_the_log() {
    assert_eq!(failure("ttsRead", 0xbeef, ""), "ttsRead failed, 0x0000beef");
    assert_eq!(
        failure("ttsRead", 0xdeadbeef, "why \n\n"),
        "ttsRead failed, 0xdeadbeef\nwhy"
    );
    assert_eq!(silence(""), "the engine produced no audio");
    assert_eq!(silence("log\n"), "the engine produced no audio\nlog");
}

fn runtime() -> (Runtime, Mem) {
    let mods = Modules {
        regions: Vec::new(),
        host_data: Vec::new(),
        exports: vec![Symbol { name: "ttsRead".to_string(), at: 4 }],
        names: Vec::new(),
    };
    Runtime::built_in(&[], &mods).unwrap()
}

fn text_at(m: &Mem, mut a: u32) -> String {
    let mut s = String::new();
    while m.r8(a) != 0 {
        s.push(m.r8(a) as char);
        a += 1;
    }
    s
}

#[test]
fn a_session_is_opened_by_eight_calls() {
    let (mut rt, mut m) = runtime();
    let mut s = Session::begin(&mut rt, &mut m, "Kate", 8000).unwrap();
    let names = [
        "ttsNewSession",
        "ttsNewInstance",
        "ttsSetInstanceParam",
        "ttsSetInstanceParam",
        "ttsSetInstanceParam",
        "ttsNewVoice",
        "ttsSetAudio",
        "ttsSetModularStructure",
    ];
    let mut said = Vec::new();
    for k in 0..OPENING {
        assert!(!s.is_open());
        let c = s.call(&mut rt, &mut m).unwrap();
        assert_eq!(c.name, names[k]);
        if k == 0 {
            assert_eq!(c.args, vec![s.out, s.empty]);
            m.w32(s.out, 11);
        } else if k == 1 {
            assert_eq!(c.args, vec![s.out + 4, 11, s.empty]);
            m.w32(s.out + 4, 22);
        } else if k <= 4 {
            assert_eq!(c.args[0], 22);
            said.push((text_at(&m, c.args[1]), text_at(&m, c.args[2])));
        } else if k == 5 {
            assert_eq!(c.args[0], s.out + 8);
            assert_eq!(text_at(&m, c.args[2]), "Kate");
            assert_eq!(c.args[3], 8000);
            assert_eq!(text_at(&m, c.args[4]), "loqmsx");
        } else if k == 6 {
            assert_eq!(text_at(&m, c.args[1]), "LoqAudioFile");
            assert_eq!(text_at(&m, c.args[2]), "/loq/out.raw");
            assert_eq!(text_at(&m, c.args[3]), "l");
            assert_eq!(c.args[4], 0);
        } else {
            assert_eq!(text_at(&m, c.args[1]), "top");
            assert_eq!(text_at(&m, c.args[2]), "acu");
            assert_eq!(c.args[3], s.scratch);
        }
        assert_eq!(s.returned(&m, 0, &Vec::new()), Ok(()));
    }
    assert!(s.is_open());
    assert_eq!((s.session, s.inst), (11, 22));
    assert_eq!(said[0], ("MultiSpacePause".to_string(), "NO".to_string()));
    assert_eq!(said[1], ("MaxParPause".to_string(), "0".to_string()));
    assert_eq!(said[2], ("InputTextCoding".to_string(), "ansi".to_string()));

    let c = s.say(&mut rt, &mut m, "Hello").unwrap();
    assert_eq!(c.name, "ttsRead");
    assert_eq!(c.args[0], 22);
    assert_eq!(&c.args[2..], &[1, 0, 1, 2]);
    assert_eq!(text_at(&m, c.args[1]), "Hello.");
    assert_eq!(c.find(&rt), Ok(4));
    let lost = Session::begin(&mut rt, &mut m, "Kate", 8000).unwrap();
    let lost = lost.call(&mut rt, &mut m).unwrap();
    assert_eq!(
        lost.find(&rt),
        Err("ttsNewSession is not exported by the engine".to_string())
    );
    assert_eq!(s.spoken(&mut rt, 0), Ok(Vec::new()));
    assert_eq!(s.spoken(&mut rt, 3), Err("ttsRead failed, 0x00000003".to_string()));
}

#[test]
fn a_call_that_fails_opens_nothing() {
    let (mut rt, mut m) = runtime();
    let mut s = Session::begin(&mut rt, &mut m, "Dave", 16000).unwrap();
    m.w32(s.out, 11);
    assert_eq!(
        s.returned(&m, 0x80, &b"no \xff voice\n".to_vec()),
        Err("ttsNewSession failed, 0x00000080\nno \u{fffd} voice".to_string())
    );
    assert_eq!((s.session, s.step), (0, 0));
    assert_eq!(s.call(&mut rt, &mut m).unwrap().name, "ttsNewSession");
}

#[test]
fn the_log_is_taken_once() {
    let (mut rt, _) = runtime();
    rt.log = b"a\xe9".to_vec();
    assert_eq!(take_log(&mut rt), "a\u{fffd}");
    assert_eq!(take_log(&mut rt), "");
}

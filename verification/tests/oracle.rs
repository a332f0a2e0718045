use loqng::oracle::capture::{output_failure, trace_setting, Marks};
use loqng::oracle::probe::Probing;
use loqng::oracle::{
    drain, stage_path, trace_switches, Capture, OracleConfig, ProbeResult, Stage, PROBE_VALUES,
};

#[test]
fn every_switch_names_a_real_stage_or_none() {
    for s in trace_switches() {
        assert!(!s.key.is_empty());
        assert_eq!(s.value, "YES");
        if let Some(stage) = s.stage {
            assert!(Stage::ALL.contains(&stage));
        }
    }
}

fn sample() -> Capture {
    Capture {
        text: "Testing one two three.".to_string(),
        audio: vec![1, 2, 3, 4],
        trace: "* EVENT: TTSEVT_TEXT\n".to_string(),
        stdout: String::new(),
        stages: vec![
            (Stage::Top, "Testing one two three.\n".to_string()),
            (Stage::Fon, "th\t  79\t 95\t13107\tD F\n".to_string()),
        ],
    }
}

#[test]
fn capture_round_trips_through_a_directory() {
    let c = sample();
    let dir = c.save();
    let back = Capture::load(&dir).unwrap();
    assert_eq!(back, c);
    assert_eq!(back.stage(Stage::Top), Some("Testing one two three.\n"));
    assert_eq!(back.stage(Stage::Cat), None);
}

#[test]
fn a_capture_is_kept_in_plain_files() {
    let names: Vec<String> = sample().save().into_iter().map(|f| f.0).collect();
    assert_eq!(
        names,
        vec![
            "text.txt",
            "audio.raw",
            "trace.txt",
            "stdout.txt",
            "stage-top.txt",
            "stage-fon.txt"
        ]
    );
    assert_eq!(sample().samples(), 2);
}

#[test]
fn a_missing_file_is_named_unless_it_may_be_missing() {
    let all = sample().save();
    let without = |k: usize| {
        let mut v = all.clone();
        v.remove(k);
        Capture::load(&v)
    };
    assert_eq!(without(0), Err("text.txt".to_string()));
    assert_eq!(without(1), Err("audio.raw".to_string()));
    assert_eq!(without(2), Err("trace.txt".to_string()));
    assert_eq!(without(3), Ok(sample()));
    assert_eq!(without(5).unwrap().stages.len(), 1);
    let mut v = all.clone();
    v.push(("text.txt".to_string(), b"ne\xffw".to_vec()));
    assert_eq!(Capture::load(&v).unwrap().text, "ne\u{fffd}w");
}

#[test]
fn a_capture_takes_what_was_written_since_the_last() {
    let mut m = Marks::new(3, 1);
    m.follow(Stage::Les);
    m.follow(Stage::Acu);
    let c = m.capture(
        "a",
        vec![9],
        b"oldnew",
        Some(b"xy"),
        &vec![b"les".to_vec(), Vec::new()],
    );
    assert_eq!(c.trace, "new");
    assert_eq!(c.stdout, "y");
    assert_eq!(c.stages, vec![(Stage::Les, "les".to_string())]);
    let c = m.capture("b", vec![], b"oldnew", None, &vec![b"lesson".to_vec(), b"au".to_vec()]);
    assert_eq!((c.trace.as_str(), c.stdout.as_str()), ("", ""));
    assert_eq!(
        c.stages,
        vec![(Stage::Les, "son".to_string()), (Stage::Acu, "au".to_string())]
    );
    assert_eq!((m.trace, m.stdout), (6, 2));
}

#[test]
fn draining_moves_the_mark_to_the_end() {
    let mut mark = 2;
    assert_eq!(drain(b"abcd", &mut mark), Some("cd".to_string()));
    assert_eq!(mark, 4);
    assert_eq!(drain(b"abcd", &mut mark), None);
    assert_eq!(drain(b"a", &mut mark), None);
    assert_eq!(mark, 1);
}

#[test]
fn every_switch_is_tried_with_every_value() {
    let mut p = Probing::begin(10, 0);
    let mut n = 0;
    while let Some(w) = p.wanted() {
        assert_eq!(w.key, trace_switches()[n / 9].key);
        assert_eq!(w.value, PROBE_VALUES[n % 9]);
        let got = if n / 9 == 1 && n % 9 == 4 {
            Ok((10, 5))
        } else if n / 9 == 2 {
            Err(format!("no {}", w.value))
        } else {
            Ok((10, 0))
        };
        p = p.took(got);
        n += 1;
    }
    assert_eq!(n, 54);
    let r = p.results();
    assert_eq!(r.len(), 6);
    assert!(!r[0].produced_output());
    assert!(r[1].produced_output());
    assert_eq!((r[1].extra_trace(), r[1].extra_stdout()), (0, 5));
    assert_eq!(r[2].error.as_deref(), Some("no s"));
    assert_eq!(r[2].key, "TraceChunks");
    assert_eq!(r[5].stage, None);
}

#[test]
fn an_error_does_not_outweigh_output() {
    let mut p = ProbeResult::new("k", Some(Stage::Cat), 4, 4);
    p.consider(Err("bad".to_string()));
    assert_eq!(p.error.as_deref(), Some("bad"));
    p.consider(Ok((5, 4)));
    assert_eq!(p.error, None);
    p.consider(Err("worse".to_string()));
    assert_eq!(p.error, None);
    p.consider(Ok((0, 9)));
    assert_eq!((p.trace_bytes, p.stdout_bytes), (5, 4));
}

#[test]
fn the_configuration_is_built_up() {
    let c = OracleConfig::new("L", "D");
    assert_eq!((c.voice.as_str(), c.endec.as_str(), c.sample_rate), ("Dave", "loqmsx", 16000));
    assert!(c.native && c.params.is_empty() && c.dump_stages.is_empty());
    let c = c
        .interpreted()
        .with_stage_dump(Stage::Fon)
        .with_param("k", "v")
        .with_all_traces();
    assert!(!c.native);
    assert_eq!(c.dump_stages, vec![Stage::Fon]);
    assert_eq!(c.params.len(), 7);
    assert_eq!(c.params[0].key, "k");
    assert_eq!(c.params[6].key, "TracePhdAtm");
    assert_eq!(c.with_all_stage_dumps().dump_stages, Stage::ALL.to_vec());
}

#[test]
fn stages_have_their_paths() {
    assert_eq!(stage_path(Stage::Cat), "/loq/stage-cat.txt");
    assert_eq!(output_failure(Stage::Sig, 16), "ttsSetOutput(sig) failed with 0x00000010");
    assert_eq!(trace_setting(), "\"TraceFile\" = \"/loq/trace.txt\"");
}

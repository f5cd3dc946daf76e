use catr::numbering::Policy;
use catr::replay::{run_with_outcomes, RunOutput, SourceOutcome};
use catr::stream::{resolve_source, Action, Config, Emit, Event, LineStreamer, Source};

fn config(files: &[&str], number_lines: bool, number_nonblank_lines: bool) -> Config {
    Config {
        files: files.iter().map(|f| f.to_string()).collect(),
        number_lines,
        number_nonblank_lines,
    }
}

fn complete(lines: &[&str]) -> SourceOutcome {
    SourceOutcome::Complete(lines.iter().map(|l| l.to_string()).collect())
}

fn run(files: &[&str], n: bool, b: bool, outcomes: Vec<SourceOutcome>) -> RunOutput {
    run_with_outcomes(&config(files, n, b), &outcomes)
}

#[test]
fn plain_output_is_verbatim() {
    let out = run(&["a.txt"], false, false, vec![complete(&["hello", "world"])]);
    assert_eq!(out.stdout, "hello\nworld\n");
    assert!(out.stderr.is_empty());
    assert!(out.result.is_ok());
}

#[test]
fn all_lines_numbered() {
    let out = run(&["a.txt"], true, false, vec![complete(&["x", "y"])]);
    assert_eq!(out.stdout, "     1\tx\n     2\ty\n");
}

#[test]
fn nonblank_lines_numbered() {
    let out = run(&["a.txt"], false, true, vec![complete(&["x", "", "y"])]);
    assert_eq!(out.stdout, "     1\tx\n\n     2\ty\n");
}

#[test]
fn missing_source_is_reported_and_skipped() {
    let out = run(
        &["missing.txt", "a.txt"],
        false,
        false,
        vec![
            SourceOutcome::Unavailable("No such file or directory (os error 2)".to_string()),
            complete(&["hi"]),
        ],
    );
    assert_eq!(out.stdout, "hi\n");
    assert_eq!(out.stderr.len(), 1);
    assert!(out.stderr[0].starts_with("missing.txt: "));
    assert_eq!(out.stderr[0], "missing.txt: No such file or directory (os error 2)");
    assert!(out.result.is_ok());
}

#[test]
fn standard_input_numbered() {
    assert!(matches!(resolve_source("-"), Source::StandardInput));
    let out = run(&["-"], true, false, vec![complete(&["only"])]);
    assert_eq!(out.stdout, "     1\tonly\n");
}

#[test]
fn streamer_drives_standard_input() {
    let mut st = LineStreamer::new(&config(&["-"], true, false));
    assert!(matches!(st.next_action(), Action::Open(Source::StandardInput)));
    assert!(matches!(st.handle(Event::Opened), Emit::Nothing));
    assert!(matches!(st.next_action(), Action::ReadLine));
    match st.handle(Event::Line("only".to_string())) {
        Emit::Stdout(s) => assert_eq!(s, "     1\tonly\n"),
        other => panic!("unexpected {:?}", other),
    }
    assert!(matches!(st.handle(Event::EndOfInput), Emit::Nothing));
    assert!(matches!(st.next_action(), Action::Done(Ok(()))));
}

#[test]
fn streamer_opens_files_by_path() {
    let st = LineStreamer::new(&config(&["a.txt"], false, false));
    match st.next_action() {
        Action::Open(Source::FilePath(p)) => assert_eq!(p, "a.txt"),
        other => panic!("unexpected {:?}", other),
    }
}

#[test]
fn streamer_reports_open_failure() {
    let mut st = LineStreamer::new(&config(&["nope", "b"], false, false));
    match st.handle(Event::OpenFailed("denied".to_string())) {
        Emit::Stderr(s) => assert_eq!(s, "nope: denied"),
        other => panic!("unexpected {:?}", other),
    }
    assert_eq!(st.current, 1);
    assert_eq!(st.counter, 1);
    match st.next_action() {
        Action::Open(Source::FilePath(p)) => assert_eq!(p, "b"),
        other => panic!("unexpected {:?}", other),
    }
}

#[test]
fn streamer_ignores_events_out_of_turn() {
    let mut st = LineStreamer::new(&config(&["a"], true, false));
    assert!(matches!(st.handle(Event::Line("x".to_string())), Emit::Nothing));
    assert!(matches!(st.handle(Event::EndOfInput), Emit::Nothing));
    assert_eq!(st.current, 0);
    assert_eq!(st.counter, 1);
    assert!(matches!(st.next_action(), Action::Open(_)));
}

#[test]
fn streamer_read_failure_ends_run() {
    let mut st = LineStreamer::new(&config(&["a", "b"], false, false));
    st.handle(Event::Opened);
    st.handle(Event::ReadFailed("bad input".to_string()));
    match st.next_action() {
        Action::Done(Err(e)) => {
            assert_eq!(e.source, "a");
            assert_eq!(e.reason, "bad input");
            assert_eq!(e.message(), "a: bad input");
        }
        other => panic!("unexpected {:?}", other),
    }
}

#[test]
fn numbering_continues_across_sources() {
    let out = run(&["a", "b"], true, false, vec![complete(&["x"]), complete(&["y", "z"])]);
    assert_eq!(out.stdout, "     1\tx\n     2\ty\n     3\tz\n");
    let out = run(&["a", "b"], false, true, vec![complete(&["x", ""]), complete(&["", "y"])]);
    assert_eq!(out.stdout, "     1\tx\n\n\n     2\ty\n");
}

#[test]
fn missing_source_leaves_counter_alone() {
    let out = run(
        &["a", "gone", "b"],
        true,
        false,
        vec![complete(&["x"]), SourceOutcome::Unavailable("gone".to_string()), complete(&["y"])],
    );
    assert_eq!(out.stdout, "     1\tx\n     2\ty\n");
    assert_eq!(out.stderr, vec!["gone: gone".to_string()]);
}

#[test]
fn every_missing_source_reported_once() {
    let out = run(
        &["m1", "a", "m2"],
        false,
        false,
        vec![
            SourceOutcome::Unavailable("r1".to_string()),
            complete(&["a"]),
            SourceOutcome::Unavailable("r2".to_string()),
        ],
    );
    assert_eq!(out.stdout, "a\n");
    assert_eq!(out.stderr, vec!["m1: r1".to_string(), "m2: r2".to_string()]);
}

#[test]
fn repeated_runs_are_identical() {
    let make = || vec![complete(&["x", " ", "y"]), SourceOutcome::Unavailable("r".to_string())];
    let a = run(&["a", "b"], false, true, make());
    let b = run(&["a", "b"], false, true, make());
    assert_eq!(a.stdout, b.stdout);
    assert_eq!(a.stderr, b.stderr);
    assert_eq!(a.result.is_ok(), b.result.is_ok());
}

#[test]
fn read_failure_is_fatal() {
    let out = run(
        &["a", "b", "m"],
        true,
        false,
        vec![
            SourceOutcome::Interrupted(vec!["first".to_string()], "boom".to_string()),
            complete(&["second"]),
            SourceOutcome::Unavailable("r".to_string()),
        ],
    );
    assert_eq!(out.stdout, "     1\tfirst\n");
    assert!(out.stderr.is_empty());
    match out.result {
        Err(e) => {
            assert_eq!(e.source, "a");
            assert_eq!(e.reason, "boom");
        }
        Ok(()) => panic!("expected a failure"),
    }
}

#[test]
fn both_flags_number_all_lines() {
    assert_eq!(config(&["a"], true, true).policy(), Policy::All);
    assert_eq!(config(&["a"], false, true).policy(), Policy::NonBlank);
    assert_eq!(config(&["a"], false, false).policy(), Policy::Plain);
    let out = run(&["a"], true, true, vec![complete(&["x", "", "y"])]);
    assert_eq!(out.stdout, "     1\tx\n     2\t\n     3\ty\n");
}

#[test]
fn empty_source_writes_nothing() {
    let out = run(&["a", "b"], true, false, vec![complete(&[]), complete(&["z"])]);
    assert_eq!(out.stdout, "     1\tz\n");
}

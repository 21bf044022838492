use text_transform::error::PipelineError;
use text_transform::pipeline::{table_resource, transform, Pipeline, Reply, Request, StepFlags};

const TABLE: &str = r#"{"S": "...", "O": "---", "H": "....", "I": ".."}"#;

fn text(s: &str) -> Reply {
    Reply::Text(s.to_string())
}

#[test]
fn no_step_leaves_the_text() {
    let flags = StepFlags::default();
    assert_eq!(transform(&flags, "Hello", ""), Ok("Hello".to_string()));
    let (run, request) = Pipeline::start(flags, "Hello".to_string());
    assert_eq!(request, Request::Finish("Hello".to_string()));
    assert!(run.is_finished());
}

#[test]
fn default_flags_switch_nothing_on() {
    let flags = StepFlags::default();
    assert!(!flags.capitalize && !flags.lowercase && !flags.reverse);
    assert!(!flags.to_binary && !flags.from_binary && !flags.to_morse && !flags.from_morse);
    assert!(!flags.from_file && !flags.to_file && !flags.keep_contents);
    assert_eq!(flags.file_path, None);
    assert_eq!(flags.morse_language, None);
    assert!(flags.is_runnable());
    assert!(!flags.needs_table());
}

#[test]
fn to_binary_step() {
    let flags = StepFlags { to_binary: true, ..StepFlags::default() };
    let (run, request) = Pipeline::start(flags, "Hi".to_string());
    assert_eq!(request, Request::Finish("01001000 01101001".to_string()));
    assert!(run.is_finished());
}

#[test]
fn to_morse_step_loads_the_table_first() {
    let flags = StepFlags { to_morse: true, morse_language: Some("en".to_string()), ..StepFlags::default() };
    assert!(flags.needs_table());
    let (mut run, request) = Pipeline::start(flags, "sos".to_string());
    assert_eq!(request, Request::LoadTable("morse_en.json".to_string()));
    assert!(!run.is_finished());
    assert_eq!(run.advance(text(TABLE)), Request::Finish("... --- ...".to_string()));
    assert!(run.is_finished());
}

#[test]
fn the_table_is_not_asked_for_without_a_morse_step() {
    let flags = StepFlags { reverse: true, morse_language: Some("en".to_string()), ..StepFlags::default() };
    let (_, request) = Pipeline::start(flags, "abc".to_string());
    assert_eq!(request, Request::Finish("cba".to_string()));
}

#[test]
fn a_missing_table_fails_the_run() {
    let flags = StepFlags { from_morse: true, ..StepFlags::default() };
    let (mut run, request) = Pipeline::start(flags, "...".to_string());
    assert_eq!(request, Request::LoadTable("morse_en.json".to_string()));
    assert_eq!(run.advance(Reply::Failed), Request::Fail(PipelineError::TableLoad));
    assert!(run.is_finished());
}

#[test]
fn a_malformed_table_fails_the_run() {
    let flags = StepFlags { to_morse: true, to_file: true, file_path: Some("out".to_string()), ..StepFlags::default() };
    let (mut run, _) = Pipeline::start(flags, "sos".to_string());
    assert_eq!(run.advance(text("{ nonsense")), Request::Fail(PipelineError::TableLoad));
    assert!(run.is_finished());
}

#[test]
fn every_language_is_served_from_the_english_table() {
    assert_eq!(table_resource(Some("en")), "morse_en.json");
    assert_eq!(table_resource(Some("ru")), "morse_en.json");
    assert_eq!(table_resource(Some("")), "morse_en.json");
    assert_eq!(table_resource(None), "morse_en.json");
    let flags = StepFlags { to_morse: true, morse_language: Some("ru".to_string()), ..StepFlags::default() };
    let (_, request) = Pipeline::start(flags, "sos".to_string());
    assert_eq!(request, Request::LoadTable("morse_en.json".to_string()));
}

#[test]
fn steps_run_in_their_fixed_order() {
    let flags = StepFlags { lowercase: true, capitalize: true, ..StepFlags::default() };
    assert_eq!(transform(&flags, "MiXed", ""), Ok("mixed".to_string()));
    let flags = StepFlags { to_binary: true, reverse: true, ..StepFlags::default() };
    assert_eq!(transform(&flags, "iH", ""), Ok("01001000 01101001".to_string()));
    let flags = StepFlags { from_binary: true, to_binary: true, ..StepFlags::default() };
    assert_eq!(transform(&flags, "Hi", ""), Ok("Hi".to_string()));
    let flags = StepFlags { from_morse: true, to_morse: true, ..StepFlags::default() };
    assert_eq!(transform(&flags, "sos", TABLE), Ok("S O S".to_string()));
    let flags = StepFlags { from_binary: true, to_morse: true, ..StepFlags::default() };
    assert_eq!(transform(&flags, "01001000 01101001", TABLE), Ok(".... ..".to_string()));
}

#[test]
fn all_transforms_together() {
    let flags = StepFlags {
        capitalize: true,
        lowercase: true,
        reverse: true,
        to_binary: true,
        from_binary: true,
        to_morse: true,
        from_morse: true,
        ..StepFlags::default()
    };
    assert_eq!(transform(&flags, "Sos hi", TABLE), Ok("I H S O S".to_string()));
}

#[test]
fn transform_reads_the_table_only_for_morse() {
    let flags = StepFlags { capitalize: true, ..StepFlags::default() };
    assert_eq!(transform(&flags, "abc", "{ nonsense"), Ok("ABC".to_string()));
    let flags = StepFlags { capitalize: true, from_morse: true, ..StepFlags::default() };
    assert_eq!(transform(&flags, "abc", "{ nonsense"), Err(PipelineError::TableLoad));
}

#[test]
fn to_file_with_an_empty_target_writes_without_asking() {
    let flags = StepFlags { to_file: true, file_path: Some("out.txt".to_string()), ..StepFlags::default() };
    let (mut run, request) = Pipeline::start(flags, "hello".to_string());
    assert_eq!(request, Request::ReadFile("out.txt".to_string()));
    assert_eq!(run.advance(text("")), Request::WriteFile("out.txt".to_string(), "hello".to_string()));
    assert_eq!(run.advance(Reply::Done), Request::Finish("Done: out.txt".to_string()));
    assert!(run.is_finished());
}

#[test]
fn to_file_declined_leaves_the_file_and_returns_nothing() {
    let flags = StepFlags { to_file: true, file_path: Some("out.txt".to_string()), ..StepFlags::default() };
    let (mut run, request) = Pipeline::start(flags, "hello".to_string());
    assert_eq!(request, Request::ReadFile("out.txt".to_string()));
    assert_eq!(
        run.advance(text("precious")),
        Request::Ask("out.txt will be OVERWRITTEN. Are you sure? (YES)".to_string())
    );
    assert_eq!(run.advance(text("no\n")), Request::Finish(String::new()));
    assert!(run.is_finished());
}

#[test]
fn to_file_confirmed_overwrites() {
    let flags = StepFlags { to_file: true, file_path: Some("out.txt".to_string()), ..StepFlags::default() };
    let (mut run, _) = Pipeline::start(flags, "hello".to_string());
    assert_eq!(
        run.advance(text("precious")),
        Request::Ask("out.txt will be OVERWRITTEN. Are you sure? (YES)".to_string())
    );
    assert_eq!(run.advance(text("YES\n")), Request::WriteFile("out.txt".to_string(), "hello".to_string()));
    assert_eq!(run.advance(Reply::Done), Request::Finish("Done: out.txt".to_string()));
}

#[test]
fn an_empty_answer_declines() {
    let flags = StepFlags { to_file: true, file_path: Some("out.txt".to_string()), ..StepFlags::default() };
    let (mut run, _) = Pipeline::start(flags, "hello".to_string());
    run.advance(text("precious"));
    assert_eq!(run.advance(text("")), Request::Finish(String::new()));
}

#[test]
fn to_file_keeping_contents_appends_without_a_separator() {
    let flags = StepFlags {
        to_file: true,
        keep_contents: true,
        file_path: Some("log.txt".to_string()),
        ..StepFlags::default()
    };
    let (mut run, request) = Pipeline::start(flags, "second".to_string());
    assert_eq!(request, Request::ReadFile("log.txt".to_string()));
    assert_eq!(run.advance(text("first")), Request::WriteFile("log.txt".to_string(), "firstsecond".to_string()));
    assert_eq!(run.advance(Reply::Done), Request::Finish("Done: log.txt".to_string()));
}

#[test]
fn to_file_fails_when_the_target_cannot_be_read() {
    let flags = StepFlags { to_file: true, keep_contents: true, file_path: Some("x".to_string()), ..StepFlags::default() };
    let (mut run, _) = Pipeline::start(flags, "t".to_string());
    assert_eq!(run.advance(Reply::Failed), Request::Fail(PipelineError::FileRead));
    assert!(run.is_finished());
}

#[test]
fn to_file_fails_when_the_target_cannot_be_written() {
    let flags = StepFlags { to_file: true, file_path: Some("x".to_string()), ..StepFlags::default() };
    let (mut run, _) = Pipeline::start(flags, "t".to_string());
    assert_eq!(run.advance(text("")), Request::WriteFile("x".to_string(), "t".to_string()));
    assert_eq!(run.advance(Reply::Failed), Request::Fail(PipelineError::FileWrite));
    assert!(run.is_finished());
}

#[test]
fn to_file_writes_the_transformed_text() {
    let flags = StepFlags { to_binary: true, to_file: true, file_path: Some("b".to_string()), ..StepFlags::default() };
    let (mut run, _) = Pipeline::start(flags, "Hi".to_string());
    assert_eq!(run.advance(text("")), Request::WriteFile("b".to_string(), "01001000 01101001".to_string()));
}

#[test]
fn from_file_reads_the_file_that_the_text_names() {
    let flags = StepFlags { reverse: true, from_file: true, ..StepFlags::default() };
    let (mut run, request) = Pipeline::start(flags, "txt.eman".to_string());
    assert_eq!(request, Request::ReadFile("name.txt".to_string()));
    assert_eq!(run.advance(text("content\n")), Request::Show("content\n".to_string()));
    assert_eq!(run.advance(Reply::Done), Request::Finish("content\n".to_string()));
    assert!(run.is_finished());
}

#[test]
fn from_file_fails_when_the_file_cannot_be_read() {
    let flags = StepFlags { from_file: true, ..StepFlags::default() };
    let (mut run, request) = Pipeline::start(flags, "missing".to_string());
    assert_eq!(request, Request::ReadFile("missing".to_string()));
    assert_eq!(run.advance(Reply::Failed), Request::Fail(PipelineError::FileRead));
    assert!(run.is_finished());
}

#[test]
fn from_file_comes_before_to_file() {
    let flags = StepFlags {
        from_file: true,
        to_file: true,
        file_path: Some("copy".to_string()),
        ..StepFlags::default()
    };
    let (mut run, request) = Pipeline::start(flags, "source".to_string());
    assert_eq!(request, Request::ReadFile("source".to_string()));
    assert_eq!(run.advance(text("data")), Request::Show("data".to_string()));
    assert_eq!(run.advance(Reply::Done), Request::ReadFile("copy".to_string()));
    assert_eq!(run.advance(text("")), Request::WriteFile("copy".to_string(), "data".to_string()));
    assert_eq!(run.advance(Reply::Done), Request::Finish("Done: copy".to_string()));
}

#[test]
fn a_full_run_with_every_stage() {
    let flags = StepFlags {
        to_morse: true,
        from_file: true,
        to_file: true,
        file_path: Some("out".to_string()),
        morse_language: Some("en".to_string()),
        ..StepFlags::default()
    };
    let (mut run, request) = Pipeline::start(flags, "hi".to_string());
    assert_eq!(request, Request::LoadTable("morse_en.json".to_string()));
    assert_eq!(run.advance(text(TABLE)), Request::ReadFile(".... ..".to_string()));
    assert_eq!(run.advance(text("inside")), Request::Show("inside".to_string()));
    assert_eq!(run.advance(Reply::Done), Request::ReadFile("out".to_string()));
    assert_eq!(
        run.advance(text("old")),
        Request::Ask("out will be OVERWRITTEN. Are you sure? (YES)".to_string())
    );
    assert_eq!(run.advance(text(" YES ")), Request::WriteFile("out".to_string(), "inside".to_string()));
    assert_eq!(run.advance(Reply::Done), Request::Finish("Done: out".to_string()));
    assert!(run.is_finished());
}

#[test]
fn an_answer_out_of_turn_fails_the_run() {
    let flags = StepFlags { to_file: true, file_path: Some("x".to_string()), ..StepFlags::default() };
    let (mut run, _) = Pipeline::start(flags.clone(), "t".to_string());
    assert_eq!(run.advance(Reply::Done), Request::Fail(PipelineError::OutOfTurn));
    assert!(run.is_finished());

    let (mut run, _) = Pipeline::start(flags.clone(), "t".to_string());
    run.advance(text("old"));
    assert_eq!(run.advance(Reply::Failed), Request::Fail(PipelineError::OutOfTurn));

    let (mut run, _) = Pipeline::start(flags, "t".to_string());
    run.advance(text(""));
    assert_eq!(run.advance(text("what")), Request::Fail(PipelineError::OutOfTurn));

    let from = StepFlags { from_file: true, ..StepFlags::default() };
    let (mut run, _) = Pipeline::start(from, "f".to_string());
    run.advance(text("c"));
    assert_eq!(run.advance(text("again")), Request::Fail(PipelineError::OutOfTurn));

    let morse = StepFlags { to_morse: true, ..StepFlags::default() };
    let (mut run, _) = Pipeline::start(morse, "f".to_string());
    assert_eq!(run.advance(Reply::Done), Request::Fail(PipelineError::OutOfTurn));
}

#[test]
fn a_finished_run_takes_no_more_answers() {
    let (mut run, request) = Pipeline::start(StepFlags::default(), "t".to_string());
    assert_eq!(request, Request::Finish("t".to_string()));
    assert_eq!(run.advance(Reply::Done), Request::Fail(PipelineError::OutOfTurn));
    assert_eq!(run.advance(text("x")), Request::Fail(PipelineError::OutOfTurn));
    assert!(run.is_finished());
}

#[test]
fn flags_that_write_need_a_path() {
    let flags = StepFlags { to_file: true, ..StepFlags::default() };
    assert!(!flags.is_runnable());
    let flags = StepFlags { to_file: true, file_path: Some(String::new()), ..StepFlags::default() };
    assert!(flags.is_runnable());
    let flags = StepFlags { file_path: Some("unused".to_string()), ..StepFlags::default() };
    assert!(flags.is_runnable());
}

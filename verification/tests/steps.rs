use efflux::io::Run;
use efflux::recorder::{Event, Recorder};

fn entry(text: &str) -> Event {
    Event::Entry(text.to_string())
}

#[test]
fn run_without_lines_starts_and_ends() {
    let run = Run::start(Recorder::new());
    let (recorder, ctx) = run.finish();
    assert_eq!(recorder.events, vec![Event::Start, Event::End]);
    assert!(ctx.values.is_empty());
}

#[test]
fn run_in_steps_delivers_in_the_order_of_the_calls() {
    let mut run = Run::start(Recorder::new());
    run.feed::<()>(Ok(b"b".to_vec()));
    run.feed::<()>(Ok(b"a".to_vec()));
    run.feed::<()>(Ok(b"c".to_vec()));
    let (recorder, ctx) = run.finish();
    assert_eq!(
        recorder.events,
        vec![Event::Start, entry("b"), entry("a"), entry("c"), Event::End]
    );
    assert_eq!(ctx.values, vec!["b".to_string(), "a".to_string(), "c".to_string()]);
}

#[test]
fn run_in_steps_skips_failed_reads() {
    let mut run = Run::start(Recorder::new());
    run.feed::<()>(Ok(b"one".to_vec()));
    run.feed(Err(()));
    run.feed::<()>(Ok(b"two".to_vec()));
    run.feed(Err("broken pipe"));
    let (recorder, ctx) = run.finish();
    assert_eq!(
        recorder.events,
        vec![Event::Start, entry("one"), entry("two"), Event::End]
    );
    assert_eq!(ctx.values, vec!["one".to_string(), "two".to_string()]);
}

#[test]
fn run_in_steps_skips_lines_that_are_not_text() {
    let mut run = Run::start(Recorder::new());
    run.feed::<()>(Ok(vec![0xc3, 0x28]));
    run.feed::<()>(Ok(b"text".to_vec()));
    run.feed::<()>(Ok(vec![0xff]));
    let (recorder, _) = run.finish();
    assert_eq!(recorder.events, vec![Event::Start, entry("text"), Event::End]);
}

#[test]
fn run_in_steps_only_failed_reads() {
    let mut run = Run::start(Recorder::new());
    run.feed(Err(1u8));
    run.feed(Err(2u8));
    let (recorder, ctx) = run.finish();
    assert_eq!(recorder.events, vec![Event::Start, Event::End]);
    assert!(ctx.values.is_empty());
}

#[test]
fn run_in_steps_takes_bytes_as_they_are() {
    let mut run = Run::start(Recorder::new());
    run.feed::<()>(Ok(b"with\nfeed\r".to_vec()));
    run.feed::<()>(Ok(Vec::new()));
    let (recorder, _) = run.finish();
    assert_eq!(
        recorder.events,
        vec![Event::Start, entry("with\nfeed\r"), entry(""), Event::End]
    );
}

#[test]
fn run_in_steps_with_the_unit_stage() {
    let mut run = Run::start(());
    run.feed::<()>(Ok(b"ignored".to_vec()));
    run.feed(Err(()));
    let (stage, ctx) = run.finish();
    assert_eq!(stage, ());
    assert!(ctx.values.is_empty());
}

#[test]
fn run_in_steps_agrees_with_a_run_over_the_whole_input() {
    let (whole, whole_ctx) = efflux::io::run_lifecycle(Recorder::new(), b"x\r\n\xff\ny\nz");
    let mut run = Run::start(Recorder::new());
    run.feed::<()>(Ok(b"x".to_vec()));
    run.feed::<()>(Ok(vec![0xff]));
    run.feed::<()>(Ok(b"y".to_vec()));
    run.feed::<()>(Ok(b"z".to_vec()));
    let (stepped, stepped_ctx) = run.finish();
    assert_eq!(whole.events, stepped.events);
    assert_eq!(whole_ctx.values, stepped_ctx.values);
}

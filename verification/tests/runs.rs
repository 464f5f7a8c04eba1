use efflux::context::Context;
use efflux::io::run_lifecycle;
use efflux::recorder::{Event, Recorder};

fn entry(text: &str) -> Event {
    Event::Entry(text.to_string())
}

fn record(input: &[u8]) -> (Vec<Event>, Vec<String>) {
    let (recorder, ctx) = run_lifecycle(Recorder::new(), input);
    (recorder.events, ctx.values)
}

#[test]
fn three_lines_are_delivered_in_order() {
    let (events, values) = record(b"a\nb\nc\n");
    assert_eq!(
        events,
        vec![Event::Start, entry("a"), entry("b"), entry("c"), Event::End]
    );
    assert_eq!(values, vec!["a".to_string(), "b".to_string(), "c".to_string()]);
}

#[test]
fn empty_input_starts_and_ends() {
    let (events, values) = record(b"");
    assert_eq!(events, vec![Event::Start, Event::End]);
    assert!(values.is_empty());
}

#[test]
fn invalid_line_between_valid_lines_is_dropped() {
    let (events, values) = record(b"first\n\xff\xfe\nlast\n");
    assert_eq!(
        events,
        vec![Event::Start, entry("first"), entry("last"), Event::End]
    );
    assert_eq!(values, vec!["first".to_string(), "last".to_string()]);
}

#[test]
fn final_line_without_terminator_is_delivered() {
    let (events, _) = record(b"a\nb");
    assert_eq!(events, vec![Event::Start, entry("a"), entry("b"), Event::End]);
}

#[test]
fn single_line_without_terminator_is_delivered() {
    let (events, _) = record(b"only");
    assert_eq!(events, vec![Event::Start, entry("only"), Event::End]);
}

#[test]
fn start_comes_first_and_once() {
    let (events, _) = record(b"x\n\xff\ny\nz");
    assert_eq!(events[0], Event::Start);
    let starts = events.iter().filter(|e| **e == Event::Start).count();
    assert_eq!(starts, 1);
}

#[test]
fn end_comes_last_and_once() {
    let (events, _) = record(b"x\n\xff\ny\nz");
    assert_eq!(events[events.len() - 1], Event::End);
    let ends = events.iter().filter(|e| **e == Event::End).count();
    assert_eq!(ends, 1);
}

#[test]
fn every_valid_line_is_delivered_once() {
    let mut input = Vec::new();
    let mut expected = vec![Event::Start];
    for i in 0..250 {
        let line = format!("record-{}", i);
        input.extend_from_slice(line.as_bytes());
        input.push(b'\n');
        expected.push(Event::Entry(line));
    }
    expected.push(Event::End);
    let (events, values) = record(&input);
    assert_eq!(events.len(), 252);
    assert_eq!(events, expected);
    assert_eq!(values.len(), 250);
    assert_eq!(values[0], "record-0");
    assert_eq!(values[249], "record-249");
}

#[test]
fn invalid_lines_drop_out_and_the_rest_keep_their_order() {
    let (events, values) = record(b"\xff\none\n\xc3\n\x80\ntwo\n\xfe\xff\nthree\n\xf8");
    assert_eq!(
        events,
        vec![Event::Start, entry("one"), entry("two"), entry("three"), Event::End]
    );
    assert_eq!(
        values,
        vec!["one".to_string(), "two".to_string(), "three".to_string()]
    );
}

#[test]
fn only_invalid_lines_give_no_entry() {
    let (events, values) = record(b"\xff\n\xfe\n\xc0\x80\n");
    assert_eq!(events, vec![Event::Start, Event::End]);
    assert!(values.is_empty());
}

#[test]
fn equal_lines_are_each_delivered() {
    let (events, _) = record(b"same\nsame\nsame\n");
    assert_eq!(
        events,
        vec![Event::Start, entry("same"), entry("same"), entry("same"), Event::End]
    );
}

#[test]
fn unit_stage_leaves_no_trace() {
    let (stage, ctx) = run_lifecycle((), b"a\nb\n\xff\nc");
    assert_eq!(stage, ());
    assert!(ctx.values.is_empty());
}

#[test]
fn unit_stage_on_empty_input() {
    let (_, ctx) = run_lifecycle((), b"");
    assert!(ctx.values.is_empty());
}

#[test]
fn context_is_fresh_at_start() {
    let ctx = Context::new();
    assert!(ctx.values.is_empty());
}

#[test]
fn recorder_starts_empty() {
    let recorder = Recorder::new();
    assert!(recorder.events.is_empty());
}

#[test]
fn context_carries_what_earlier_hooks_left() {
    let (_, ctx) = run_lifecycle(Recorder::new(), b"k1\nk2\nk3\nk4");
    assert_eq!(
        ctx.values,
        vec![
            "k1".to_string(),
            "k2".to_string(),
            "k3".to_string(),
            "k4".to_string()
        ]
    );
}

#[test]
fn each_run_has_a_context_of_its_own() {
    let (_, first) = run_lifecycle(Recorder::new(), b"a\nb\n");
    let (_, second) = run_lifecycle(Recorder::new(), b"c\n");
    assert_eq!(first.values, vec!["a".to_string(), "b".to_string()]);
    assert_eq!(second.values, vec!["c".to_string()]);
}

#[test]
fn a_recorder_that_has_run_keeps_its_record_in_a_second_run() {
    let (recorder, _) = run_lifecycle(Recorder::new(), b"a\n");
    let (recorder, ctx) = run_lifecycle(recorder, b"b\n");
    assert_eq!(
        recorder.events,
        vec![
            Event::Start,
            entry("a"),
            Event::End,
            Event::Start,
            entry("b"),
            Event::End
        ]
    );
    assert_eq!(ctx.values, vec!["b".to_string()]);
}

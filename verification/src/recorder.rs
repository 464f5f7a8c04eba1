//! A stage that keeps a record of what it is handed.
use crate::context::Context;
use crate::io::{delivered, enter_all, lemma_all_valid_all_delivered, run_over, Lifecycle};
use vstd::prelude::*;
use vstd::utf8::{decode_utf8, valid_utf8};

verus! {

/// One hook call, as a recorder keeps it.
#[derive(Debug, PartialEq, Eq)]
pub enum Event {
    /// The start hook fired.
    Start,
    /// The entry hook took this text.
    Entry(String),
    /// The end hook fired.
    End,
}

/// One hook call, as the contracts see it.
pub enum Call {
    /// The start hook fired.
    Start,
    /// The entry hook took this text.
    Entry(Seq<char>),
    /// The end hook fired.
    End,
}

impl View for Event {
    type V = Call;

    open spec fn view(&self) -> Call {
        match self {
            Event::Start => Call::Start,
            Event::Entry(text) => Call::Entry(text@),
            Event::End => Call::End,
        }
    }
}

impl DeepView for Event {
    type V = Call;

    open spec fn deep_view(&self) -> Call {
        self@
    }
}

/// A stage that writes down every hook call in the order in which the calls
/// come, and leaves each text it takes in the context.
pub struct Recorder {
    /// The calls so far, the first of them first.
    pub events: Vec<Event>,
}

impl View for Recorder {
    type V = Seq<Call>;

    open spec fn view(&self) -> Seq<Call> {
        self.events.deep_view()
    }
}

impl Recorder {
    /// A recorder that has seen no call yet.
    pub fn new() -> (recorder: Recorder)
        ensures
            recorder@ == Seq::<Call>::empty(),
    {
        let recorder = Recorder { events: Vec::new() };
        assert(recorder.events.deep_view() =~= Seq::<Call>::empty());
        recorder
    }
}

impl Lifecycle for Recorder {
    open spec fn started(stage: Seq<Call>, ctx: Seq<Seq<char>>) -> (Seq<Call>, Seq<Seq<char>>) {
        (stage.push(Call::Start), ctx)
    }

    open spec fn entered(stage: Seq<Call>, input: Seq<char>, ctx: Seq<Seq<char>>) -> (
        Seq<Call>,
        Seq<Seq<char>>,
    ) {
        (stage.push(Call::Entry(input)), ctx.push(input))
    }

    open spec fn ended(stage: Seq<Call>, ctx: Seq<Seq<char>>) -> (Seq<Call>, Seq<Seq<char>>) {
        (stage.push(Call::End), ctx)
    }

    fn on_start(&mut self, _ctx: &mut Context) {
        self.events.push(Event::Start);
        assert(self.events.deep_view() =~= old(self).events.deep_view().push(Call::Start));
    }

    fn on_entry(&mut self, input: String, ctx: &mut Context) {
        ctx.values.push(input.clone());
        assert(ctx.values.deep_view() =~= old(ctx).values.deep_view().push(input@));
        self.events.push(Event::Entry(input));
        assert(self.events.deep_view() =~= old(self).events.deep_view().push(Call::Entry(input@)));
    }

    fn on_end(&mut self, _ctx: &mut Context) {
        self.events.push(Event::End);
        assert(self.events.deep_view() =~= old(self).events.deep_view().push(Call::End));
    }
}

/// The entry calls that a recorder writes down for `texts`.
pub open spec fn entries(texts: Seq<Seq<char>>) -> Seq<Call> {
    texts.map_values(|text: Seq<char>| Call::Entry(text))
}

/// What a recorder has written down at the end of a run, whatever the stream
/// held: one start, then one entry for each text handed over, in the order of
/// the stream, then one end. The context holds those texts in the same order.
pub proof fn lemma_recorded_run(lines: Seq<Seq<u8>>)
    ensures
        run_over::<Recorder>(Seq::empty(), lines) == (
            seq![Call::Start] + entries(delivered(lines)) + seq![Call::End],
            delivered(lines),
        ),
{
    let texts = delivered(lines);
    lemma_recorded_entries(seq![Call::Start], Context::fresh(), texts);
    assert(Seq::<Call>::empty().push(Call::Start) =~= seq![Call::Start]);
    assert((seq![Call::Start] + entries(texts)).push(Call::End) =~= seq![Call::Start] + entries(
        texts,
    ) + seq![Call::End]);
    assert(Context::fresh() + texts =~= texts);
}

/// The start hook fires exactly once, before every other call: the record of
/// a run begins with the start, and no later call is a start.
pub proof fn lemma_start_once_and_first(lines: Seq<Seq<u8>>)
    ensures
        ({
            let calls = run_over::<Recorder>(Seq::empty(), lines).0;
            &&& calls.len() == delivered(lines).len() + 2
            &&& calls[0] == Call::Start
            &&& forall|i: int| 0 < i < calls.len() ==> calls[i] != Call::Start
        }),
{
    lemma_recorded_run(lines);
}

/// The end hook fires exactly once, after every other call: the record of a
/// run closes with the end, and no earlier call is an end.
pub proof fn lemma_end_once_and_last(lines: Seq<Seq<u8>>)
    ensures
        ({
            let calls = run_over::<Recorder>(Seq::empty(), lines).0;
            &&& calls.len() == delivered(lines).len() + 2
            &&& calls.last() == Call::End
            &&& forall|i: int| 0 <= i < calls.len() - 1 ==> calls[i] != Call::End
        }),
{
    lemma_recorded_run(lines);
}

/// Where every line is valid UTF-8, the entry hook fires once for each line,
/// on the text of that line, in the order of the lines.
pub proof fn lemma_all_valid_all_recorded(lines: Seq<Seq<u8>>)
    requires
        forall|i: int| 0 <= i < lines.len() ==> valid_utf8(#[trigger] lines[i]),
    ensures
        ({
            let calls = run_over::<Recorder>(Seq::empty(), lines).0;
            &&& calls.len() == lines.len() + 2
            &&& forall|i: int|
                0 <= i < lines.len() ==> calls[i + 1] == Call::Entry(
                    decode_utf8(#[trigger] lines[i]),
                )
        }),
{
    lemma_recorded_run(lines);
    lemma_all_valid_all_delivered(lines);
    let calls = run_over::<Recorder>(Seq::empty(), lines).0;
    assert forall|i: int| 0 <= i < lines.len() implies calls[i + 1] == Call::Entry(
        decode_utf8(#[trigger] lines[i]),
    ) by {
        assert(calls[i + 1] == entries(delivered(lines))[i]);
        assert(delivered(lines)[i] == decode_utf8(lines[i]));
    }
}

proof fn lemma_recorded_entries(stage: Seq<Call>, ctx: Seq<Seq<char>>, texts: Seq<Seq<char>>)
    ensures
        enter_all::<Recorder>(stage, ctx, texts) == (stage + entries(texts), ctx + texts),
    decreases texts.len(),
{
    if texts.len() == 0 {
        assert(stage + entries(texts) =~= stage);
        assert(ctx + texts =~= ctx);
    } else {
        let first = texts.first();
        let rest = texts.drop_first();
        lemma_recorded_entries(stage.push(Call::Entry(first)), ctx.push(first), rest);
        assert(stage.push(Call::Entry(first)) + entries(rest) =~= stage + entries(texts));
        assert(ctx.push(first) + rest =~= ctx + texts);
    }
}

} // verus!

//! Binding a stage to a stream of lines.
//!
//! A run fires the start hook once, then the entry hook once for each line
//! that is valid UTF-8, in the order of the stream, then the end hook once. A
//! line that could not be read, or that is not valid UTF-8, is passed over
//! and the run goes on.
use crate::context::Context;
use crate::lines::{
    after_first_line, lemma_after_first_line_shorter, lines_of, next_line, open_lines, unread,
};
use vstd::prelude::*;
use vstd::utf8::{decode_utf8, valid_utf8};

verus! {

/// The error of `String::from_utf8`. Nothing in this crate looks inside it.
#[verifier::external_type_specification]
#[verifier::external_body]
pub struct ExFromUtf8Error(std::string::FromUtf8Error);

/// `String::from_utf8` of the standard library. Nothing is proved of it. The
/// contract claims that it returns `Ok` exactly for the byte vectors that
/// are valid UTF-8, and that the string then holds the characters that the
/// bytes encode.
pub assume_specification[ String::from_utf8 ](vec: Vec<u8>) -> (text: Result<
    String,
    std::string::FromUtf8Error,
>)
    ensures
        text is Ok <==> valid_utf8(vec@),
        text matches Ok(s) ==> s@ == decode_utf8(vec@),
;

/// A stage of a job: what reacts to the start of a stream, to each of its
/// lines and to its end.
///
/// The contracts speak of a stage by its view. For each hook a spec function
/// says what the hook makes of the stage and of the context, and the hook
/// has to do exactly that. The spec functions given here change nothing: a
/// stage that has no use for an event keeps the one given and writes a hook
/// with an empty body.
pub trait Lifecycle: View + Sized {
    /// The stage and the context after the start hook.
    open spec fn started(stage: Self::V, ctx: Seq<Seq<char>>) -> (Self::V, Seq<Seq<char>>) {
        (stage, ctx)
    }

    /// The stage and the context after the entry hook has taken `input`.
    open spec fn entered(stage: Self::V, input: Seq<char>, ctx: Seq<Seq<char>>) -> (
        Self::V,
        Seq<Seq<char>>,
    ) {
        (stage, ctx)
    }

    /// The stage and the context after the end hook.
    open spec fn ended(stage: Self::V, ctx: Seq<Seq<char>>) -> (Self::V, Seq<Seq<char>>) {
        (stage, ctx)
    }

    /// Fires when a run begins, before any line is handed over.
    fn on_start(&mut self, ctx: &mut Context)
        ensures
            (final(self)@, final(ctx)@) == Self::started(old(self)@, old(ctx)@),
    ;

    /// Takes the text of one line.
    fn on_entry(&mut self, input: String, ctx: &mut Context)
        ensures
            (final(self)@, final(ctx)@) == Self::entered(old(self)@, input@, old(ctx)@),
    ;

    /// Fires when a run ends, after the last line.
    fn on_end(&mut self, ctx: &mut Context)
        ensures
            (final(self)@, final(ctx)@) == Self::ended(old(self)@, old(ctx)@),
    ;
}

/// The stage that has no use for any event.
impl Lifecycle for () {
    fn on_start(&mut self, _ctx: &mut Context) {
    }

    fn on_entry(&mut self, _input: String, _ctx: &mut Context) {
    }

    fn on_end(&mut self, _ctx: &mut Context) {
    }
}

/// The text that a line holds, where its bytes are valid UTF-8.
pub open spec fn decoded(line: Seq<u8>) -> Option<Seq<char>> {
    if valid_utf8(line) {
        Some(decode_utf8(line))
    } else {
        None
    }
}

/// The texts that a stage is handed for `lines`: those of the lines that are
/// valid UTF-8, in the order of the lines.
pub open spec fn delivered(lines: Seq<Seq<u8>>) -> Seq<Seq<char>> {
    lines.filter(|line: Seq<u8>| valid_utf8(line)).map_values(|line: Seq<u8>| decode_utf8(line))
}

/// The stage and the context after one line of raw bytes: the entry hook has
/// taken the line's text where the bytes are valid UTF-8, and nothing has
/// changed where they are not.
pub open spec fn after_line<L: Lifecycle>(stage: L::V, ctx: Seq<Seq<char>>, line: Seq<u8>) -> (
    L::V,
    Seq<Seq<char>>,
) {
    match decoded(line) {
        Some(text) => L::entered(stage, text, ctx),
        None => (stage, ctx),
    }
}

/// The stage and the context once the entry hook has taken each of `texts`,
/// the first of them first.
pub open spec fn enter_all<L: Lifecycle>(
    stage: L::V,
    ctx: Seq<Seq<char>>,
    texts: Seq<Seq<char>>,
) -> (L::V, Seq<Seq<char>>)
    decreases texts.len(),
{
    if texts.len() == 0 {
        (stage, ctx)
    } else {
        let next = L::entered(stage, texts.first(), ctx);
        enter_all::<L>(next.0, next.1, texts.drop_first())
    }
}

/// The stage and the context at the end of a run over `lines` that began
/// with `stage`: the start hook on a fresh context, the entry hook on each
/// text handed over, the end hook.
pub open spec fn run_over<L: Lifecycle>(stage: L::V, lines: Seq<Seq<u8>>) -> (
    L::V,
    Seq<Seq<char>>,
) {
    let begun = L::started(stage, Context::fresh());
    let fed = enter_all::<L>(begun.0, begun.1, delivered(lines));
    L::ended(fed.0, fed.1)
}

/// A run in progress: a stage whose start hook has fired and whose end hook
/// has not, with the context of the run.
///
/// `start` is the only way to make one and `finish` uses it up, so between
/// the two stand one start hook in front, one end hook behind, and the entry
/// hooks of `feed` in the order of the calls.
pub struct Run<L: Lifecycle> {
    lifecycle: L,
    ctx: Context,
}

impl<L: Lifecycle> Run<L> {
    /// The stage of the run, by its view.
    pub closed spec fn stage(&self) -> L::V {
        self.lifecycle@
    }

    /// The context of the run, by its view.
    pub closed spec fn context(&self) -> Seq<Seq<char>> {
        self.ctx@
    }

    /// Begins a run: makes its context and fires the start hook.
    pub fn start(lifecycle: L) -> (run: Run<L>)
        ensures
            (run.stage(), run.context()) == L::started(lifecycle@, Context::fresh()),
    {
        let mut run = Run { lifecycle, ctx: Context::new() };
        run.lifecycle.on_start(&mut run.ctx);
        run
    }

    /// Takes what one read of the stream gave. A line that is valid UTF-8
    /// goes to the entry hook as text. A line that is not, and a read that
    /// failed, change nothing.
    pub fn feed<E>(&mut self, read: Result<Vec<u8>, E>)
        ensures
            (final(self).stage(), final(self).context()) == match read {
                Ok(line) => after_line::<L>(old(self).stage(), old(self).context(), line@),
                Err(_) => (old(self).stage(), old(self).context()),
            },
    {
        if let Ok(line) = read {
            if let Ok(input) = String::from_utf8(line) {
                self.lifecycle.on_entry(input, &mut self.ctx);
            }
        }
    }

    /// Ends the run: fires the end hook and hands back the stage and the
    /// context.
    pub fn finish(self) -> (done: (L, Context))
        ensures
            (done.0@, done.1@) == L::ended(self.stage(), self.context()),
    {
        let mut run = self;
        run.lifecycle.on_end(&mut run.ctx);
        (run.lifecycle, run.ctx)
    }
}

/// Runs a stage over the lines of `input` and hands back the stage and the
/// context of the run.
///
/// The start hook fires once, on a fresh context. Then the entry hook takes
/// the text of each line that is valid UTF-8, in the order of the lines; a
/// line that is not valid UTF-8 is passed over. Then the end hook fires once.
pub fn run_lifecycle<L: Lifecycle>(lifecycle: L, input: &[u8]) -> (done: (L, Context))
    ensures
        (done.0@, done.1@) == run_over::<L>(lifecycle@, lines_of(input@)),
{
    let mut run = Run::start(lifecycle);
    let mut reader = open_lines(input);
    loop
        invariant
            run_over::<L>(lifecycle@, lines_of(input@)) == ({
                let fed = enter_all::<L>(
                    run.stage(),
                    run.context(),
                    delivered(lines_of(unread(reader))),
                );
                L::ended(fed.0, fed.1)
            }),
        ensures
            run_over::<L>(lifecycle@, lines_of(input@)) == L::ended(run.stage(), run.context()),
        decreases unread(reader).len(),
    {
        let ghost rest = unread(reader);
        match next_line(&mut reader) {
            Some(read) => {
                proof {
                    lemma_after_first_line_shorter(rest);
                    lemma_enter_all_first::<L>(run.stage(), run.context(), lines_of(rest));
                    assert(lines_of(rest).drop_first() =~= lines_of(after_first_line(rest)));
                }
                run.feed(read);
            },
            None => {
                break ;
            },
        }
    }
    run.finish()
}

/// The first line of a stream is handed over first, if it is valid UTF-8,
/// and the lines after it follow in their own order.
pub proof fn lemma_delivered_first(lines: Seq<Seq<u8>>)
    requires
        lines.len() > 0,
    ensures
        delivered(lines) == match decoded(lines.first()) {
            Some(text) => seq![text] + delivered(lines.drop_first()),
            None => delivered(lines.drop_first()),
        },
{
    lemma_delivered_around(Seq::empty(), lines.first(), lines.drop_first());
    lemma_delivered_none();
    assert(lines =~= Seq::<Seq<u8>>::empty() + seq![lines.first()] + lines.drop_first());
}

/// Handing over the texts of some lines is handing over the first line and
/// then the texts of the lines after it.
pub proof fn lemma_enter_all_first<L: Lifecycle>(
    stage: L::V,
    ctx: Seq<Seq<char>>,
    lines: Seq<Seq<u8>>,
)
    requires
        lines.len() > 0,
    ensures
        enter_all::<L>(stage, ctx, delivered(lines)) == ({
            let next = after_line::<L>(stage, ctx, lines.first());
            enter_all::<L>(next.0, next.1, delivered(lines.drop_first()))
        }),
{
    lemma_delivered_first(lines);
    if let Some(text) = decoded(lines.first()) {
        let rest = delivered(lines.drop_first());
        assert((seq![text] + rest).drop_first() =~= rest);
    }
}

/// Where every line is valid UTF-8, every line is handed over: as many texts
/// as lines, each the text of the line in the same place.
pub proof fn lemma_all_valid_all_delivered(lines: Seq<Seq<u8>>)
    requires
        forall|i: int| 0 <= i < lines.len() ==> valid_utf8(#[trigger] lines[i]),
    ensures
        delivered(lines).len() == lines.len(),
        forall|i: int|
            0 <= i < lines.len() ==> #[trigger] delivered(lines)[i] == decode_utf8(lines[i]),
    decreases lines.len(),
{
    if lines.len() == 0 {
        lemma_delivered_none();
    } else {
        let rest = lines.drop_first();
        assert forall|i: int| 0 <= i < rest.len() implies valid_utf8(#[trigger] rest[i]) by {
            assert(rest[i] == lines[i + 1]);
        }
        lemma_all_valid_all_delivered(rest);
        lemma_delivered_first(lines);
        assert(valid_utf8(lines[0]));
        assert forall|i: int| 0 <= i < lines.len() implies #[trigger] delivered(lines)[i]
            == decode_utf8(lines[i]) by {
            if i > 0 {
                assert(delivered(lines)[i] == delivered(rest)[i - 1]);
                assert(rest[i - 1] == lines[i]);
            }
        }
    }
}

/// Where no line is valid UTF-8, nothing is handed over, and the end hook
/// follows the start hook directly. A stream without lines is such a stream.
pub proof fn lemma_none_valid_none_delivered<L: Lifecycle>(stage: L::V, lines: Seq<Seq<u8>>)
    requires
        forall|i: int| 0 <= i < lines.len() ==> !valid_utf8(#[trigger] lines[i]),
    ensures
        delivered(lines).len() == 0,
        run_over::<L>(stage, lines) == ({
            let begun = L::started(stage, Context::fresh());
            L::ended(begun.0, begun.1)
        }),
    decreases lines.len(),
{
    if lines.len() == 0 {
        lemma_delivered_none();
    } else {
        let rest = lines.drop_first();
        assert forall|i: int| 0 <= i < rest.len() implies !valid_utf8(#[trigger] rest[i]) by {
            assert(rest[i] == lines[i + 1]);
        }
        lemma_none_valid_none_delivered::<L>(stage, rest);
        lemma_delivered_first(lines);
        assert(!valid_utf8(lines[0]));
    }
}

/// What is handed over for a stream is what is handed over for its lines one
/// after the other: the texts for `before`, then the text of `line` if it is
/// valid UTF-8 and nothing if it is not, then the texts for `after`. So a
/// line that is not valid UTF-8 drops out alone, and the lines around it are
/// handed over as they would be without it, in the order they had.
pub proof fn lemma_delivered_around(before: Seq<Seq<u8>>, line: Seq<u8>, after: Seq<Seq<u8>>)
    ensures
        delivered(before + seq![line] + after) == delivered(before) + match decoded(line) {
            Some(text) => seq![text],
            None => Seq::<Seq<char>>::empty(),
        } + delivered(after),
{
    let valid = |line: Seq<u8>| valid_utf8(line);
    lemma_delivered_concat(before + seq![line], after);
    lemma_delivered_concat(before, seq![line]);
    assert(seq![line].filter(valid) =~= if valid_utf8(line) {
        seq![line]
    } else {
        Seq::empty()
    }) by {
        reveal_with_fuel(Seq::filter, 2);
    }
    assert(delivered(seq![line]) =~= match decoded(line) {
        Some(text) => seq![text],
        None => Seq::<Seq<char>>::empty(),
    });
}

/// What is handed over for two streams in a row is what is handed over for
/// the first, then what is handed over for the second.
pub proof fn lemma_delivered_concat(first: Seq<Seq<u8>>, second: Seq<Seq<u8>>)
    ensures
        delivered(first + second) == delivered(first) + delivered(second),
{
    let valid = |line: Seq<u8>| valid_utf8(line);
    let text = |line: Seq<u8>| decode_utf8(line);
    Seq::filter_distributes_over_add(first, second, valid);
    assert((first.filter(valid) + second.filter(valid)).map_values(text) =~= first.filter(
        valid,
    ).map_values(text) + second.filter(valid).map_values(text));
}

/// A stage whose three hooks change nothing comes out of a run as it went
/// in, and the context comes out fresh, whatever the stream held.
pub proof fn lemma_idle_stage_unchanged<L: Lifecycle>(stage: L::V, lines: Seq<Seq<u8>>)
    requires
        forall|s: L::V, c: Seq<Seq<char>>| #[trigger] L::started(s, c) == (s, c),
        forall|s: L::V, t: Seq<char>, c: Seq<Seq<char>>| #[trigger] L::entered(s, t, c) == (s, c),
        forall|s: L::V, c: Seq<Seq<char>>| #[trigger] L::ended(s, c) == (s, c),
    ensures
        run_over::<L>(stage, lines) == (stage, Context::fresh()),
{
    lemma_idle_entries::<L>(stage, Context::fresh(), delivered(lines));
}

/// The stage `()` comes out of every run as it went in, and leaves the
/// context fresh.
pub proof fn lemma_unit_stage_unchanged(lines: Seq<Seq<u8>>)
    ensures
        run_over::<()>((), lines) == ((), Context::fresh()),
{
    lemma_idle_stage_unchanged::<()>((), lines);
}

proof fn lemma_delivered_none()
    ensures
        delivered(Seq::empty()) == Seq::<Seq<char>>::empty(),
{
    reveal_with_fuel(Seq::filter, 1);
    assert(delivered(Seq::empty()) =~= Seq::<Seq<char>>::empty());
}

proof fn lemma_idle_entries<L: Lifecycle>(stage: L::V, ctx: Seq<Seq<char>>, texts: Seq<Seq<char>>)
    requires
        forall|s: L::V, t: Seq<char>, c: Seq<Seq<char>>| #[trigger] L::entered(s, t, c) == (s, c),
    ensures
        enter_all::<L>(stage, ctx, texts) == (stage, ctx),
    decreases texts.len(),
{
    if texts.len() > 0 {
        lemma_idle_entries::<L>(stage, ctx, texts.drop_first());
    }
}

} // verus!

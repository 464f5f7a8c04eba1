//! The state that belongs to one run of a job.
use vstd::prelude::*;

verus! {

/// What the hooks of one run share.
///
/// A run makes one context before its first hook fires and hands that same
/// context to every hook, so a hook finds in it what earlier hooks left.
pub struct Context {
    /// Texts that hooks leave for the hooks that follow.
    pub values: Vec<String>,
}

impl View for Context {
    type V = Seq<Seq<char>>;

    open spec fn view(&self) -> Seq<Seq<char>> {
        self.values.deep_view()
    }
}

impl Context {
    /// What a context holds before any hook has seen it: nothing.
    pub open spec fn fresh() -> Seq<Seq<char>> {
        Seq::empty()
    }

    /// Makes the context of a new run.
    pub fn new() -> (ctx: Context)
        ensures
            ctx@ == Context::fresh(),
    {
        let ctx = Context { values: Vec::new() };
        assert(ctx.values.deep_view() =~= Seq::<Seq<char>>::empty());
        ctx
    }
}

} // verus!

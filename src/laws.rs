use vstd::prelude::*;

use crate::adapter::{closed_v, handle, step, translation, AdapterError, AdapterV};
use crate::tokens::TokenV;
use crate::events::{EventV, TagV};

verus! {

/// A rule start yields exactly one self-closing `hr` token and consumes
/// exactly the one event that follows it, which yields no token of its own.
pub proof fn lemma_rule_start(s: AdapterV)
    requires
        s.input.len() > 0,
    ensures
        handle(s, EventV::Start(TagV::Rule)) == (
            AdapterV { input: s.input.drop_first(), ..s },
            Some(Ok::<TokenV, AdapterError>(closed_v("hr"@, Seq::empty()))),
        ),
{
}

/// Translating two equal event sequences with the same setting gives equal
/// results: nothing carries over from one translation to another.
pub proof fn lemma_translation_repeatable(a: Seq<EventV>, b: Seq<EventV>, group_text: bool)
    requires
        a == b,
    ensures
        translation(a, group_text) == translation(b, group_text),
{
}

/// The queue of deferred tokens never holds more than one token between two
/// requests: a request either hands out the queued token or defers at most one.
pub proof fn lemma_queue_bounded(s: AdapterV)
    requires
        s.queue.len() <= 1,
    ensures
        step(s).0.queue.len() <= 1,
{
}

} // verus!

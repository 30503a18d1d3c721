use vstd::prelude::*;

use crate::adapter::{
    image_scan_len, is_image_bound, lemma_step_decreases, lemma_text_run_len_bound, measure, run, step,
    tag_name, text_run_len, translation, initial, prepend, AdapterV,
};
use crate::events::{EventV, TagV};
use crate::tokens::TokenV;

verus! {

// ---------------------------------------------------------------------------
// Nesting of events and of tokens
// ---------------------------------------------------------------------------

pub open spec fn has_head(stk: Seq<TagV>) -> bool
    decreases stk.len(),
{
    stk.len() > 0 && (stk.last() is TableHead || has_head(stk.drop_last()))
}

pub open spec fn has_image(stk: Seq<TagV>) -> bool {
    exists|i: int| 0 <= i < stk.len() && #[trigger] stk[i] is Image
}

/// Whether a start event for `t` may come with the tags `stk` open, the next
/// events being `rest`: no footnotes, no image inside an image, no table head
/// inside a table head, and a rule's end right after its start.
pub open spec fn start_allowed(stk: Seq<TagV>, t: TagV, rest: Seq<EventV>) -> bool {
    &&& !(t is FootnoteDefinition)
    &&& !(t is Image && has_image(stk))
    &&& !(t is TableHead && has_head(stk))
    &&& (t is Rule ==> rest.len() > 0 && rest[0] == EventV::End(TagV::Rule))
}

/// Whether `evs`, read with the tags `stk` open, closes each open tag with an
/// end event equal to its start, in nesting order, and keeps to
/// [`start_allowed`] and away from footnote references.
pub open spec fn nested_from(stk: Seq<TagV>, evs: Seq<EventV>) -> bool
    decreases evs.len(),
{
    if evs.len() == 0 {
        stk.len() == 0
    } else {
        let rest = evs.drop_first();
        match evs[0] {
            EventV::Start(t) => start_allowed(stk, t, rest) && nested_from(stk.push(t), rest),
            EventV::End(t) => stk.len() > 0 && stk.last() == t && nested_from(stk.drop_last(), rest),
            EventV::FootnoteReference(_) => false,
            _ => nested_from(stk, rest),
        }
    }
}

/// A well-formed event sequence, as a markdown parser produces it.
pub open spec fn well_nested(evs: Seq<EventV>) -> bool {
    nested_from(Seq::empty(), evs)
}

/// The element names open after `t`, with `stk` open before it; `None` for
/// an end tag that does not close the innermost open element.
pub open spec fn apply_token(stk: Seq<Seq<char>>, t: TokenV) -> Option<Seq<Seq<char>>> {
    match t {
        TokenV::StartTag { name, attrs: _, self_closing } => if self_closing {
            Some(stk)
        } else {
            Some(stk.push(name))
        },
        TokenV::EndTag { name } => if stk.len() > 0 && stk.last() == name {
            Some(stk.drop_last())
        } else {
            None
        },
        _ => Some(stk),
    }
}

/// The element names open after `toks`, with `stk` open before them.
pub open spec fn open_after(stk: Seq<Seq<char>>, toks: Seq<TokenV>) -> Option<Seq<Seq<char>>>
    decreases toks.len(),
{
    if toks.len() == 0 {
        Some(stk)
    } else {
        match apply_token(stk, toks[0]) {
            Some(next) => open_after(next, toks.drop_first()),
            None => None,
        }
    }
}

/// Every start token that is not self-closing is closed by exactly one later
/// end token of the same name, properly nested, and no end token is left over.
pub open spec fn balanced(toks: Seq<TokenV>) -> bool {
    open_after(Seq::empty(), toks) == Some(Seq::<Seq<char>>::empty())
}

// ---------------------------------------------------------------------------
// The correspondence between open tags and open elements
// ---------------------------------------------------------------------------

/// The elements that an open tag stands for.
pub open spec fn names_of(t: TagV, in_head: bool) -> Seq<Seq<char>> {
    match t {
        TagV::CodeBlock(_) => seq!["pre"@, "code"@],
        _ => seq![tag_name(t, in_head)],
    }
}

pub open spec fn out_names(stk: Seq<TagV>) -> Seq<Seq<char>>
    decreases stk.len(),
{
    if stk.len() == 0 {
        Seq::empty()
    } else {
        out_names(stk.drop_last()) + names_of(stk.last(), has_head(stk.drop_last()))
    }
}

/// Tags that the adapter can leave open between two requests.
pub open spec fn clean(stk: Seq<TagV>) -> bool
    decreases stk.len(),
{
    stk.len() == 0 || {
        let t = stk.last();
        let below = stk.drop_last();
        &&& clean(below)
        &&& !(t is Rule) && !(t is Image) && !(t is FootnoteDefinition)
        &&& !(t is TableHead && has_head(below))
    }
}

/// The events still to be handled: the lookahead event, then the input.
pub open spec fn pending(s: AdapterV) -> Seq<EventV> {
    match s.looka {
        Some(e) => seq![e] + s.input,
        None => s.input,
    }
}

pub open spec fn adapter_inv(s: AdapterV, ostk: Seq<Seq<char>>, istk: Seq<TagV>) -> bool {
    &&& nested_from(istk, pending(s))
    &&& clean(istk)
    &&& s.table_head == has_head(istk)
    &&& open_after(ostk, s.queue) == Some(out_names(istk))
}

/// The open tags after the adapter handled `e`.
pub open spec fn stack_after(istk: Seq<TagV>, e: EventV) -> Seq<TagV> {
    match e {
        EventV::Start(t) => if t is Rule || t is Image { istk } else { istk.push(t) },
        EventV::End(_) => istk.drop_last(),
        _ => istk,
    }
}

proof fn lemma_skip_textual(stk: Seq<TagV>, evs: Seq<EventV>, n: nat)
    requires
        nested_from(stk, evs),
        n <= text_run_len(evs),
    ensures
        nested_from(stk, evs.skip(n as int)),
    decreases n,
{
    if n == 0 {
        assert(evs.skip(0) =~= evs);
    } else {
        lemma_text_run_len_bound(evs);
        lemma_skip_textual(stk, evs.drop_first(), (n - 1) as nat);
        assert(evs.drop_first().skip(n - 1) =~= evs.skip(n as int));
    }
}

proof fn lemma_image_scan(p: Seq<TagV>, img: TagV, x: Seq<TagV>, evs: Seq<EventV>)
    requires
        img is Image,
        !has_image(p),
        !has_image(x),
        nested_from(p.push(img) + x, evs),
    ensures
        image_scan_len(evs) < evs.len(),
        evs[image_scan_len(evs) as int] == EventV::End(img),
        nested_from(p, evs.skip(image_scan_len(evs) + 1 as int)),
    decreases evs.len(),
{
    let stk = p.push(img) + x;
    assert(stk[p.len() as int] is Image);
    if evs.len() > 0 {
        let rest = evs.drop_first();
        assert(evs.skip(1) =~= rest);
        if is_image_bound(evs[0]) {
            if let EventV::End(t) = evs[0] {
                if x.len() > 0 {
                    assert(x[x.len() - 1] is Image);
                }
                assert(stk =~= p.push(img));
                assert(stk.drop_last() =~= p);
            }
        } else {
            match evs[0] {
                EventV::Start(t) => {
                    assert(stk.push(t) =~= p.push(img) + x.push(t));
                    assert forall|i: int| 0 <= i < x.push(t).len() implies !(#[trigger] x.push(t)[i] is Image) by {
                        if i < x.len() {
                            assert(x.push(t)[i] == x[i]);
                        }
                    }
                    lemma_image_scan(p, img, x.push(t), rest);
                },
                EventV::End(t) => {
                    if x.len() == 0 {
                        assert(stk =~= p.push(img));
                    }
                    assert(x.len() > 0);
                    assert(stk.drop_last() =~= p.push(img) + x.drop_last());
                    assert forall|i: int| 0 <= i < x.drop_last().len() implies !(#[trigger] x.drop_last()[i] is Image) by {
                        assert(x.drop_last()[i] == x[i]);
                    }
                    lemma_image_scan(p, img, x.drop_last(), rest);
                },
                _ => {
                    lemma_image_scan(p, img, x, rest);
                },
            }
            assert(rest.skip(image_scan_len(rest) + 1 as int) =~= evs.skip(image_scan_len(evs) + 1 as int));
        }
    }
}

/// One request with an empty queue keeps the correspondence between open
/// tags and open elements.
proof fn lemma_handle_inv(s: AdapterV, ostk: Seq<Seq<char>>, istk: Seq<TagV>)
    requires
        adapter_inv(s, ostk, istk),
        s.queue.len() == 0,
        pending(s).len() > 0,
    ensures
        step(s).1 is Some,
        step(s).1->0 is Ok,
        apply_token(ostk, step(s).1->0->Ok_0) is Some,
        adapter_inv(
            step(s).0,
            apply_token(ostk, step(s).1->0->Ok_0)->0,
            stack_after(istk, pending(s)[0]),
        ),
{
    let p = pending(s);
    let e = p[0];
    let rest = p.drop_first();
    let s1 = AdapterV { looka: None, input: rest, ..s };
    if s.looka is Some {
        assert(rest =~= s.input);
    }
    assert(step(s) == crate::adapter::handle(s1, e));
    assert(ostk == out_names(istk));
    assert(pending(s1) == rest);
    let empty_q = Seq::<TokenV>::empty();
    assert(open_after(ostk, empty_q) == Some(ostk));
    match e {
        EventV::Start(t) => {
            let up = istk.push(t);
            assert(up.drop_last() =~= istk);
            assert(up.last() == t);
            match t {
                TagV::Rule => {
                    let r2 = rest.drop_first();
                    assert(nested_from(up, rest));
                    reveal_with_fuel(nested_from, 2);
                    assert(nested_from(istk, r2));
                    assert(pending(step(s).0) == r2);
                },
                TagV::Image(_, _) => {
                    assert(up + Seq::<TagV>::empty() =~= up);
                    lemma_image_scan(istk, t, Seq::empty(), rest);
                    let n = image_scan_len(rest);
                    assert(pending(step(s).0) == rest.skip(n + 1 as int));
                },
                TagV::TableHead => {
                    assert(out_names(up) =~= ostk.push("tr"@));
                },
                TagV::CodeBlock(_) => {
                    let o2 = ostk.push("pre"@);
                    let q = seq![TokenV::StartTag { name: "code"@, attrs: Seq::empty(), self_closing: false }];
                    assert(q.drop_first() =~= Seq::<TokenV>::empty());
                    assert(open_after(o2.push("code"@), Seq::<TokenV>::empty()) == Some(o2.push("code"@)));
                    assert(out_names(up) =~= o2.push("code"@));
                    assert(step(s).0.queue =~= q);
                },
                TagV::FootnoteDefinition(_) => {},
                _ => {
                    assert(out_names(up) =~= ostk.push(tag_name(t, has_head(istk))));
                },
            }
        },
        EventV::End(t) => {
            let below = istk.drop_last();
            assert(istk.len() > 0);
            assert(out_names(istk) == out_names(below) + names_of(t, has_head(below)));
            match t {
                TagV::TableHead => {
                    assert(ostk.drop_last() =~= out_names(below));
                },
                TagV::CodeBlock(_) => {
                    let o2 = ostk.drop_last();
                    let q = seq![TokenV::EndTag { name: "pre"@ }];
                    assert(q.drop_first() =~= Seq::<TokenV>::empty());
                    assert(o2 =~= out_names(below).push("pre"@));
                    assert(o2.drop_last() =~= out_names(below));
                    assert(open_after(o2.drop_last(), Seq::<TokenV>::empty()) == Some(o2.drop_last()));
                    assert(step(s).0.queue =~= q);
                },
                _ => {
                    assert(ostk.drop_last() =~= out_names(below));
                },
            }
        },
        EventV::Text(x) => {
            lemma_text_run_len_bound(rest);
            lemma_skip_textual(istk, rest, text_run_len(rest));
            let n = text_run_len(rest);
            if s.group_text && n < rest.len() {
                assert(seq![rest[n as int]] + rest.skip(n + 1 as int) =~= rest.skip(n as int));
            } else if s.group_text {
                assert(rest.skip(n as int) =~= Seq::<EventV>::empty());
            }
        },
        EventV::SoftBreak => {
            lemma_text_run_len_bound(rest);
            lemma_skip_textual(istk, rest, text_run_len(rest));
            let n = text_run_len(rest);
            if s.group_text && n < rest.len() {
                assert(seq![rest[n as int]] + rest.skip(n + 1 as int) =~= rest.skip(n as int));
            } else if s.group_text {
                assert(rest.skip(n as int) =~= Seq::<EventV>::empty());
            }
        },
        _ => {},
    }
}

/// A request that hands out a queued token keeps the correspondence.
proof fn lemma_queue_inv(s: AdapterV, ostk: Seq<Seq<char>>, istk: Seq<TagV>)
    requires
        adapter_inv(s, ostk, istk),
        s.queue.len() > 0,
    ensures
        step(s).1 is Some,
        step(s).1->0 is Ok,
        apply_token(ostk, step(s).1->0->Ok_0) is Some,
        adapter_inv(step(s).0, apply_token(ostk, step(s).1->0->Ok_0)->0, istk),
{
    assert(pending(step(s).0) == pending(s));
}

proof fn lemma_run_balanced(s: AdapterV, ostk: Seq<Seq<char>>, istk: Seq<TagV>)
    requires
        adapter_inv(s, ostk, istk),
    ensures
        run(s) is Ok,
        open_after(ostk, run(s)->Ok_0) == Some(Seq::<Seq<char>>::empty()),
    decreases measure(s),
{
    lemma_step_decreases(s);
    if s.queue.len() == 0 && pending(s).len() == 0 {
        assert(s.looka is None);
        assert(istk.len() == 0);
        assert(open_after(ostk, Seq::<TokenV>::empty()) == Some(ostk));
    } else {
        let istk2 = if s.queue.len() > 0 { istk } else { stack_after(istk, pending(s)[0]) };
        if s.queue.len() > 0 {
            lemma_queue_inv(s, ostk, istk);
        } else {
            lemma_handle_inv(s, ostk, istk);
        }
        let s2 = step(s).0;
        let t = step(s).1->0->Ok_0;
        let o2 = apply_token(ostk, t)->0;
        lemma_run_balanced(s2, o2, istk2);
        let ts = run(s2)->Ok_0;
        assert(run(s) == prepend(seq![t], run(s2)));
        assert((seq![t] + ts)[0] == t);
        assert((seq![t] + ts).drop_first() =~= ts);
    }
}

/// For a well-nested event sequence the translation succeeds, and every start
/// token that is not self-closing is closed by exactly one later end token of
/// the same name, properly nested.
pub proof fn lemma_output_balanced(events: Seq<EventV>, group_text: bool)
    requires
        well_nested(events),
    ensures
        translation(events, group_text) is Ok,
        balanced(translation(events, group_text)->Ok_0),
{
    let s = initial(events, group_text);
    let none = Seq::<Seq<char>>::empty();
    assert(pending(s) == events);
    assert(open_after(none, Seq::<TokenV>::empty()) == Some(none));
    assert(out_names(Seq::<TagV>::empty()) == none);
    lemma_run_balanced(s, none, Seq::empty());
}

} // verus!

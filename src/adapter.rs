use std::collections::VecDeque;
use vstd::prelude::*;

use crate::decimal::{decimal, decimal_string};
use crate::events::{Event, EventV, Tag, TagV};
use crate::tokens::{attrs_view, Token, TokenV};

verus! {

/// Why the translation stopped.
#[derive(Clone, Copy, Debug, PartialEq, Eq, Structural)]
pub enum AdapterError {
    /// A footnote definition or reference: the token vocabulary has no
    /// element for it.
    UnsupportedConstruct,
    /// The event stream broke a nesting guarantee of the parser: an image
    /// inside an image's text, or an end event that no start can have.
    Malformed,
}

// ---------------------------------------------------------------------------
// The model of the translation
// ---------------------------------------------------------------------------

/// Mathematical model of an [`Adapter`].
pub struct AdapterV {
    /// The events not pulled yet.
    pub input: Seq<EventV>,
    /// An event pulled to end a text run, to be handled next.
    pub looka: Option<EventV>,
    /// Tokens already produced and not handed out yet.
    pub queue: Seq<TokenV>,
    /// Whether adjacent text events are merged into one token.
    pub group_text: bool,
    /// Whether the events are inside a table head.
    pub table_head: bool,
}

/// What one request returns: nothing once the stream is done, else a token
/// or the fault that stopped the translation.
pub type StepOut = Option<Result<TokenV, AdapterError>>;

pub open spec fn start_v(name: Seq<char>, attrs: Seq<(Seq<char>, Seq<char>)>) -> TokenV {
    TokenV::StartTag { name, attrs, self_closing: false }
}

pub open spec fn closed_v(name: Seq<char>, attrs: Seq<(Seq<char>, Seq<char>)>) -> TokenV {
    TokenV::StartTag { name, attrs, self_closing: true }
}

pub open spec fn end_v(name: Seq<char>) -> TokenV {
    TokenV::EndTag { name }
}

/// The element name of a tag that maps to one element.
pub open spec fn tag_name(t: TagV, table_head: bool) -> Seq<char> {
    match t {
        TagV::Paragraph => "p"@,
        TagV::Emphasis => "em"@,
        TagV::Strong => "strong"@,
        TagV::Code => "code"@,
        TagV::BlockQuote => "blockquote"@,
        TagV::Header(level) => "h"@ + decimal(level as nat),
        TagV::Rule => "hr"@,
        TagV::Item => "li"@,
        TagV::List(start) => if start is Some { "ol"@ } else { "ul"@ },
        TagV::Table => "table"@,
        TagV::TableHead => "tr"@,
        TagV::TableRow => "tr"@,
        TagV::TableCell => if table_head { "th"@ } else { "td"@ },
        TagV::CodeBlock(_) => "pre"@,
        TagV::Image(_, _) => "img"@,
        TagV::Link(_, _) => "a"@,
        TagV::FootnoteDefinition(_) => Seq::empty(),
    }
}

/// The `title` attribute, present only for a non-empty title.
pub open spec fn title_attr(title: Seq<char>) -> Seq<(Seq<char>, Seq<char>)> {
    if title.len() == 0 { Seq::empty() } else { seq![("title"@, title)] }
}

/// The attributes of the start token of a tag.
pub open spec fn start_attrs(t: TagV) -> Seq<(Seq<char>, Seq<char>)> {
    match t {
        TagV::List(Some(n)) => if n == 1 { Seq::empty() } else { seq![("start"@, decimal(n as nat))] },
        TagV::CodeBlock(lang) => if lang.len() == 0 { Seq::empty() } else { seq![("data-lang"@, lang)] },
        TagV::Link(href, title) => seq![("href"@, href)] + title_attr(title),
        _ => Seq::empty(),
    }
}

/// The attributes of an image token, given its alternative text.
pub open spec fn img_attrs(src: Seq<char>, alt: Seq<char>, title: Seq<char>) -> Seq<(Seq<char>, Seq<char>)> {
    seq![("src"@, src)] + (if alt.len() == 0 { Seq::empty() } else { seq![("alt"@, alt)] }) + title_attr(title)
}

pub open spec fn is_textual(e: EventV) -> bool {
    e is Text || e is SoftBreak
}

/// The text that a text event contributes to a merged text token.
pub open spec fn piece(e: EventV) -> Seq<char> {
    match e {
        EventV::Text(s) => s,
        EventV::SoftBreak => seq!['\n'],
        _ => Seq::empty(),
    }
}

/// The concatenated pieces of a sequence of events.
pub open spec fn joined(evs: Seq<EventV>) -> Seq<char>
    decreases evs.len(),
{
    if evs.len() == 0 { Seq::empty() } else { joined(evs.drop_last()) + piece(evs.last()) }
}

/// The number of leading text events (`Text` or `SoftBreak`).
pub open spec fn text_run_len(evs: Seq<EventV>) -> nat
    decreases evs.len(),
{
    if evs.len() > 0 && is_textual(evs[0]) { 1 + text_run_len(evs.drop_first()) } else { 0 }
}

pub open spec fn is_image_bound(e: EventV) -> bool {
    match e {
        EventV::Start(TagV::Image(_, _)) => true,
        EventV::End(TagV::Image(_, _)) => true,
        _ => false,
    }
}

/// The number of leading events that neither start nor end an image.
pub open spec fn image_scan_len(evs: Seq<EventV>) -> nat
    decreases evs.len(),
{
    if evs.len() > 0 && !is_image_bound(evs[0]) { 1 + image_scan_len(evs.drop_first()) } else { 0 }
}

/// The concatenated `Text` contents of a sequence of events; other events
/// contribute nothing.
pub open spec fn alt_text(evs: Seq<EventV>) -> Seq<char>
    decreases evs.len(),
{
    if evs.len() == 0 {
        Seq::empty()
    } else {
        alt_text(evs.drop_last()) + match evs.last() {
            EventV::Text(s) => s,
            _ => Seq::empty(),
        }
    }
}

/// The events left after the first `n` and the one that follows them.
pub open spec fn skip_past(evs: Seq<EventV>, n: nat) -> Seq<EventV> {
    if n < evs.len() { evs.skip(n + 1 as int) } else { Seq::empty() }
}

/// Handling a text event with content `x`.
pub open spec fn text_step(s: AdapterV, x: Seq<char>) -> (AdapterV, StepOut) {
    if s.group_text {
        let n = text_run_len(s.input);
        let tok = TokenV::Text(x + joined(s.input.take(n as int)));
        if n < s.input.len() {
            (AdapterV { input: s.input.skip(n + 1 as int), looka: Some(s.input[n as int]), ..s }, Some(Ok(tok)))
        } else {
            (AdapterV { input: Seq::empty(), ..s }, Some(Ok(tok)))
        }
    } else {
        (s, Some(Ok(TokenV::Text(x))))
    }
}

/// Handling an image start: its events up to the image end are consumed and
/// their text becomes the `alt` attribute.
pub open spec fn image_step(s: AdapterV, src: Seq<char>, title: Seq<char>) -> (AdapterV, StepOut) {
    let n = image_scan_len(s.input);
    let s2 = AdapterV { input: skip_past(s.input, n), ..s };
    if n < s.input.len() && s.input[n as int] is Start {
        (s2, Some(Err(AdapterError::Malformed)))
    } else {
        (s2, Some(Ok(closed_v("img"@, img_attrs(src, alt_text(s.input.take(n as int)), title)))))
    }
}

/// Handling a start event.
pub open spec fn start_step(s: AdapterV, t: TagV) -> (AdapterV, StepOut) {
    match t {
        TagV::Rule => (
            AdapterV { input: if s.input.len() > 0 { s.input.drop_first() } else { s.input }, ..s },
            Some(Ok(closed_v("hr"@, Seq::empty()))),
        ),
        TagV::TableHead => (AdapterV { table_head: true, ..s }, Some(Ok(start_v("tr"@, Seq::empty())))),
        TagV::CodeBlock(_) => (
            AdapterV { queue: s.queue.push(start_v("code"@, Seq::empty())), ..s },
            Some(Ok(start_v("pre"@, start_attrs(t)))),
        ),
        TagV::Image(src, title) => image_step(s, src, title),
        TagV::FootnoteDefinition(_) => (s, Some(Err(AdapterError::UnsupportedConstruct))),
        _ => (s, Some(Ok(start_v(tag_name(t, s.table_head), start_attrs(t))))),
    }
}

/// Handling an end event.
pub open spec fn end_step(s: AdapterV, t: TagV) -> (AdapterV, StepOut) {
    match t {
        TagV::Rule => (s, Some(Err(AdapterError::Malformed))),
        TagV::Image(_, _) => (s, Some(Err(AdapterError::Malformed))),
        TagV::TableHead => (AdapterV { table_head: false, ..s }, Some(Ok(end_v("tr"@)))),
        TagV::CodeBlock(_) => (
            AdapterV { queue: s.queue.push(end_v("pre"@)), ..s },
            Some(Ok(end_v("code"@))),
        ),
        TagV::FootnoteDefinition(_) => (s, Some(Err(AdapterError::UnsupportedConstruct))),
        _ => (s, Some(Ok(end_v(tag_name(t, s.table_head))))),
    }
}

/// Handling one event taken from the lookahead slot or the input.
pub open spec fn handle(s: AdapterV, e: EventV) -> (AdapterV, StepOut) {
    match e {
        EventV::Start(t) => start_step(s, t),
        EventV::End(t) => end_step(s, t),
        EventV::Text(x) => text_step(s, x),
        EventV::SoftBreak => text_step(s, seq!['\n']),
        EventV::Html(x) => (s, Some(Ok(TokenV::RawText(x)))),
        EventV::InlineHtml(x) => (s, Some(Ok(TokenV::RawText(x)))),
        EventV::HardBreak => (s, Some(Ok(closed_v("br"@, Seq::empty())))),
        EventV::FootnoteReference(_) => (s, Some(Err(AdapterError::UnsupportedConstruct))),
    }
}

/// One request for a token: queued tokens go first, then the lookahead
/// event, then the next input event.
pub open spec fn step(s: AdapterV) -> (AdapterV, StepOut) {
    if s.queue.len() > 0 {
        (AdapterV { queue: s.queue.drop_first(), ..s }, Some(Ok(s.queue[0])))
    } else if s.looka is Some {
        handle(AdapterV { looka: None, ..s }, s.looka->0)
    } else if s.input.len() > 0 {
        handle(AdapterV { input: s.input.drop_first(), ..s }, s.input[0])
    } else {
        (s, None)
    }
}

/// A bound that every request that produces something lowers.
pub open spec fn measure(s: AdapterV) -> nat {
    3 * s.input.len() + s.queue.len() + if s.looka is Some { 2nat } else { 0nat }
}

/// `ts` put in front of the tokens of `r`.
pub open spec fn prepend(ts: Seq<TokenV>, r: Result<Seq<TokenV>, AdapterError>) -> Result<Seq<TokenV>, AdapterError> {
    match r {
        Ok(rest) => Ok(ts + rest),
        Err(e) => Err(e),
    }
}

/// The whole output from state `s` on: all tokens up to the end of the input,
/// or the first fault.
pub open spec fn run(s: AdapterV) -> Result<Seq<TokenV>, AdapterError>
    decreases measure(s),
{
    let (s2, out) = step(s);
    match out {
        None => Ok(Seq::empty()),
        Some(Err(e)) => Err(e),
        Some(Ok(t)) => if measure(s2) < measure(s) {
            prepend(seq![t], run(s2))
        } else {
            Ok(seq![t])
        },
    }
}

/// The output of a translation of `events`.
pub open spec fn translation(events: Seq<EventV>, group_text: bool) -> Result<Seq<TokenV>, AdapterError> {
    run(initial(events, group_text))
}

pub proof fn lemma_text_run_len_bound(evs: Seq<EventV>)
    ensures
        text_run_len(evs) <= evs.len(),
    decreases evs.len(),
{
    if evs.len() > 0 && is_textual(evs[0]) {
        lemma_text_run_len_bound(evs.drop_first());
    }
}

pub proof fn lemma_image_scan_len_bound(evs: Seq<EventV>)
    ensures
        image_scan_len(evs) <= evs.len(),
    decreases evs.len(),
{
    if evs.len() > 0 && !is_image_bound(evs[0]) {
        lemma_image_scan_len_bound(evs.drop_first());
    }
}

/// Every request that produces something lowers the measure, so a run ends.
pub proof fn lemma_step_decreases(s: AdapterV)
    ensures
        step(s).1 is Some ==> measure(step(s).0) < measure(s),
{
    lemma_text_run_len_bound(s.input);
    lemma_image_scan_len_bound(s.input);
    if s.input.len() > 0 {
        lemma_text_run_len_bound(s.input.drop_first());
        lemma_image_scan_len_bound(s.input.drop_first());
    }
}

// ---------------------------------------------------------------------------
// The adapter
// ---------------------------------------------------------------------------

/// Pulls events and hands out tokens, one per call of [`Adapter::next`].
pub struct Adapter {
    input: VecDeque<Event>,
    looka: Option<Event>,
    queue: Vec<Token>,
    group_text: bool,
    table_head: bool,
}

pub open spec fn events_view(evs: Seq<Event>) -> Seq<EventV> {
    evs.map_values(|e: Event| e@)
}

pub open spec fn tokens_view(toks: Seq<Token>) -> Seq<TokenV> {
    toks.map_values(|t: Token| t@)
}

pub open spec fn opt_event_view(e: Option<Event>) -> Option<EventV> {
    match e {
        Some(x) => Some(x@),
        None => None,
    }
}

pub open spec fn out_view(r: Option<Result<Token, AdapterError>>) -> StepOut {
    match r {
        Some(Ok(t)) => Some(Ok(t@)),
        Some(Err(e)) => Some(Err(e)),
        None => None,
    }
}

impl View for Adapter {
    type V = AdapterV;

    closed spec fn view(&self) -> AdapterV {
        AdapterV {
            input: events_view(self.input@),
            looka: opt_event_view(self.looka),
            queue: tokens_view(self.queue@),
            group_text: self.group_text,
            table_head: self.table_head,
        }
    }
}

/// The state of a fresh adapter over `events`.
pub open spec fn initial(events: Seq<EventV>, group_text: bool) -> AdapterV {
    AdapterV { input: events, looka: None, queue: Seq::empty(), group_text, table_head: false }
}

pub open spec fn result_view(r: Result<Token, AdapterError>) -> Result<TokenV, AdapterError> {
    match r {
        Ok(t) => Ok(t@),
        Err(e) => Err(e),
    }
}

fn start_token(name: String, attrs: Vec<(String, String)>) -> (r: Token)
    ensures
        r@ == start_v(name@, attrs_view(attrs@)),
{
    Token::StartTag { name, attrs, self_closing: false }
}

fn closed_token(name: String, attrs: Vec<(String, String)>) -> (r: Token)
    ensures
        r@ == closed_v(name@, attrs_view(attrs@)),
{
    Token::StartTag { name, attrs, self_closing: true }
}

fn bare_start(name: &str) -> (r: Token)
    ensures
        r@ == start_v(name@, Seq::empty()),
{
    let attrs: Vec<(String, String)> = Vec::new();
    assert(attrs_view(attrs@) =~= Seq::empty());
    start_token(String::from_str(name), attrs)
}

fn bare_closed(name: &str) -> (r: Token)
    ensures
        r@ == closed_v(name@, Seq::empty()),
{
    let attrs: Vec<(String, String)> = Vec::new();
    assert(attrs_view(attrs@) =~= Seq::empty());
    closed_token(String::from_str(name), attrs)
}

fn end_token(name: &str) -> (r: Token)
    ensures
        r@ == end_v(name@),
{
    Token::EndTag { name: String::from_str(name) }
}

/// Appends the attribute `name="value"`.
fn push_attr(attrs: &mut Vec<(String, String)>, name: &str, value: String)
    ensures
        attrs_view(final(attrs)@) == attrs_view(old(attrs)@).push((name@, value@)),
{
    attrs.push((String::from_str(name), value));
    assert(attrs_view(attrs@) =~= attrs_view(old(attrs)@).push((name@, value@)));
}

/// Appends a `title` attribute when `title` is not empty.
fn push_title(attrs: &mut Vec<(String, String)>, title: String)
    ensures
        attrs_view(final(attrs)@) == attrs_view(old(attrs)@) + title_attr(title@),
{
    if title.as_str().is_empty() {
        assert(attrs_view(old(attrs)@) + title_attr(title@) =~= attrs_view(old(attrs)@));
    } else {
        push_attr(attrs, "title", title);
        assert(attrs_view(old(attrs)@).push(("title"@, title@)) =~= attrs_view(old(attrs)@)
            + title_attr(title@));
    }
}

/// The element name of a tag that maps to one element.
fn tag_name_of(tag: &Tag, table_head: bool) -> (r: String)
    ensures
        r@ == tag_name(tag@, table_head),
{
    match tag {
        Tag::Paragraph => String::from_str("p"),
        Tag::Emphasis => String::from_str("em"),
        Tag::Strong => String::from_str("strong"),
        Tag::Code => String::from_str("code"),
        Tag::BlockQuote => String::from_str("blockquote"),
        Tag::Header(level) => {
            let mut s = String::from_str("h");
            let digits = decimal_string(*level as u64);
            s.append(digits.as_str());
            s
        },
        Tag::Rule => String::from_str("hr"),
        Tag::Item => String::from_str("li"),
        Tag::List(start) => {
            if start.is_some() {
                String::from_str("ol")
            } else {
                String::from_str("ul")
            }
        },
        Tag::Table => String::from_str("table"),
        Tag::TableHead => String::from_str("tr"),
        Tag::TableRow => String::from_str("tr"),
        Tag::TableCell => {
            if table_head {
                String::from_str("th")
            } else {
                String::from_str("td")
            }
        },
        Tag::CodeBlock(_) => String::from_str("pre"),
        Tag::Image(_, _) => String::from_str("img"),
        Tag::Link(_, _) => String::from_str("a"),
        Tag::FootnoteDefinition(_) => String::new(),
    }
}

/// The self-closing image token.
fn image_token(src: String, alt: String, title: String) -> (r: Token)
    ensures
        r@ == closed_v("img"@, img_attrs(src@, alt@, title@)),
{
    let mut attrs: Vec<(String, String)> = Vec::new();
    push_attr(&mut attrs, "src", src);
    assert(attrs_view(attrs@) =~= seq![("src"@, src@)]);
    if alt.as_str().is_empty() {
        assert(attrs_view(attrs@) =~= seq![("src"@, src@)] + Seq::empty());
    } else {
        let ghost a0 = attrs_view(attrs@);
        push_attr(&mut attrs, "alt", alt);
        assert(a0.push(("alt"@, alt@)) =~= seq![("src"@, src@)] + seq![("alt"@, alt@)]);
    }
    push_title(&mut attrs, title);
    closed_token(String::from_str("img"), attrs)
}

impl Adapter {
    /// An adapter over `events`; with `group_text`, adjacent `Text` and
    /// `SoftBreak` events become one text token.
    pub fn new(events: Vec<Event>, group_text: bool) -> (r: Adapter)
        ensures
            r@ == initial(events_view(events@), group_text),
    {
        let mut rest = events;
        let mut input: VecDeque<Event> = VecDeque::new();
        while rest.len() > 0
            invariant
                rest@ + input@ == events@,
            decreases rest.len(),
        {
            let e = rest.pop().unwrap();
            input.push_front(e);
            assert(rest@ + input@ =~= events@);
        }
        assert(input@ =~= events@);
        let r = Adapter { input, looka: None, queue: Vec::new(), group_text, table_head: false };
        assert(r@.queue =~= Seq::<TokenV>::empty());
        r
    }

    /// Takes the next event of the input.
    fn pull(&mut self) -> (r: Option<Event>)
        ensures
            old(self)@.input.len() > 0 ==> {
                &&& (r is Some)
                &&& r->0@ == old(self)@.input[0]
                &&& final(self)@ == (AdapterV { input: old(self)@.input.drop_first(), ..old(self)@ })
            },
            old(self)@.input.len() == 0 ==> (r is None) && final(self)@ == old(self)@,
    {
        let r = self.input.pop_front();
        proof {
            if old(self)@.input.len() > 0 {
                assert(events_view(self.input@) =~= old(self)@.input.drop_first());
            }
        }
        r
    }

    /// Handles text content `x`, merging the text events that follow when
    /// grouping is on.
    fn text_token(&mut self, x: String) -> (r: Token)
        ensures
            (final(self)@, Some(Ok::<TokenV, AdapterError>(r@))) == text_step(old(self)@, x@),
    {
        if !self.group_text {
            return Token::Text(x);
        }
        let ghost s0 = self@;
        let ghost in0 = s0.input;
        let mut text = x;
        let ghost mut k: nat = 0;
        proof {
            reveal_strlit("\n");
            assert(in0.skip(0) =~= in0);
            assert(in0.take(0) =~= Seq::<EventV>::empty());
            assert(text@ =~= x@ + joined(in0.take(0)));
        }
        loop
            invariant
                s0 == old(self)@,
                in0 == s0.input,
                s0.group_text,
                k <= in0.len(),
                self@ == (AdapterV { input: in0.skip(k as int), ..s0 }),
                text_run_len(in0) == k + text_run_len(in0.skip(k as int)),
                text@ == x@ + joined(in0.take(k as int)),
            decreases self@.input.len(),
        {
            let ghost rest = in0.skip(k as int);
            let e = self.pull();
            proof {
                if rest.len() > 0 {
                    assert(rest.drop_first() =~= in0.skip(k + 1 as int));
                    assert(in0.take(k + 1 as int).drop_last() =~= in0.take(k as int));
                    assert(rest[0] == in0[k as int]);
                }
            }
            match e {
                None => {
                    proof {
                        assert(in0.take(k as int) =~= in0);
                        assert(in0.skip(k as int) =~= Seq::<EventV>::empty());
                    }
                    return Token::Text(text);
                },
                Some(Event::Text(t)) => {
                    text.append(t.as_str());
                    proof {
                        k = k + 1;
                        assert(text@ =~= x@ + joined(in0.take(k as int)));
                    }
                },
                Some(Event::SoftBreak) => {
                    proof {
                        reveal_strlit("\n");
                    }
                    text.append("\n");
                    proof {
                        k = k + 1;
                        assert(text@ =~= x@ + joined(in0.take(k as int)));
                    }
                },
                Some(other) => {
                    self.looka = Some(other);
                    return Token::Text(text);
                },
            }
        }
    }

    /// Handles an image start: consumes the events up to the image end and
    /// turns their text into the `alt` attribute.
    fn image_tag(&mut self, src: String, title: String) -> (r: Result<Token, AdapterError>)
        ensures
            (final(self)@, Some(result_view(r))) == image_step(old(self)@, src@, title@),
    {
        let ghost s0 = self@;
        let ghost in0 = s0.input;
        let mut alt = String::new();
        let ghost mut k: nat = 0;
        proof {
            assert(in0.skip(0) =~= in0);
            assert(in0.take(0) =~= Seq::<EventV>::empty());
        }
        loop
            invariant
                s0 == old(self)@,
                in0 == s0.input,
                k <= in0.len(),
                self@ == (AdapterV { input: in0.skip(k as int), ..s0 }),
                image_scan_len(in0) == k + image_scan_len(in0.skip(k as int)),
                alt@ == alt_text(in0.take(k as int)),
            decreases self@.input.len(),
        {
            let ghost rest = in0.skip(k as int);
            let e = self.pull();
            proof {
                if rest.len() > 0 {
                    assert(rest.drop_first() =~= in0.skip(k + 1 as int));
                    assert(in0.take(k + 1 as int).drop_last() =~= in0.take(k as int));
                    assert(rest[0] == in0[k as int]);
                }
            }
            match e {
                None => {
                    proof {
                        assert(in0.take(k as int) =~= in0);
                        assert(in0.skip(k as int) =~= Seq::<EventV>::empty());
                    }
                    return Ok(image_token(src, alt, title));
                },
                Some(Event::End(Tag::Image(_, _))) => {
                    return Ok(image_token(src, alt, title));
                },
                Some(Event::Start(Tag::Image(_, _))) => {
                    return Err(AdapterError::Malformed);
                },
                Some(Event::Text(t)) => {
                    alt.append(t.as_str());
                    proof {
                        k = k + 1;
                        assert(alt@ =~= alt_text(in0.take(k as int)));
                    }
                },
                Some(_) => {
                    proof {
                        k = k + 1;
                        assert(alt@ =~= alt_text(in0.take(k as int)));
                    }
                },
            }
        }
    }

    /// Appends a token to the queue of tokens to hand out later.
    fn defer(&mut self, t: Token)
        ensures
            final(self)@ == (AdapterV { queue: old(self)@.queue.push(t@), ..old(self)@ }),
    {
        self.queue.push(t);
        assert(tokens_view(self.queue@) =~= old(self)@.queue.push(t@));
    }

    /// Handles a start event.
    fn start_tag(&mut self, tag: Tag) -> (r: Result<Token, AdapterError>)
        ensures
            (final(self)@, Some(result_view(r))) == start_step(old(self)@, tag@),
    {
        let name = tag_name_of(&tag, self.table_head);
        match tag {
            Tag::Rule => {
                let _ = self.pull();
                Ok(bare_closed("hr"))
            },
            Tag::TableHead => {
                self.table_head = true;
                Ok(bare_start("tr"))
            },
            Tag::CodeBlock(lang) => {
                self.defer(bare_start("code"));
                let mut attrs: Vec<(String, String)> = Vec::new();
                if !lang.as_str().is_empty() {
                    push_attr(&mut attrs, "data-lang", lang);
                    assert(attrs_view(attrs@) =~= start_attrs(tag@));
                } else {
                    assert(attrs_view(attrs@) =~= start_attrs(tag@));
                }
                Ok(start_token(String::from_str("pre"), attrs))
            },
            Tag::Image(src, title) => self.image_tag(src, title),
            Tag::FootnoteDefinition(_) => Err(AdapterError::UnsupportedConstruct),
            Tag::List(Some(n)) => {
                let mut attrs: Vec<(String, String)> = Vec::new();
                if n != 1 {
                    push_attr(&mut attrs, "start", decimal_string(n));
                }
                assert(attrs_view(attrs@) =~= start_attrs(tag@));
                Ok(start_token(name, attrs))
            },
            Tag::Link(href, title) => {
                let mut attrs: Vec<(String, String)> = Vec::new();
                push_attr(&mut attrs, "href", href);
                push_title(&mut attrs, title);
                assert(attrs_view(attrs@) =~= start_attrs(tag@));
                Ok(start_token(name, attrs))
            },
            _ => {
                let attrs: Vec<(String, String)> = Vec::new();
                assert(attrs_view(attrs@) =~= start_attrs(tag@));
                Ok(start_token(name, attrs))
            },
        }
    }

    /// Handles an end event.
    fn end_tag(&mut self, tag: Tag) -> (r: Result<Token, AdapterError>)
        ensures
            (final(self)@, Some(result_view(r))) == end_step(old(self)@, tag@),
    {
        match tag {
            Tag::Rule => Err(AdapterError::Malformed),
            Tag::Image(_, _) => Err(AdapterError::Malformed),
            Tag::TableHead => {
                self.table_head = false;
                Ok(end_token("tr"))
            },
            Tag::CodeBlock(_) => {
                self.defer(end_token("pre"));
                Ok(end_token("code"))
            },
            Tag::FootnoteDefinition(_) => Err(AdapterError::UnsupportedConstruct),
            _ => Ok(Token::EndTag { name: tag_name_of(&tag, self.table_head) }),
        }
    }

    /// Handles one event taken from the lookahead slot or the input.
    fn handle(&mut self, e: Event) -> (r: Result<Token, AdapterError>)
        ensures
            (final(self)@, Some(result_view(r))) == handle(old(self)@, e@),
    {
        match e {
            Event::Start(t) => self.start_tag(t),
            Event::End(t) => self.end_tag(t),
            Event::Text(x) => {
                let t = self.text_token(x);
                Ok(t)
            },
            Event::SoftBreak => {
                proof {
                    reveal_strlit("\n");
                }
                let nl = String::from_str("\n");
                assert(nl@ == seq!['\n']);
                let t = self.text_token(nl);
                Ok(t)
            },
            Event::Html(x) => Ok(Token::RawText(x)),
            Event::InlineHtml(x) => Ok(Token::RawText(x)),
            Event::HardBreak => Ok(bare_closed("br")),
            Event::FootnoteReference(_) => Err(AdapterError::UnsupportedConstruct),
        }
    }

    /// Hands out the next token: `None` once the input is exhausted, an error
    /// on an event that cannot be translated.
    pub fn next(&mut self) -> (r: Option<Result<Token, AdapterError>>)
        ensures
            (final(self)@, out_view(r)) == step(old(self)@),
    {
        if self.queue.len() > 0 {
            let t = self.queue.remove(0);
            assert(tokens_view(self.queue@) =~= old(self)@.queue.drop_first());
            return Some(Ok(t));
        }
        match self.looka.take() {
            Some(e) => Some(self.handle(e)),
            None => match self.pull() {
                Some(e) => Some(self.handle(e)),
                None => None,
            },
        }
    }
}

} // verus!

verus! {

pub open spec fn tokens_result_view(r: Result<Vec<Token>, AdapterError>) -> Result<Seq<TokenV>, AdapterError> {
    match r {
        Ok(v) => Ok(tokens_view(v@)),
        Err(e) => Err(e),
    }
}

/// Translates a whole event sequence: every token up to the end of the input,
/// or the first fault.
pub fn translate(events: Vec<Event>, group_text: bool) -> (r: Result<Vec<Token>, AdapterError>)
    ensures
        tokens_result_view(r) == translation(events_view(events@), group_text),
{
    let ghost total = translation(events_view(events@), group_text);
    let mut ad = Adapter::new(events, group_text);
    let mut out: Vec<Token> = Vec::new();
    assert(tokens_view(out@) =~= Seq::<TokenV>::empty());
    assert(prepend(Seq::empty(), run(ad@)) == run(ad@)) by {
        match run(ad@) {
            Ok(ts) => assert(Seq::<TokenV>::empty() + ts =~= ts),
            Err(_) => {},
        }
    }
    loop
        invariant
            total == translation(events_view(events@), group_text),
            total == prepend(tokens_view(out@), run(ad@)),
        decreases measure(ad@),
    {
        let ghost before = ad@;
        let ghost done = tokens_view(out@);
        proof {
            lemma_step_decreases(before);
        }
        match ad.next() {
            None => {
                assert(done + Seq::<TokenV>::empty() =~= done);
                return Ok(out);
            },
            Some(Err(e)) => {
                return Err(e);
            },
            Some(Ok(t)) => {
                out.push(t);
                assert(tokens_view(out@) =~= done.push(t@));
                proof {
                    match run(ad@) {
                        Ok(ts) => assert(done + (seq![t@] + ts) =~= done.push(t@) + ts),
                        Err(_) => {},
                    }
                }
            },
        }
    }
}

} // verus!

use cmark_hamlet::{decimal_string, translate, Adapter, AdapterError, Event, Tag, Token};

fn s(x: &str) -> String {
    String::from(x)
}

fn start(name: &str) -> Token {
    Token::StartTag { name: s(name), attrs: Vec::new(), self_closing: false }
}

fn start_with(name: &str, attrs: &[(&str, &str)]) -> Token {
    Token::StartTag {
        name: s(name),
        attrs: attrs.iter().map(|(n, v)| (s(n), s(v))).collect(),
        self_closing: false,
    }
}

fn closed_with(name: &str, attrs: &[(&str, &str)]) -> Token {
    Token::StartTag {
        name: s(name),
        attrs: attrs.iter().map(|(n, v)| (s(n), s(v))).collect(),
        self_closing: true,
    }
}

fn end(name: &str) -> Token {
    Token::EndTag { name: s(name) }
}

fn text(x: &str) -> Token {
    Token::Text(s(x))
}

fn tokens(events: Vec<Event>, group_text: bool) -> Vec<Token> {
    translate(events, group_text).unwrap()
}

#[test]
fn code_block_tokens_nest() {
    let block = |lang: &str| {
        vec![
            Event::Start(Tag::CodeBlock(s(lang))),
            Event::Text(s("code\n\nblock\n")),
            Event::End(Tag::CodeBlock(s(lang))),
        ]
    };
    assert_eq!(
        tokens(block(""), false),
        vec![start("pre"), start("code"), text("code\n\nblock\n"), end("code"), end("pre")]
    );
    assert_eq!(
        tokens(block("sh"), false),
        vec![
            start_with("pre", &[("data-lang", "sh")]),
            start("code"),
            text("code\n\nblock\n"),
            end("code"),
            end("pre"),
        ]
    );
}

#[test]
fn ordered_list_start_attribute() {
    let list = |n: u64| vec![Event::Start(Tag::List(Some(n))), Event::End(Tag::List(Some(n)))];
    assert_eq!(tokens(list(1), false), vec![start("ol"), end("ol")]);
    assert_eq!(tokens(list(3), false), vec![start_with("ol", &[("start", "3")]), end("ol")]);
    assert_eq!(
        tokens(vec![Event::Start(Tag::List(None)), Event::End(Tag::List(None))], false),
        vec![start("ul"), end("ul")]
    );
}

#[test]
fn table_head_cells_are_th() {
    let cell = vec![Event::Start(Tag::TableCell), Event::Text(s("a")), Event::End(Tag::TableCell)];
    let mut head = vec![Event::Start(Tag::TableHead)];
    head.extend(cell.clone());
    head.push(Event::End(Tag::TableHead));
    assert_eq!(
        tokens(head, false),
        vec![start("tr"), start("th"), text("a"), end("th"), end("tr")]
    );
    let mut row = vec![Event::Start(Tag::TableRow)];
    row.extend(cell.clone());
    row.push(Event::End(Tag::TableRow));
    assert_eq!(
        tokens(row, false),
        vec![start("tr"), start("td"), text("a"), end("td"), end("tr")]
    );
}

fn multi_line() -> Vec<Event> {
    vec![Event::Text(s("Multi")), Event::SoftBreak, Event::Text(s("Line"))]
}

#[test]
fn grouping_merges_text_and_soft_breaks() {
    assert_eq!(tokens(multi_line(), true), vec![text("Multi\nLine")]);
}

#[test]
fn no_grouping_keeps_text_events_apart() {
    assert_eq!(tokens(multi_line(), false), vec![text("Multi"), text("\n"), text("Line")]);
}

#[test]
fn grouping_stops_at_other_events() {
    let events = vec![
        Event::Start(Tag::Paragraph),
        Event::Text(s("a")),
        Event::SoftBreak,
        Event::Text(s("b")),
        Event::End(Tag::Paragraph),
        Event::SoftBreak,
    ];
    assert_eq!(
        tokens(events, true),
        vec![start("p"), text("a\nb"), end("p"), text("\n")]
    );
}

#[test]
fn image_text_becomes_alt() {
    let events = vec![
        Event::Start(Tag::Image(s("/x"), s(""))),
        Event::Text(s("foo")),
        Event::End(Tag::Image(s("/x"), s(""))),
    ];
    assert_eq!(tokens(events, false), vec![closed_with("img", &[("src", "/x"), ("alt", "foo")])]);
}

#[test]
fn image_skips_other_events_and_keeps_title() {
    let events = vec![
        Event::Start(Tag::Image(s("/x"), s("t"))),
        Event::Start(Tag::Emphasis),
        Event::Text(s("a")),
        Event::End(Tag::Emphasis),
        Event::SoftBreak,
        Event::Text(s("b")),
        Event::End(Tag::Image(s("/x"), s("t"))),
        Event::Text(s("after")),
    ];
    assert_eq!(
        tokens(events, false),
        vec![closed_with("img", &[("src", "/x"), ("alt", "ab"), ("title", "t")]), text("after")]
    );
}

#[test]
fn image_without_text_has_no_alt() {
    let events = vec![
        Event::Start(Tag::Image(s("/x"), s(""))),
        Event::End(Tag::Image(s("/x"), s(""))),
    ];
    assert_eq!(tokens(events, false), vec![closed_with("img", &[("src", "/x")])]);
}

#[test]
fn link_attributes() {
    let events = vec![
        Event::Start(Tag::Link(s("/l"), s("t"))),
        Event::Text(s("x")),
        Event::End(Tag::Link(s("/l"), s("t"))),
        Event::Start(Tag::Link(s("/m"), s(""))),
        Event::End(Tag::Link(s("/m"), s(""))),
    ];
    assert_eq!(
        tokens(events, false),
        vec![
            start_with("a", &[("href", "/l"), ("title", "t")]),
            text("x"),
            end("a"),
            start_with("a", &[("href", "/m")]),
            end("a"),
        ]
    );
}

#[test]
fn rule_consumes_the_following_event() {
    let events = vec![
        Event::Start(Tag::Rule),
        Event::End(Tag::Rule),
        Event::Start(Tag::Paragraph),
        Event::End(Tag::Paragraph),
    ];
    assert_eq!(tokens(events, false), vec![closed_with("hr", &[]), start("p"), end("p")]);
}

#[test]
fn header_breaks_and_raw_markup() {
    let events = vec![
        Event::Start(Tag::Header(2)),
        Event::Text(s("<t>")),
        Event::HardBreak,
        Event::End(Tag::Header(2)),
        Event::Html(s("<div>")),
        Event::InlineHtml(s("<b>")),
    ];
    assert_eq!(
        tokens(events, false),
        vec![
            start("h2"),
            text("<t>"),
            closed_with("br", &[]),
            end("h2"),
            Token::RawText(s("<div>")),
            Token::RawText(s("<b>")),
        ]
    );
}

#[test]
fn simple_tags_map_to_elements() {
    let tags = vec![
        (Tag::Paragraph, Tag::Paragraph, "p"),
        (Tag::Emphasis, Tag::Emphasis, "em"),
        (Tag::Strong, Tag::Strong, "strong"),
        (Tag::Code, Tag::Code, "code"),
        (Tag::BlockQuote, Tag::BlockQuote, "blockquote"),
        (Tag::Item, Tag::Item, "li"),
        (Tag::Table, Tag::Table, "table"),
        (Tag::Header(12), Tag::Header(12), "h12"),
    ];
    for (open, close, name) in tags {
        assert_eq!(
            tokens(vec![Event::Start(open), Event::End(close)], false),
            vec![start(name), end(name)]
        );
    }
}

#[test]
fn footnotes_are_unsupported() {
    assert_eq!(
        translate(vec![Event::FootnoteReference(s("1"))], false),
        Err(AdapterError::UnsupportedConstruct)
    );
    assert_eq!(
        translate(vec![Event::Start(Tag::FootnoteDefinition(s("1")))], false),
        Err(AdapterError::UnsupportedConstruct)
    );
}

#[test]
fn broken_nesting_is_malformed() {
    assert_eq!(translate(vec![Event::End(Tag::Rule)], false), Err(AdapterError::Malformed));
    assert_eq!(
        translate(vec![Event::End(Tag::Image(s("/x"), s("")))], false),
        Err(AdapterError::Malformed)
    );
    let nested = vec![
        Event::Start(Tag::Image(s("/x"), s(""))),
        Event::Start(Tag::Image(s("/y"), s(""))),
    ];
    assert_eq!(translate(nested, false), Err(AdapterError::Malformed));
}

#[test]
fn tokens_come_one_request_at_a_time() {
    let events = vec![Event::Start(Tag::CodeBlock(s(""))), Event::End(Tag::CodeBlock(s("")))];
    let mut ada = Adapter::new(events, false);
    assert_eq!(ada.next(), Some(Ok(start("pre"))));
    assert_eq!(ada.next(), Some(Ok(start("code"))));
    assert_eq!(ada.next(), Some(Ok(end("code"))));
    assert_eq!(ada.next(), Some(Ok(end("pre"))));
    assert_eq!(ada.next(), None);
    assert_eq!(ada.next(), None);
}

#[test]
fn empty_input_gives_no_tokens() {
    assert_eq!(translate(Vec::new(), true), Ok(Vec::new()));
}

#[test]
fn repeated_translation_is_identical() {
    let make = || {
        vec![
            Event::Start(Tag::Paragraph),
            Event::Text(s("a")),
            Event::SoftBreak,
            Event::Start(Tag::Strong),
            Event::Text(s("b")),
            Event::End(Tag::Strong),
            Event::End(Tag::Paragraph),
        ]
    };
    assert_eq!(translate(make(), true), translate(make(), true));
    assert_eq!(translate(make(), false), translate(make(), false));
}

#[test]
fn decimal_notation() {
    assert_eq!(decimal_string(0), "0");
    assert_eq!(decimal_string(7), "7");
    assert_eq!(decimal_string(10), "10");
    assert_eq!(decimal_string(1234567890), "1234567890");
    assert_eq!(decimal_string(u64::MAX), "18446744073709551615");
}

fn is_balanced(toks: &[Token]) -> bool {
    let mut open: Vec<&str> = Vec::new();
    for t in toks {
        match t {
            Token::StartTag { name, self_closing: false, .. } => open.push(name),
            Token::EndTag { name } => {
                if open.pop() != Some(name.as_str()) {
                    return false;
                }
            }
            _ => {}
        }
    }
    open.is_empty()
}

#[test]
fn well_nested_input_gives_balanced_tokens() {
    let events = vec![
        Event::Start(Tag::Table),
        Event::Start(Tag::TableHead),
        Event::Start(Tag::TableCell),
        Event::Text(s("h")),
        Event::End(Tag::TableCell),
        Event::End(Tag::TableHead),
        Event::Start(Tag::TableRow),
        Event::Start(Tag::TableCell),
        Event::Start(Tag::Image(s("/i"), s(""))),
        Event::Start(Tag::Strong),
        Event::Text(s("alt")),
        Event::End(Tag::Strong),
        Event::End(Tag::Image(s("/i"), s(""))),
        Event::End(Tag::TableCell),
        Event::End(Tag::TableRow),
        Event::End(Tag::Table),
        Event::Start(Tag::Rule),
        Event::End(Tag::Rule),
        Event::Start(Tag::List(Some(4))),
        Event::Start(Tag::Item),
        Event::Start(Tag::CodeBlock(s("rs"))),
        Event::Text(s("x;\n")),
        Event::End(Tag::CodeBlock(s("rs"))),
        Event::End(Tag::Item),
        Event::End(Tag::List(Some(4))),
    ];
    for group in [false, true] {
        let toks = tokens(events.clone(), group);
        assert!(is_balanced(&toks));
    }
    assert!(!is_balanced(&[start("p")]));
    assert!(!is_balanced(&[start("p"), end("em")]));
}

use never_notes::interlink::{adapter_for, InterlinkParser};
use never_notes::tokens::Token;
use pulldown_cmark::{html, CowStr, Event, LinkType, Parser, Tag};

fn to_event(t: Token) -> Event {
    match t {
        Token::Text(s) => Event::Text(CowStr::from(s)),
        Token::LinkStart(dest, title) => {
            Event::Start(Tag::Link(LinkType::Collapsed, CowStr::from(dest), CowStr::from(title)))
        }
        Token::LinkEnd => {
            Event::End(Tag::Link(LinkType::Collapsed, CowStr::from(""), CowStr::from("")))
        }
        Token::Other(e) => e,
    }
}

fn drain(mut p: InterlinkParser) -> Vec<Event> {
    let mut events = Vec::new();
    while let Some(t) = p.next() {
        events.push(to_event(t));
    }
    events
}

fn adapter_events(input: &str) -> Vec<Event> {
    drain(InterlinkParser::new(Parser::new(input)))
}

fn render(input: &str) -> String {
    let mut res = String::new();
    html::push_html(&mut res, adapter_events(input).into_iter());
    res
}

#[test]
fn it_works() {
    let s = "This is markdown with [[interlink]]!";
    let res = render(s);
    assert_eq!(
        res,
        "<p>This is markdown with <a href=\"internal:interlink\">interlink</a>!</p>\n"
    );
}

#[test]
fn bracket_free_input_is_passed_through_token_for_token() {
    let s = "Just some *markdown* text, a `code span`, and a\n\nsecond paragraph!";
    let raw: Vec<Event> = Parser::new(s).collect();
    let rewritten = adapter_events(s);
    assert_eq!(rewritten, raw);

    let mut raw_html = String::new();
    html::push_html(&mut raw_html, Parser::new(s));
    assert_eq!(render(s), raw_html);
}

#[test]
fn unterminated_bracket_pair_produces_no_link() {
    let res = render("[[foo]");
    assert!(!res.contains("<a"));
    assert!(res.contains("[[foo]"));
    assert_eq!(res, "<p>[[foo]</p>\n");
}

#[test]
fn single_brackets_produce_no_link() {
    let s = "[not a link]";
    let res = render(s);
    assert!(!res.contains("<a"));
    assert_eq!(res, "<p>[not a link]</p>\n");

    let raw: Vec<Event> = Parser::new(s).collect();
    assert_eq!(adapter_events(s), raw);
}

#[test]
fn empty_identifier_produces_no_link() {
    let s = "[[]]";
    let res = render(s);
    assert!(!res.contains("<a"));
    assert_eq!(res, "<p>[[]]</p>\n");

    let raw: Vec<Event> = Parser::new(s).collect();
    assert_eq!(adapter_events(s), raw);
}

#[test]
fn rendering_twice_gives_identical_output() {
    let s = "This is markdown with [[interlink]]! And [[another]] one.";
    let first = render(s);
    let second = render(s);
    assert_eq!(first, second);
}

#[test]
fn adapter_for_matches_a_hand_built_adapter() {
    let s = "One [[note]] and a [stray] bracket.";
    let from_text = drain(adapter_for(s));
    let by_hand = drain(InterlinkParser::new(Parser::new(s)));
    assert_eq!(from_text, by_hand);
    assert!(from_text
        .iter()
        .any(|e| matches!(e, Event::Start(Tag::Link(_, dest, _)) if dest.as_ref() == "internal:note")));
}

#[test]
fn identifier_becomes_target_and_text() {
    let events = adapter_events("a [[b c]] d");
    let mut found = false;
    for (i, e) in events.iter().enumerate() {
        if let Event::Start(Tag::Link(_, dest, title)) = e {
            assert_eq!(dest.as_ref(), "internal:b c");
            assert_eq!(title.as_ref(), "");
            assert_eq!(events[i + 1], Event::Text(CowStr::from("b c")));
            assert!(matches!(events[i + 2], Event::End(Tag::Link(..))));
            found = true;
        }
    }
    assert!(found);
}

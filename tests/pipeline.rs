use mdbook_uwuify::book::{BookItem, Chapter};
use mdbook_uwuify::error::UwuError;
use mdbook_uwuify::events::{rewrite, uwuify, Piece};
use mdbook_uwuify::preprocessor::{str_eq, UwUifier};
use mdbook_uwuify::transform::{buffer_len, transform_text};
use pulldown_cmark::{CodeBlockKind, CowStr, Event, Tag, TagEnd};

fn chapter(name: &str, content: &str, sub_items: Vec<BookItem>) -> Chapter {
    Chapter {
        name: name.to_string(),
        content: content.to_string(),
        number: Some(vec![1]),
        sub_items,
        path: Some(std::path::PathBuf::from(format!("{}.md", name))),
        source_path: None,
        parent_names: vec![],
    }
}

#[test]
fn supports_every_renderer_but_the_sentinel() {
    let pre = UwUifier::new();
    assert!(pre.supports_renderer("html"));
    assert!(pre.supports_renderer("markdown"));
    assert!(pre.supports_renderer(""));
    assert!(pre.supports_renderer("not-supported "));
    assert!(!pre.supports_renderer("not-supported"));
}

#[test]
fn preprocessor_name() {
    assert_eq!(UwUifier::new().name(), "uwuify");
}

#[test]
fn string_equality() {
    assert!(str_eq("abc", "abc"));
    assert!(str_eq("", ""));
    assert!(!str_eq("abc", "abd"));
    assert!(!str_eq("abc", "ab"));
    assert!(str_eq("héllo", "héllo"));
}

#[test]
fn buffer_sizes() {
    assert_eq!(buffer_len(0), Some(0));
    assert_eq!(buffer_len(1), Some(256));
    assert_eq!(buffer_len(16), Some(256));
    assert_eq!(buffer_len(17), Some(512));
    assert_eq!(buffer_len(usize::MAX), None);
    assert_eq!(buffer_len(usize::MAX / 16), None);
}

#[test]
fn transforms_plain_text() {
    assert_eq!(transform_text("hello world").unwrap(), "hewwo wowwd");
    assert_eq!(transform_text("").unwrap(), "");
}

#[test]
fn rewrite_keeps_non_text_events() {
    let pieces = vec![
        Piece::Text("hello world".to_string()),
        Piece::Markup(Event::Code(CowStr::from("hello world"))),
        Piece::Markup(Event::SoftBreak),
    ];
    let out = rewrite(pieces).unwrap();
    assert_eq!(out.len(), 3);
    match &out[0] {
        Piece::Text(t) => assert_eq!(t, "hewwo wowwd"),
        other => panic!("unexpected {:?}", other),
    }
    match &out[1] {
        Piece::Markup(Event::Code(c)) => assert_eq!(c.as_ref(), "hello world"),
        other => panic!("unexpected {:?}", other),
    }
    assert!(matches!(out[2], Piece::Markup(Event::SoftBreak)));
}

#[test]
fn rewrite_leaves_code_block_text() {
    let pieces = vec![
        Piece::CodeBlockStart(Event::Start(Tag::CodeBlock(CodeBlockKind::Fenced(CowStr::from(
            "rust",
        ))))),
        Piece::Text("hello world".to_string()),
        Piece::CodeBlockEnd(Event::End(TagEnd::CodeBlock)),
        Piece::Text("hello world".to_string()),
    ];
    let out = rewrite(pieces).unwrap();
    assert_eq!(out.len(), 4);
    assert!(matches!(out[0], Piece::CodeBlockStart(_)));
    match &out[1] {
        Piece::Text(t) => assert_eq!(t, "hello world"),
        other => panic!("unexpected {:?}", other),
    }
    assert!(matches!(out[2], Piece::CodeBlockEnd(_)));
    match &out[3] {
        Piece::Text(t) => assert_eq!(t, "hewwo wowwd"),
        other => panic!("unexpected {:?}", other),
    }
}

#[test]
fn example_body_keeps_emphasis_and_code() {
    let out = uwuify("Hello **world**, see `code here`.").unwrap();
    assert!(out.contains("`code here`"), "{}", out);
    assert_eq!(out.matches("**").count(), 2, "{}", out);
    assert!(out.contains("wowwd"), "{}", out);
}

#[test]
fn code_block_passes_through() {
    let out = uwuify("```\nhello world\n```").unwrap();
    assert!(out.contains("hello world"), "{}", out);
    assert!(!out.contains("hewwo"), "{}", out);
}

#[test]
fn link_target_is_kept() {
    let out = uwuify("[hello world](http://example.com/hello-world)").unwrap();
    assert!(out.contains("(http://example.com/hello-world)"), "{}", out);
    assert!(out.contains("[hewwo wowwd]"), "{}", out);
}

#[test]
fn empty_body() {
    assert_eq!(uwuify("").unwrap(), "");
}

#[test]
fn run_keeps_order_and_rewrites_every_chapter() {
    let inner = chapter("inner", "hello world", vec![]);
    let outer = chapter("outer", "# hello", vec![BookItem::Chapter(inner)]);
    let mut sections = vec![
        BookItem::PartTitle("Part hello".to_string()),
        BookItem::Chapter(outer),
        BookItem::Separator,
        BookItem::Chapter(chapter("last", "world", vec![])),
    ];
    let pre = UwUifier::new();
    assert_eq!(pre.run(&mut sections), Ok(()));
    assert_eq!(sections.len(), 4);
    match &sections[0] {
        BookItem::PartTitle(t) => assert_eq!(t, "Part hello"),
        other => panic!("unexpected {:?}", other),
    }
    match &sections[1] {
        BookItem::Chapter(c) => {
            assert_eq!(c.name, "outer");
            assert_eq!(c.content, "# hewwo");
            assert_eq!(c.number, Some(vec![1]));
            assert_eq!(c.path, Some(std::path::PathBuf::from("outer.md")));
            assert_eq!(c.sub_items.len(), 1);
            match &c.sub_items[0] {
                BookItem::Chapter(i) => {
                    assert_eq!(i.name, "inner");
                    assert_eq!(i.content, "hewwo wowwd");
                }
                other => panic!("unexpected {:?}", other),
            }
        }
        other => panic!("unexpected {:?}", other),
    }
    assert!(matches!(sections[2], BookItem::Separator));
    match &sections[3] {
        BookItem::Chapter(c) => {
            assert_eq!(c.name, "last");
            assert_eq!(c.content, "wowwd");
        }
        other => panic!("unexpected {:?}", other),
    }
}

#[test]
fn run_on_empty_book() {
    let mut sections: Vec<BookItem> = vec![];
    assert_eq!(UwUifier::new().run(&mut sections), Ok(()));
    assert!(sections.is_empty());
}

#[test]
fn error_messages() {
    assert!(!UwuError::BufferBound.message().is_empty());
    assert!(!UwuError::NotUtf8.message().is_empty());
    assert!(!UwuError::Serialize.message().is_empty());
}

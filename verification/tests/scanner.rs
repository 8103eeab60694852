use glossdoc::blocks::{BlockKind, Parameter};
use glossdoc::input::Input;
use glossdoc::text::{Inline, InlineCommon, InlineType, Text};

fn block_of(s: &str) -> glossdoc::parse::Block {
    let mut input = Input::new(s);
    input.next_block()
}

fn lit(s: &str) -> Inline {
    Inline { kind: InlineType::Text(String::from(s)), common: InlineCommon { class: String::new() } }
}

fn plain_text(s: &str) -> Text {
    Text(vec![lit(s)])
}

#[test]
fn block_iter() {
    let mut block = block_of(r#"block 1, line 1"#);
    assert_eq!(block.start(), Some(0));
    assert_eq!(block.peek(), Some('b'));
    assert_eq!(block.next(), Some('b'));
}

#[test]
fn parameters_nameless() {
    let mut block = block_of(r#"[nameless]"#);
    assert_eq!(
        block.parameters().unwrap(),
        vec![Parameter(None, String::from("nameless"))]
    );
}

#[test]
fn parameters_named() {
    let mut block = block_of(r#"[class=foo]"#);
    assert_eq!(
        block.parameters().unwrap(),
        vec![Parameter(Some(String::from("class")), String::from("foo"))]
    );
}

#[test]
fn parameters_space() {
    let mut block = block_of(r#"[ nameless ]"#);
    assert_eq!(
        block.parameters().unwrap(),
        vec![Parameter(None, String::from("nameless"))]
    );
}

#[test]
fn parameters_multiple() {
    let mut block = block_of(r#"[id=foo, class=bar]"#);
    assert_eq!(
        block.parameters().unwrap(),
        vec![
            Parameter(Some(String::from("id")), String::from("foo")),
            Parameter(Some(String::from("class")), String::from("bar")),
        ]
    );
}

#[test]
fn parameters_none() {
    let mut block = block_of("0\n::");
    block.idx += 1;
    assert_eq!(block.parameters().unwrap(), vec![]);
    assert_eq!(block.next().unwrap(), '\n');
    assert!(block.match_hard_line('\n'));
}

#[test]
fn directive() {
    let mut block = block_of(":foo:x");
    block.next();
    assert_eq!(block.directive().unwrap(), "foo");
    assert_eq!(block.next(), Some('x'));
}

#[test]
fn text_emphasis() {
    let mut block = block_of(r#"*emphasis*"#);
    let mut text = Text::new();
    block.text_rest(&mut text).unwrap();
    let expected = Text(vec![
        Inline {
            kind: InlineType::Emphasis(plain_text("emphasis")),
            common: InlineCommon { class: String::new() },
        },
        lit(" "),
    ]);
    assert_eq!(text, expected);
}

#[test]
fn text_strong() {
    let mut block = block_of(r#"**strong**"#);
    let mut text = Text::new();
    block.text_rest(&mut text).unwrap();
    let expected = Text(vec![
        Inline {
            kind: InlineType::Strong(plain_text("strong")),
            common: InlineCommon { class: String::new() },
        },
        lit(" "),
    ]);
    assert_eq!(text, expected);
}

#[test]
fn list() {
    let mut block = block_of(":list:\n::1\n::2\n ::2a\n ::2b\n::3");
    let parsed = block.parse().unwrap().unwrap();
    let list = match parsed.kind {
        BlockKind::List(l) => l,
        other => panic!("expected a list block, got {:?}", other),
    };
    assert!(!list.ordered);
    let item = |text: &str, sublist: Vec<glossdoc::blocks::list::ListItem>| {
        glossdoc::blocks::list::ListItem { text: plain_text(text), sublist }
    };
    assert_eq!(
        list.items,
        vec![
            item("1", vec![]),
            item("2", vec![item("2a", vec![]), item("2b", vec![])]),
            item("3", vec![]),
        ]
    );
}

#[test]
fn heading() {
    let mut block = block_of("# Test");
    let parsed = block.parse().unwrap().unwrap();
    let got = match parsed.kind {
        BlockKind::Heading(h) => h,
        other => panic!("expected a heading block, got {:?}", other),
    };
    assert!(got.numbered);
    assert!(got.toc);
    assert_eq!(got.level, 1);
    assert_eq!(got.children.headings, Vec::<usize>::new());
    assert_eq!(got.children.last_child_number, 0);
    assert_eq!(got.number, Vec::<usize>::new());
    assert_eq!(got.title, plain_text(" Test "));
}

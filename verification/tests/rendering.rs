use glossdoc::blocks::table::Table;
use glossdoc::document::Document;
use glossdoc::html::Encoder;
use glossdoc::input::Input;
use glossdoc::strutil::{fmt_usize, parse_usize};

fn compile(source: &str) -> Document {
    let mut doc = Document::new();
    let mut input = Input::new(source);
    loop {
        let mut block = input.next_block();
        match block.parse().unwrap() {
            Some(b) => {
                doc.add_block(b).unwrap();
            },
            None => break,
        }
    }
    doc
}

#[test]
fn encoder_escapes_the_five_characters() {
    assert_eq!(Encoder("<a&b>'\"").encode(), "&lt;a&amp;b&gt;&#x27;&quot;");
    assert_eq!(Encoder("plain").encode(), "plain");
}

#[test]
fn decimal_rendering_and_parsing() {
    assert_eq!(fmt_usize(0), "0");
    assert_eq!(fmt_usize(120), "120");
    assert_eq!(parse_usize(&String::from("42")), Some(42));
    assert_eq!(parse_usize(&String::from("+7")), Some(7));
    assert_eq!(parse_usize(&String::from("")), None);
    assert_eq!(parse_usize(&String::from("4x")), None);
}

#[test]
fn span_accounting_round_trip() {
    // a cell of rows=2, cols=2 at physical column 0 pushes the next row's
    // first cell to physical column 2
    let mut cont: Vec<usize> = Vec::new();
    let col = Table::advance_columns(&mut cont, 0);
    assert_eq!(col, 0);
    Table::mark_spans(&mut cont, col, 2, 2);
    assert_eq!(cont, vec![1, 1]);
    let next_row_col = Table::advance_columns(&mut cont, 0);
    assert_eq!(next_row_col, 2);
    assert_eq!(cont, vec![0, 0]);
}

#[test]
fn table_renders_spans() {
    let doc = compile(":table: T\n|[header]\n::|[rows=2, cols=2] a|b\n::|c\n");
    let mut out = String::new();
    doc.write(&mut out);
    assert!(out.contains("colspan=\"2\""));
    assert!(out.contains("rowspan=\"2\""));
    assert!(out.contains("<caption>"));
}

#[test]
fn spanned_cell_shifts_next_row_to_its_column_definition() {
    // the rows=2, cols=2 cell occupies columns 0 and 1, so the next row's
    // first cell lands at physical column 2 and takes that column's class
    let doc = compile(
        ":table: T\n|[class=c0]|[class=c1]|[class=c2]\n::|[rows=2, cols=2] a|b\n::|c\n",
    );
    let mut out = String::new();
    doc.write(&mut out);
    assert!(out.contains("class=\" c2\">c"));
    assert!(!out.contains("class=\" c0\">c"));
}

#[test]
fn end_to_end_heading_and_paragraph() {
    let doc = compile("# Title\n\nSome *em* text.\n");
    assert_eq!(doc.blocks.len(), 2);
    match &doc.get_block(0).unwrap().kind {
        glossdoc::blocks::BlockKind::Heading(h) => {
            assert_eq!(h.number, vec![1]);
        },
        other => panic!("expected a heading, got {:?}", other),
    }
    match &doc.get_block(1).unwrap().kind {
        glossdoc::blocks::BlockKind::Paragraph(t) => {
            assert_eq!(t.0.len(), 3);
            match &t.0[1].kind {
                glossdoc::text::InlineType::Emphasis(inner) => {
                    match &inner.0[0].kind {
                        glossdoc::text::InlineType::Text(s) => assert_eq!(s, "em"),
                        other => panic!("expected literal text, got {:?}", other),
                    }
                },
                other => panic!("expected emphasis, got {:?}", other),
            }
        },
        other => panic!("expected a paragraph, got {:?}", other),
    }
    let mut out = String::new();
    doc.write(&mut out);
    assert!(out.contains("<em class=\" \">em</em>"));
    assert!(out.contains("<span class=\"secnum\">1.</span>"));
}

#[test]
fn reference_resolves_to_section_number() {
    let doc = compile("#[id=sec-x] Head\n\nSee :ref:[sec-x] here.\n");
    let mut out = String::new();
    doc.write(&mut out);
    assert!(out.contains("href=\"#sec-x\""));
    assert!(out.contains(">section 1</a>"));
}

#[test]
fn unresolved_reference_is_marked() {
    let doc = compile("See :ref:[nowhere].\n");
    let mut out = String::new();
    doc.write(&mut out);
    assert!(out.contains("<span class=\"undefined-reference\">#nowhere</span>"));
}

#[test]
fn replacement_expands_and_unknown_is_marked() {
    let doc = compile(":replace:\n:pn: *Language*\n\nThe :pn: word; and :zz: stays.\n");
    let mut out = String::new();
    doc.write(&mut out);
    assert!(out.contains("<em class=\" \">Language</em>"));
    assert!(out.contains("<span class=\"undefined-replace\">:zz:</span>"));
}

#[test]
fn gloss_split_after_postamble_fails() {
    let mut input = Input::new(":gloss: G\n::a b\n::[nosplit] whole\n::c d\n");
    let mut block = input.next_block();
    let err = block.parse().unwrap_err();
    assert!(err.kinds.iter().any(|k| matches!(k, glossdoc::errors::ErrorKind::GlossLine)));
}

#[test]
fn gloss_renders_aligned_groups() {
    let doc = compile(":gloss: G\n::[nosplit] pre line\n::aa bb\n::xx yy\n");
    let mut out = String::new();
    doc.write(&mut out);
    assert!(out.contains("pre line</p>"));
    assert!(out.contains("<dt class=\"\">aa</dt>"));
    assert!(out.contains("<dd class=\"\">xx</dd>"));
}

#[test]
fn bare_parameter_falls_through_to_class() {
    let doc = compile("#[foo] Title\n");
    assert_eq!(doc.get_block(0).unwrap().common.class, "foo");
}

#[test]
fn unknown_keyed_parameter_is_an_error() {
    let mut input = Input::new("#[bogus=1] Title\n");
    let mut block = input.next_block();
    let err = block.parse().unwrap_err();
    assert!(err.kinds.iter().any(
        |k| matches!(k, glossdoc::errors::ErrorKind::Parameter(s) if s == "bogus"),
    ));
}

#[test]
fn unterminated_strong_is_an_error() {
    let mut input = Input::new("**strong\n");
    let mut block = input.next_block();
    let err = block.parse().unwrap_err();
    assert!(err.kinds.iter().any(|k| matches!(
        k,
        glossdoc::errors::ErrorKind::EndOfBlock(glossdoc::errors::EndOfBlockKind::Expect('*'))
    )));
}

#[test]
fn escape_at_end_of_block_is_an_error() {
    // the buffered reader always closes a line with a newline, so build
    // the raw block directly to end it on a backslash
    let mut block = glossdoc::parse::Block::new(vec!['a', 'b', 'c', '\\'], Some(0));
    let err = block.parse().unwrap_err();
    assert!(err.kinds.iter().any(|k| matches!(
        k,
        glossdoc::errors::ErrorKind::EndOfBlock(glossdoc::errors::EndOfBlockKind::Escape)
    )));
}

#[test]
fn contents_lists_headings() {
    let doc = compile(":toc:\n\n# One\n\n## Sub\n\n# Two\n");
    let mut out = String::new();
    doc.write(&mut out);
    assert!(out.contains("class=\" toc\""));
    assert!(out.contains("<a href=\"#sec-1\">"));
    assert!(out.contains("<a href=\"#sec-2\">"));
}

#[test]
fn bad_span_count_is_a_parse_error() {
    let mut input = Input::new(":table: T\n|[header]\n::|[rows=abc] a\n");
    let mut block = input.next_block();
    let err = block.parse().unwrap_err();
    assert!(err.kinds.iter().any(|k| matches!(k, glossdoc::errors::ErrorKind::Parse)));
}

#[test]
fn stray_cell_text_is_an_expected_error() {
    let mut input = Input::new(":table: T\nx\n");
    let mut block = input.next_block();
    let err = block.parse().unwrap_err();
    assert!(err.kinds.iter().any(
        |k| matches!(k, glossdoc::errors::ErrorKind::Expected(e, g) if *e == '|' && *g == 'x'),
    ));
}

#[test]
fn input_error_distinguishes_encoding_faults() {
    let enc = glossdoc::errors::ErrorKind::input_error(true, 5);
    assert!(matches!(enc.kinds[0], glossdoc::errors::ErrorKind::Unicode(5)));
    let io = glossdoc::errors::ErrorKind::input_error(false, 7);
    assert!(matches!(io.kinds[0], glossdoc::errors::ErrorKind::ReadIo(7)));
}

#[test]
fn fillers_render_nothing_but_bridge_levels() {
    let doc = compile("### Deep\n");
    let mut out = String::new();
    doc.write(&mut out);
    assert!(out.contains("<h3 "));
    assert!(!out.contains("<h1 "));
    assert!(!out.contains("<h2 "));
}

#[test]
fn deep_headings_use_a_level_class() {
    let doc = compile("####### Seven\n");
    let mut out = String::new();
    doc.write(&mut out);
    assert!(out.contains("<p "));
    assert!(out.contains(" h7\">"));
}

#[test]
fn error_messages_name_the_fault() {
    let err = glossdoc::errors::ErrorKind::Id(String::from("dup")).at_block(3);
    let msgs = err.messages();
    assert_eq!(msgs[0], "Failed to parse block starting on line 3");
    assert_eq!(msgs[1], "Duplicate ID dup");
}

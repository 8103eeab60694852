use glossdoc::blocks::{Block, BlockCommon, BlockKind};
use glossdoc::blocks::heading::Heading;
use glossdoc::document::Document;
use glossdoc::errors::ErrorKind;
use glossdoc::input::Input;

fn heading_block(level: usize) -> Block {
    Block { kind: BlockKind::Heading(Heading::new(level)), common: BlockCommon::new(0) }
}

fn heading_block_with_id(level: usize, id: &str) -> Block {
    let mut common = BlockCommon::new(0);
    common.id = String::from(id);
    Block { kind: BlockKind::Heading(Heading::new(level)), common }
}

fn heading_number(doc: &Document, idx: usize) -> Vec<usize> {
    match &doc.get_block(idx).unwrap().kind {
        BlockKind::Heading(h) => h.number.clone(),
        other => panic!("expected a heading, got {:?}", other),
    }
}

#[test]
fn sibling_numbers_increase_by_one() {
    let mut doc = Document::new();
    doc.add_block(heading_block(1)).unwrap();
    doc.add_block(heading_block(1)).unwrap();
    let mut unnumbered = Heading::new(1);
    unnumbered.numbered = false;
    doc.add_block(Block {
        kind: BlockKind::Heading(unnumbered),
        common: BlockCommon::new(0),
    })
    .unwrap();
    doc.add_block(heading_block(1)).unwrap();
    assert_eq!(heading_number(&doc, 0), vec![1]);
    assert_eq!(heading_number(&doc, 1), vec![2]);
    assert_eq!(heading_number(&doc, 2), Vec::<usize>::new());
    assert_eq!(heading_number(&doc, 3), vec![3]);
}

#[test]
fn nested_numbers_follow_parents() {
    let mut doc = Document::new();
    doc.add_block(heading_block(1)).unwrap();
    doc.add_block(heading_block(2)).unwrap();
    doc.add_block(heading_block(2)).unwrap();
    doc.add_block(heading_block(1)).unwrap();
    doc.add_block(heading_block(2)).unwrap();
    assert_eq!(heading_number(&doc, 0), vec![1]);
    assert_eq!(heading_number(&doc, 1), vec![1, 1]);
    assert_eq!(heading_number(&doc, 2), vec![1, 2]);
    assert_eq!(heading_number(&doc, 3), vec![2]);
    assert_eq!(heading_number(&doc, 4), vec![2, 1]);
}

#[test]
fn skipped_levels_insert_minimal_fillers() {
    let mut doc = Document::new();
    // a level-3 heading under the empty root needs exactly two fillers
    doc.add_block(heading_block(3)).unwrap();
    assert_eq!(doc.blocks.len(), 3);
    assert!(matches!(doc.get_block(0).unwrap().kind, BlockKind::Filler(_)));
    assert!(matches!(doc.get_block(1).unwrap().kind, BlockKind::Filler(_)));
    assert_eq!(heading_number(&doc, 2), vec![0, 0, 1]);
    // the next level-3 heading reuses the chain: no more fillers
    doc.add_block(heading_block(3)).unwrap();
    assert_eq!(doc.blocks.len(), 4);
    assert_eq!(heading_number(&doc, 3), vec![0, 0, 2]);
}

#[test]
fn numbering_survives_unnumbered_siblings_from_source() {
    let mut doc = Document::new();
    let mut input = Input::new("# A\n\n#[nonumber] B\n\n# C\n");
    loop {
        let mut block = input.next_block();
        match block.parse().unwrap() {
            Some(b) => {
                doc.add_block(b).unwrap();
            },
            None => break,
        }
    }
    assert_eq!(heading_number(&doc, 0), vec![1]);
    assert_eq!(heading_number(&doc, 1), Vec::<usize>::new());
    assert_eq!(heading_number(&doc, 2), vec![2]);
    assert!(doc.get_id("sec-1").is_some());
    assert!(doc.get_id("sec-2").is_some());
}

#[test]
fn duplicate_explicit_id_fails() {
    let mut doc = Document::new();
    doc.add_block(heading_block_with_id(1, "x")).unwrap();
    let err = doc.add_block(heading_block_with_id(1, "x")).unwrap_err();
    let last = err.kinds.last().unwrap();
    assert!(matches!(last, ErrorKind::Id(s) if s == "x"));
}

#[test]
fn auto_ids_never_collide() {
    let mut doc = Document::new();
    let para = |s: &str| {
        let mut input = Input::new(s);
        let mut block = input.next_block();
        block.parse().unwrap().unwrap()
    };
    doc.add_block(para("one.")).unwrap();
    doc.add_block(para("two.")).unwrap();
    assert!(doc.get_id("__no-id-0").is_some());
    assert!(doc.get_id("__no-id-1").is_some());
    assert_ne!(
        doc.get_id("__no-id-0").unwrap().common.id,
        doc.get_id("__no-id-1").unwrap().common.id
    );
}

#[test]
fn numbered_heading_gets_sec_id() {
    let mut doc = Document::new();
    doc.add_block(heading_block(1)).unwrap();
    doc.add_block(heading_block(2)).unwrap();
    assert!(doc.get_id("sec-1").is_some());
    assert!(doc.get_id("sec-1-1").is_some());
}

#[test]
fn duplicate_replace_key_fails() {
    let mut input = Input::new(":replace:\n:a: x\n:b: y");
    let mut block = input.next_block();
    let parsed = block.parse().unwrap().unwrap();
    let mut doc = Document::new();
    doc.add_block(parsed).unwrap();
    let mut input2 = Input::new(":replace:\n:a: z");
    let mut block2 = input2.next_block();
    let parsed2 = block2.parse().unwrap().unwrap();
    let err = doc.add_block(parsed2).unwrap_err();
    assert!(matches!(err.kinds.last().unwrap(), ErrorKind::Replace(s) if s == "a"));
}

#[test]
fn duplicate_replace_key_in_one_block_fails() {
    let mut input = Input::new(":replace:\n:a: x\n:a: y");
    let mut block = input.next_block();
    let err = block.parse().unwrap_err();
    assert!(err.kinds.iter().any(|k| matches!(k, ErrorKind::Replace(s) if s == "a")));
}

#[test]
fn title_is_first_writer_wins() {
    let mut doc = Document::new();
    let title = |s: &str| {
        let mut t = glossdoc::text::Text::new();
        t.push_string(String::from(s));
        Block {
            kind: BlockKind::Control(glossdoc::blocks::control::DocumentControl::Title(t)),
            common: BlockCommon::new(0),
        }
    };
    doc.add_block(title("first")).unwrap();
    doc.add_block(title("second")).unwrap();
    assert_eq!(doc.title, Some(0));
}

#[test]
fn import_control_hands_back_filename() {
    let mut doc = Document::new();
    let mut t = glossdoc::text::Text::new();
    t.push_string(String::from("other.src"));
    let block = Block {
        kind: BlockKind::Control(glossdoc::blocks::control::DocumentControl::Import(t)),
        common: BlockCommon::new(0),
    };
    let r = doc.add_block(block).unwrap();
    assert_eq!(r.unwrap(), "other.src");
    assert_eq!(doc.blocks.len(), 0);
}

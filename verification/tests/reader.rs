use glossdoc::input::Input;

#[test]
fn blocks() {
    let input_str = r#"block 1, line 1
        block 1, line 2
        block 1, line 3

        block 2, line 1
        block 2, line 2
        "#;

    let mut input = Input::new(input_str);

    {
        let block = input.next_block();
        assert_eq!(block.start(), Some(0));
    }
    {
        let block = input.next_block();
        assert_eq!(block.start(), Some(4));
    }
    {
        let block = input.next_block();
        assert_eq!(block.len(), 0);
        assert_eq!(block.start(), None);
    }
}

#[test]
fn extra_blank_lines() {
    let input_str = r#"block 1, line 1
        block 1, line 2
        block 1, line 3


        block 2, line 1
        block 2, line 2

        "#;

    let mut input = Input::new(input_str);

    {
        let block = input.next_block();
        assert_eq!(block.start(), Some(0));
    }
    {
        let block = input.next_block();
        assert_eq!(block.start(), Some(5));
    }
    {
        let block = input.next_block();
        assert_eq!(block.len(), 0);
        assert_eq!(block.start(), None);
    }
}

#[test]
fn no_final_newline() {
    let input_str = r#"block 1, line 1
        block 1, line 2
        block 1, line 3"#;

    let mut input = Input::new(input_str);

    {
        let block = input.next_block();
        assert_eq!(block.start(), Some(0));
    }
    {
        let block = input.next_block();
        assert_eq!(block.len(), 0);
        assert_eq!(block.start(), None);
    }
}

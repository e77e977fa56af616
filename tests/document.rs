use hongdown::{Block, CodeBlockConfig, Config, Inline, Serializer, TableAlignment};

fn para(s: &str) -> Block {
    Block::Paragraph(vec![Inline::Text(s.to_string())])
}

fn render(blocks: Vec<Block>) -> String {
    let mut s = Serializer::new(Config::default());
    s.serialize_document(&blocks);
    s.output
}

#[test]
fn three_level_ordered_list_markers() {
    let inner = Block::List { ordered: true, start: 1, tight: true, items: vec![vec![para("c")]] };
    let middle = Block::List {
        ordered: true,
        start: 1,
        tight: true,
        items: vec![vec![para("b"), inner]],
    };
    let outer = Block::List {
        ordered: true,
        start: 1,
        tight: true,
        items: vec![vec![para("a"), middle]],
    };
    assert_eq!(render(vec![outer]), "1. a\n\n    1) b\n\n        1. c\n");
}

#[test]
fn ordered_list_numbers_from_start() {
    let list = Block::List {
        ordered: true,
        start: 9,
        tight: true,
        items: vec![vec![para("x")], vec![para("y")]],
    };
    assert_eq!(render(vec![list]), "9. x\n10. y\n");
}

#[test]
fn unordered_lists_tight_and_loose() {
    let tight = Block::List {
        ordered: false,
        start: 0,
        tight: true,
        items: vec![vec![para("a")], vec![para("b")]],
    };
    assert_eq!(render(vec![tight]), " -  a\n -  b\n");
    let loose = Block::List {
        ordered: false,
        start: 0,
        tight: false,
        items: vec![vec![para("a")], vec![]],
    };
    assert_eq!(render(vec![loose]), " -  a\n\n -  \n");
}

#[test]
fn block_quote_prefixes_every_line() {
    let quote = Block::BlockQuote(vec![
        para("q"),
        Block::CodeBlock { info: String::new(), literal: "x\n".to_string() },
    ]);
    assert_eq!(render(vec![quote]), "> q\n> \n> ~~~~ text\n> x\n> ~~~~\n");
    let nested = Block::BlockQuote(vec![Block::BlockQuote(vec![para("deep")])]);
    assert_eq!(render(vec![nested]), "> > deep\n");
}

#[test]
fn heading_paragraph_and_table() {
    let doc = vec![
        Block::Heading { level: 1, content: vec![Inline::Text("T".to_string())] },
        para("x   y"),
        Block::Table {
            alignments: vec![TableAlignment::Unaligned, TableAlignment::Right],
            rows: vec![
                vec![vec![Inline::Text("a".to_string())], vec![Inline::Code("x|y".to_string())]],
                vec![vec![Inline::Strong(vec![Inline::Text("b".to_string())])]],
            ],
        },
    ];
    assert_eq!(
        render(doc),
        "T\n=\n\nx y\n\n| a     | `x\\|y` |\n| ----- | -----: |\n| **b** |\n"
    );
}

#[test]
fn list_item_with_code_block() {
    let mut config = Config::default();
    config.code_block = CodeBlockConfig { fence_char: '`', min_fence_length: 3, space_after_fence: true };
    let list = Block::List {
        ordered: false,
        start: 0,
        tight: true,
        items: vec![vec![Block::CodeBlock { info: "sh".to_string(), literal: "ls\n\npwd\n".to_string() }]],
    };
    let mut s = Serializer::new(config);
    s.in_block_quote = true;
    s.serialize_document(&vec![list]);
    assert_eq!(s.output, ">  -  ``` sh\n>     ls\n> \n>     pwd\n>     ```\n");
}

#[test]
fn renderable_checks_each_block() {
    assert!(hongdown::renderable(&vec![para("a")]));
    assert!(!hongdown::renderable(&vec![Block::Heading { level: 7, content: vec![] }]));
    assert!(!hongdown::renderable(&vec![Block::BlockQuote(vec![Block::Heading {
        level: 0,
        content: vec![],
    }])]));
    let wide = Block::Table {
        alignments: vec![TableAlignment::Left],
        rows: vec![vec![vec![], vec![]]],
    };
    assert!(!hongdown::renderable(&vec![wide]));
    let overflow = Block::List { ordered: true, start: usize::MAX, tight: true, items: vec![vec![]] };
    assert!(!hongdown::renderable(&vec![overflow]));
    let nested = Block::List {
        ordered: false,
        start: 0,
        tight: true,
        items: vec![vec![para("x")], vec![Block::Heading { level: 9, content: vec![] }]],
    };
    assert!(!hongdown::renderable(&vec![nested]));
}

use comrak::nodes::{AstNode, ListType, NodeValue};
use comrak::{parse_document, Arena, Options};
use hongdown::{Block, Config, Inline, Serializer, TableAlignment};

fn inline_children<'a>(node: &'a AstNode<'a>) -> Vec<Inline> {
    node.children()
        .filter_map(|child| {
            let ast = child.data.borrow();
            match &ast.value {
                NodeValue::Text(t) => Some(Inline::Text(t.to_string())),
                NodeValue::Code(c) => Some(Inline::Code(c.literal.clone())),
                NodeValue::Emph => Some(Inline::Emph(inline_children(child))),
                NodeValue::Strong => Some(Inline::Strong(inline_children(child))),
                NodeValue::Link(link) => Some(Inline::Link {
                    label: inline_children(child),
                    url: link.url.clone(),
                    title: link.title.clone(),
                }),
                NodeValue::SoftBreak | NodeValue::LineBreak => Some(Inline::SoftBreak),
                _ => None,
            }
        })
        .collect()
}

fn block_children<'a>(node: &'a AstNode<'a>) -> Vec<Block> {
    node.children()
        .filter_map(|child| {
            let ast = child.data.borrow();
            match &ast.value {
                NodeValue::Heading(h) => Some(Block::Heading {
                    level: h.level as usize,
                    content: inline_children(child),
                }),
                NodeValue::Paragraph => Some(Block::Paragraph(inline_children(child))),
                NodeValue::CodeBlock(code) => Some(Block::CodeBlock {
                    info: code.info.clone(),
                    literal: code.literal.clone(),
                }),
                NodeValue::BlockQuote => Some(Block::BlockQuote(block_children(child))),
                NodeValue::List(list) => Some(Block::List {
                    ordered: matches!(list.list_type, ListType::Ordered),
                    start: list.start,
                    tight: list.tight,
                    items: child.children().map(|item| block_children(item)).collect(),
                }),
                NodeValue::Table(table) => Some(Block::Table {
                    alignments: table
                        .alignments
                        .iter()
                        .map(|a| match a {
                            comrak::nodes::TableAlignment::None => TableAlignment::Unaligned,
                            comrak::nodes::TableAlignment::Left => TableAlignment::Left,
                            comrak::nodes::TableAlignment::Center => TableAlignment::Center,
                            comrak::nodes::TableAlignment::Right => TableAlignment::Right,
                        })
                        .collect(),
                    rows: child
                        .children()
                        .map(|row| row.children().map(|cell| inline_children(cell)).collect())
                        .collect(),
                }),
                _ => None,
            }
        })
        .collect()
}

fn reformat(markdown: &str) -> String {
    let arena = Arena::new();
    let mut options = Options::default();
    options.extension.table = true;
    let root = parse_document(&arena, markdown, &options);
    let blocks = block_children(root);
    assert!(hongdown::renderable(&blocks));
    let mut serializer = Serializer::new(Config::default());
    serializer.serialize_document(&blocks);
    serializer.output
}

#[test]
fn rendering_is_idempotent() {
    let source = "Title\n=====\n\nSome *text* with `code` and a [link](https://example.com \"Ex\").\n\n -  one\n -  two\n\n> quoted\n\n~~~~ rust\nfn main() {}\n~~~~\n\n| a   | b   |\n| --- | :-: |\n| 1   | 2   |\n";
    let once = reformat(source);
    assert_eq!(once, source);
    assert_eq!(reformat(&once), once);
}

#[test]
fn rendering_converges() {
    let source = "# Title\n\nSome   text\nover two lines with a \\* star and a_b.\n\n1. first\n2. second\n\n```\n~~~~~\n```\n";
    let once = reformat(source);
    assert_eq!(
        once,
        "Title\n=====\n\nSome text over two lines with a \\* star and a_b.\n\n1. first\n2. second\n\n~~~~~~ text\n~~~~~\n~~~~~~\n"
    );
    assert_eq!(reformat(&once), once);
}

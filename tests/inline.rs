use hongdown::{render_inlines, Config, Inline, Serializer};

fn text(s: &str) -> Inline {
    Inline::Text(s.to_string())
}

#[test]
fn inline_text_and_code() {
    let run = vec![text("use "), Inline::Code("a `b` c".to_string()), text(" *now*")];
    assert_eq!(render_inlines(&run), "use ``a `b` c`` \\*now\\*");
}

#[test]
fn inline_emphasis_and_links() {
    let run = vec![
        Inline::Emph(vec![text("one")]),
        Inline::SoftBreak,
        Inline::Strong(vec![text("two")]),
        text(" "),
        Inline::Link {
            label: vec![text("see [1]")],
            url: "https://example.com".to_string(),
            title: String::new(),
        },
        text(" "),
        Inline::Link {
            label: vec![Inline::Code("x".to_string())],
            url: "/x".to_string(),
            title: "The x".to_string(),
        },
    ];
    assert_eq!(
        render_inlines(&run),
        "*one* **two** [see \\[1]](https://example.com) [`x`](/x \"The x\")"
    );
}

#[test]
fn heading_setext_and_atx() {
    let mut s = Serializer::new(Config::default());
    s.serialize_heading(1, &vec![text("Title")]);
    s.serialize_heading(2, &vec![text("Sub")]);
    s.serialize_heading(3, &vec![text("Deep")]);
    assert_eq!(s.output, "Title\n=====\nSub\n---\n### Deep\n");

    let mut config = Config::default();
    config.heading.setext_h1 = false;
    let mut s = Serializer::new(config);
    s.in_block_quote = true;
    s.serialize_heading(1, &vec![text("Title")]);
    s.serialize_heading(2, &vec![text("Sub")]);
    assert_eq!(s.output, "> # Title\n> Sub\n> ---\n");
}

#[test]
fn paragraph_normalises_whitespace() {
    let mut s = Serializer::new(Config::default());
    s.serialize_paragraph(&vec![text("  a\n  b "), Inline::SoftBreak, text("c_d")]);
    assert_eq!(s.output, "a b c_d\n\n");

    s.in_block_quote = true;
    s.serialize_paragraph(&vec![text("q")]);
    assert_eq!(s.output, "a b c_d\n\n> q\n> \n");
}

#[test]
fn list_markers() {
    let s = Serializer::new(Config::default());
    assert_eq!(s.bullet_marker(), " -  ");
    assert_eq!(s.ordinal_marker(1, 1), "1.");
    assert_eq!(s.ordinal_marker(1, 2), "1)");
    assert_eq!(s.ordinal_marker(1, 3), "1.");
    assert_eq!(s.ordinal_marker(0, 1), "0.");
    assert_eq!(s.ordinal_marker(120, 2), "120)");

    let mut config = Config::default();
    config.list.unordered_marker = '*';
    config.list.leading_spaces = 0;
    config.list.trailing_spaces = 1;
    assert_eq!(Serializer::new(config).bullet_marker(), "* ");
}

use hongdown::{CodeBlockConfig, Config, Serializer, TableAlignment};

fn serializer() -> Serializer {
    Serializer::new(Config::default())
}

fn rows(cells: &[&[&str]]) -> Vec<Vec<String>> {
    cells
        .iter()
        .map(|row| row.iter().map(|c| c.to_string()).collect())
        .collect()
}

#[test]
fn code_block_top_level() {
    let mut s = serializer();
    s.serialize_code_block("rust", "fn main() {}\n");
    assert_eq!(s.output, "~~~~ rust\nfn main() {}\n~~~~\n");
}

#[test]
fn code_block_default_info() {
    let mut s = serializer();
    s.serialize_code_block("", "a\r\nb");
    assert_eq!(s.output, "~~~~ text\na\nb\n~~~~\n");
}

#[test]
fn code_block_five_tildes_fence() {
    let mut s = serializer();
    s.serialize_code_block("", "~~~~~\n");
    assert_eq!(s.output, "~~~~~~ text\n~~~~~\n~~~~~~\n");

    let mut config = Config::default();
    config.code_block.min_fence_length = 3;
    let mut s = Serializer::new(config);
    s.serialize_code_block("", "  ~~~~~ x\n");
    assert_eq!(s.output, "~~~~~~ text\n  ~~~~~ x\n~~~~~~\n");

    config.code_block.min_fence_length = 8;
    let mut s = Serializer::new(config);
    s.serialize_code_block("", "~~~~~\n");
    assert_eq!(s.output, "~~~~~~~~ text\n~~~~~\n~~~~~~~~\n");
}

#[test]
fn code_block_in_block_quote() {
    let mut s = serializer();
    s.in_block_quote = true;
    s.serialize_code_block("", "a\n");
    assert_eq!(s.output, "> ~~~~ text\n> a\n> ~~~~\n");
}

#[test]
fn code_block_backtick_fence() {
    let mut config = Config::default();
    config.code_block = CodeBlockConfig {
        fence_char: '`',
        min_fence_length: 3,
        space_after_fence: false,
    };
    let mut s = Serializer::new(config);
    s.serialize_code_block("md", "````\n");
    assert_eq!(s.output, "`````md\n````\n`````\n");
}

#[test]
fn code_block_in_list_item() {
    let mut s = serializer();
    s.serialize_code_block_indented("", "a\n\nb\n", "    ");
    assert_eq!(s.output, "~~~~ text\n    a\n\n    b\n    ~~~~\n");

    let mut s = serializer();
    s.in_block_quote = true;
    s.serialize_code_block_indented("sh", "a\n\nb\n", "    ");
    assert_eq!(s.output, "~~~~ sh\n>     a\n> \n>     b\n>     ~~~~\n");
}

#[test]
fn code_block_with_indent() {
    let mut s = serializer();
    s.serialize_code_block_with_indent("py", "x\n\ny\n", "  ");
    assert_eq!(s.output, "~~~~ py\n  x\n  \n  y\n  ~~~~\n");

    let mut s = serializer();
    s.serialize_code_block_with_indent("", "~~~~\n", "  ");
    assert_eq!(s.output, "~~~~~ text\n  ~~~~\n  ~~~~~\n");
}

#[test]
fn table_aligned_columns() {
    let mut s = serializer();
    s.serialize_table(
        &rows(&[&["a", "b|c"], &["1", "2"]]),
        &vec![TableAlignment::Left, TableAlignment::Right],
    );
    assert_eq!(
        s.output,
        "| a   | b\\|c |\n| :-- | ---: |\n| 1   | 2    |\n"
    );
}

#[test]
fn table_narrow_column_is_three_wide() {
    let mut s = serializer();
    s.serialize_table(&rows(&[&["x"], &["y"]]), &vec![TableAlignment::Unaligned]);
    assert_eq!(s.output, "| x   |\n| --- |\n| y   |\n");
}

#[test]
fn table_center_and_quote() {
    let mut s = serializer();
    s.in_block_quote = true;
    s.serialize_table(&rows(&[&["head"], &["a"]]), &vec![TableAlignment::Center]);
    assert_eq!(s.output, "> | head |\n> | :--: |\n> | a    |\n");
}

#[test]
fn table_short_row_and_empty_table() {
    let mut s = serializer();
    s.serialize_table(
        &rows(&[&["a", "b"], &["c"]]),
        &vec![TableAlignment::Unaligned, TableAlignment::Unaligned],
    );
    assert_eq!(s.output, "| a   | b   |\n| --- | --- |\n| c   |\n");

    let mut s = serializer();
    s.serialize_table(&rows(&[]), &vec![TableAlignment::Left]);
    assert_eq!(s.output, "");
}

use hongdown::{Config, OrderedListConfig, CONFIG_FILE_NAME};

#[test]
fn test_default_config() {
    let config = Config::default();
    assert_eq!(config.line_width, 80);
    assert!(config.heading.setext_h1);
    assert!(config.heading.setext_h2);
    assert_eq!(config.list.unordered_marker, '-');
    assert_eq!(config.list.leading_spaces, 1);
    assert_eq!(config.list.trailing_spaces, 2);
    assert_eq!(config.list.indent_width, 4);
    assert_eq!(config.ordered_list.odd_level_marker, '.');
    assert_eq!(config.ordered_list.even_level_marker, ')');
    assert_eq!(config.code_block.fence_char, '~');
    assert_eq!(config.code_block.min_fence_length, 4);
    assert!(config.code_block.space_after_fence);
}

#[test]
fn config_file_name() {
    assert_eq!(CONFIG_FILE_NAME, ".hongdown.toml");
}

#[test]
fn ordered_markers_alternate_by_depth() {
    let config = Config::default();
    let first_items: Vec<String> = (1..=3)
        .map(|depth| format!("1{}", config.ordered_list.marker_at_depth(depth)))
        .collect();
    assert_eq!(first_items, vec!["1.", "1)", "1."]);
}

#[test]
fn ordered_markers_follow_settings() {
    let ordered = OrderedListConfig {
        odd_level_marker: ')',
        even_level_marker: '.',
    };
    assert_eq!(ordered.marker_at_depth(1), ')');
    assert_eq!(ordered.marker_at_depth(2), '.');
    assert_eq!(ordered.marker_at_depth(4), '.');
}

#[test]
fn discover_picks_nearest() {
    assert_eq!(Config::discover(&vec![false, true, true]), Some(1));
    assert_eq!(Config::discover(&vec![true, false]), Some(0));
}

#[test]
fn discover_without_settings_file() {
    assert_eq!(Config::discover(&vec![false, false, false]), None);
    assert_eq!(Config::discover(&vec![]), None);
}

//! The formatter's settings record and the rule that picks which settings
//! file applies.

use vstd::prelude::*;

verus! {

/// The name of the settings file looked for in each directory.
pub const CONFIG_FILE_NAME: &'static str = ".hongdown.toml";

/// Settings of the formatter.
#[derive(Debug, Clone, Copy, PartialEq, Eq, Structural)]
pub struct Config {
    /// Maximum line width for wrapping.
    pub line_width: usize,
    /// Heading options.
    pub heading: HeadingConfig,
    /// Unordered list options.
    pub list: ListConfig,
    /// Ordered list options.
    pub ordered_list: OrderedListConfig,
    /// Code block options.
    pub code_block: CodeBlockConfig,
}

/// Heading options.
#[derive(Debug, Clone, Copy, PartialEq, Eq, Structural)]
pub struct HeadingConfig {
    /// Underline level-1 headings with `===`.
    pub setext_h1: bool,
    /// Underline level-2 headings with `---`.
    pub setext_h2: bool,
}

/// Unordered list options.
#[derive(Debug, Clone, Copy, PartialEq, Eq, Structural)]
pub struct ListConfig {
    /// Marker character: `-`, `*` or `+`.
    pub unordered_marker: char,
    /// Spaces before the marker.
    pub leading_spaces: usize,
    /// Spaces after the marker.
    pub trailing_spaces: usize,
    /// Indentation width of nested items.
    pub indent_width: usize,
}

/// Ordered list options.
#[derive(Debug, Clone, Copy, PartialEq, Eq, Structural)]
pub struct OrderedListConfig {
    /// Marker after the number at odd nesting depths (`.` gives `1.`).
    pub odd_level_marker: char,
    /// Marker after the number at even nesting depths (`)` gives `1)`).
    pub even_level_marker: char,
}

/// Code block options.
#[derive(Debug, Clone, Copy, PartialEq, Eq, Structural)]
pub struct CodeBlockConfig {
    /// Fence character: `~` or `` ` ``.
    pub fence_char: char,
    /// Shortest fence written.
    pub min_fence_length: usize,
    /// Put a space between the opening fence and the info string.
    pub space_after_fence: bool,
}

impl Default for HeadingConfig {
    fn default() -> (r: Self)
        ensures
            r.setext_h1,
            r.setext_h2,
    {
        HeadingConfig { setext_h1: true, setext_h2: true }
    }
}

impl Default for ListConfig {
    fn default() -> (r: Self)
        ensures
            r.unordered_marker == '-',
            r.leading_spaces == 1,
            r.trailing_spaces == 2,
            r.indent_width == 4,
    {
        ListConfig { unordered_marker: '-', leading_spaces: 1, trailing_spaces: 2, indent_width: 4 }
    }
}

impl Default for OrderedListConfig {
    fn default() -> (r: Self)
        ensures
            r.odd_level_marker == '.',
            r.even_level_marker == ')',
    {
        OrderedListConfig { odd_level_marker: '.', even_level_marker: ')' }
    }
}

impl Default for CodeBlockConfig {
    fn default() -> (r: Self)
        ensures
            r.fence_char == '~',
            r.min_fence_length == 4,
            r.space_after_fence,
    {
        CodeBlockConfig { fence_char: '~', min_fence_length: 4, space_after_fence: true }
    }
}

impl Default for Config {
    fn default() -> (r: Self)
        ensures
            r.line_width == 80,
            r.heading.setext_h1,
            r.heading.setext_h2,
            r.list.unordered_marker == '-',
            r.list.leading_spaces == 1,
            r.list.trailing_spaces == 2,
            r.list.indent_width == 4,
            r.ordered_list.odd_level_marker == '.',
            r.ordered_list.even_level_marker == ')',
            r.code_block.fence_char == '~',
            r.code_block.min_fence_length == 4,
            r.code_block.space_after_fence,
    {
        Config {
            line_width: 80,
            heading: HeadingConfig::default(),
            list: ListConfig::default(),
            ordered_list: OrderedListConfig::default(),
            code_block: CodeBlockConfig::default(),
        }
    }
}

impl OrderedListConfig {
    /// The marker used after item numbers at nesting depth `depth` (the
    /// outermost list has depth 1): odd depths and even depths alternate so
    /// that a nested list stands apart from its parent.
    pub fn marker_at_depth(&self, depth: usize) -> (r: char)
        requires
            depth >= 1,
        ensures
            r == (if depth % 2 == 1 { self.odd_level_marker } else { self.even_level_marker }),
    {
        if depth % 2 == 1 {
            self.odd_level_marker
        } else {
            self.even_level_marker
        }
    }
}

impl Config {
    /// Picks the settings file that applies. `found[k]` tells whether the
    /// `k`-th directory on the way from the start directory (`k == 0`) up to
    /// the filesystem root holds a settings file; the nearest one wins, and
    /// `None` means the built-in defaults apply.
    pub fn discover(found: &Vec<bool>) -> (r: Option<usize>)
        ensures
            match r {
                Some(k) => k < found@.len() && found@[k as int] && forall|j: int|
                    0 <= j < k ==> !found@[j],
                None => forall|j: int| 0 <= j < found@.len() ==> !found@[j],
            },
    {
        let mut k: usize = 0;
        while k < found.len()
            invariant
                k <= found@.len(),
                forall|j: int| 0 <= j < k ==> !found@[j],
            decreases found.len() - k,
        {
            if found[k] {
                return Some(k);
            }
            k += 1;
        }
        None
    }
}

} // verus!

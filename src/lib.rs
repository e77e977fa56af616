//! Canonical Markdown rendering: escaping rules, code-span and code-fence
//! delimiter selection, table layout, and the formatter's settings record.

pub mod chars;
pub mod config;
pub mod escape;
pub mod serializer;
pub mod code;
pub mod table;
pub mod inline;
pub mod block;
pub mod document;

pub use code::lemma_fence_outruns_content;
pub use config::{
    CodeBlockConfig, Config, HeadingConfig, ListConfig, OrderedListConfig, CONFIG_FILE_NAME,
};
pub use escape::{
    escape_table_cell, escape_text, format_code_span, is_valid_code_span, normalize_whitespace,
};
pub use serializer::Serializer;
pub use table::TableAlignment;
pub use inline::{render_inlines, Inline};
pub use document::{renderable, Block};

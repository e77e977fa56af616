//! The rendering state shared by the block renderers.

use vstd::prelude::*;
use crate::config::Config;

verus! {

/// Accumulates rendered text under fixed settings.
pub struct Serializer {
    /// The settings in force.
    pub config: Config,
    /// The text rendered so far.
    pub output: String,
    /// Whether the blocks now rendered stand inside a block quote.
    pub in_block_quote: bool,
}

/// The prefix of each line inside a block quote.
pub open spec fn quote_prefix(in_block_quote: bool) -> Seq<char> {
    if in_block_quote {
        seq!['>', ' ']
    } else {
        Seq::empty()
    }
}

impl Serializer {
    /// A serializer with nothing rendered yet, outside any block quote.
    pub fn new(config: Config) -> (r: Self)
        ensures
            r.config == config,
            r.output@ == Seq::<char>::empty(),
            !r.in_block_quote,
    {
        Serializer { config, output: String::new(), in_block_quote: false }
    }
}

} // verus!

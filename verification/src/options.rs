//! The syntax extensions that a document is read with.

use vstd::prelude::*;

verus! {

/// Pipe tables.
pub const ENABLE_TABLES: u32 = 2;

/// Footnotes.
pub const ENABLE_FOOTNOTES: u32 = 4;

/// Struck-through text, and subscript where that is not enabled by itself.
pub const ENABLE_STRIKETHROUGH: u32 = 8;

/// Task lists.
pub const ENABLE_TASKLISTS: u32 = 16;

/// Typographic quotes, dashes and ellipses.
pub const ENABLE_SMART_PUNCTUATION: u32 = 32;

/// Ids and classes behind a heading.
pub const ENABLE_HEADING_ATTRIBUTES: u32 = 64;

/// Metadata blocks between lines of `---`.
pub const ENABLE_YAML_STYLE_METADATA_BLOCKS: u32 = 128;

/// Metadata blocks between lines of `+++`.
pub const ENABLE_PLUSES_DELIMITED_METADATA_BLOCKS: u32 = 256;

/// Footnotes as they were read before; holds the bit of `ENABLE_FOOTNOTES`.
pub const ENABLE_OLD_FOOTNOTES: u32 = 516;

/// Formulas between dollar signs.
pub const ENABLE_MATH: u32 = 1024;

/// Alert block quotes.
pub const ENABLE_GFM: u32 = 2048;

/// Definition lists.
pub const ENABLE_DEFINITION_LIST: u32 = 4096;

/// Superscript.
pub const ENABLE_SUPERSCRIPT: u32 = 8192;

/// Subscript.
pub const ENABLE_SUBSCRIPT: u32 = 16384;

/// Links in double square brackets.
pub const ENABLE_WIKILINKS: u32 = 32768;

/// A set of syntax extensions, one bit for each. The bits are those of
/// `pulldown_cmark::Options`, to which the set is handed unchanged.
#[derive(Clone, Copy, Debug, PartialEq, Eq)]
pub struct Options {
    pub bits: u32,
}

impl Options {
    /// No extension.
    pub fn empty() -> (r: Options)
        ensures
            r.bits == 0,
    {
        Options { bits: 0 }
    }

    /// The extensions whose bits are set in `bits`.
    pub fn from_bits(bits: u32) -> (r: Options)
        ensures
            r.bits == bits,
    {
        Options { bits }
    }

    /// The extensions of `self` and those of `other`.
    pub fn union(self, other: Options) -> (r: Options)
        ensures
            r.bits == self.bits | other.bits,
    {
        Options { bits: self.bits | other.bits }
    }

    /// Adds the extensions of `other`.
    pub fn insert(&mut self, other: Options)
        ensures
            final(self).bits == old(self).bits | other.bits,
    {
        self.bits = self.bits | other.bits;
    }

    /// Whether every extension of `other` is in the set.
    pub fn contains(&self, other: Options) -> (r: bool)
        ensures
            r == (self.bits & other.bits == other.bits),
    {
        self.bits & other.bits == other.bits
    }

    /// The one extension `ENABLE_TABLES`.
    pub fn enable_tables() -> (r: Options)
        ensures
            r.bits == ENABLE_TABLES,
    {
        Options { bits: ENABLE_TABLES }
    }

    /// The one extension `ENABLE_FOOTNOTES`.
    pub fn enable_footnotes() -> (r: Options)
        ensures
            r.bits == ENABLE_FOOTNOTES,
    {
        Options { bits: ENABLE_FOOTNOTES }
    }

    /// The one extension `ENABLE_STRIKETHROUGH`.
    pub fn enable_strikethrough() -> (r: Options)
        ensures
            r.bits == ENABLE_STRIKETHROUGH,
    {
        Options { bits: ENABLE_STRIKETHROUGH }
    }

    /// The one extension `ENABLE_TASKLISTS`.
    pub fn enable_tasklists() -> (r: Options)
        ensures
            r.bits == ENABLE_TASKLISTS,
    {
        Options { bits: ENABLE_TASKLISTS }
    }

    /// The one extension `ENABLE_SMART_PUNCTUATION`.
    pub fn enable_smart_punctuation() -> (r: Options)
        ensures
            r.bits == ENABLE_SMART_PUNCTUATION,
    {
        Options { bits: ENABLE_SMART_PUNCTUATION }
    }

    /// The one extension `ENABLE_HEADING_ATTRIBUTES`.
    pub fn enable_heading_attributes() -> (r: Options)
        ensures
            r.bits == ENABLE_HEADING_ATTRIBUTES,
    {
        Options { bits: ENABLE_HEADING_ATTRIBUTES }
    }

    /// The one extension `ENABLE_YAML_STYLE_METADATA_BLOCKS`.
    pub fn enable_yaml_style_metadata_blocks() -> (r: Options)
        ensures
            r.bits == ENABLE_YAML_STYLE_METADATA_BLOCKS,
    {
        Options { bits: ENABLE_YAML_STYLE_METADATA_BLOCKS }
    }

    /// The one extension `ENABLE_PLUSES_DELIMITED_METADATA_BLOCKS`.
    pub fn enable_pluses_delimited_metadata_blocks() -> (r: Options)
        ensures
            r.bits == ENABLE_PLUSES_DELIMITED_METADATA_BLOCKS,
    {
        Options { bits: ENABLE_PLUSES_DELIMITED_METADATA_BLOCKS }
    }

    /// The one extension `ENABLE_OLD_FOOTNOTES`.
    pub fn enable_old_footnotes() -> (r: Options)
        ensures
            r.bits == ENABLE_OLD_FOOTNOTES,
    {
        Options { bits: ENABLE_OLD_FOOTNOTES }
    }

    /// The one extension `ENABLE_MATH`.
    pub fn enable_math() -> (r: Options)
        ensures
            r.bits == ENABLE_MATH,
    {
        Options { bits: ENABLE_MATH }
    }

    /// The one extension `ENABLE_GFM`.
    pub fn enable_gfm() -> (r: Options)
        ensures
            r.bits == ENABLE_GFM,
    {
        Options { bits: ENABLE_GFM }
    }

    /// The one extension `ENABLE_DEFINITION_LIST`.
    pub fn enable_definition_list() -> (r: Options)
        ensures
            r.bits == ENABLE_DEFINITION_LIST,
    {
        Options { bits: ENABLE_DEFINITION_LIST }
    }

    /// The one extension `ENABLE_SUPERSCRIPT`.
    pub fn enable_superscript() -> (r: Options)
        ensures
            r.bits == ENABLE_SUPERSCRIPT,
    {
        Options { bits: ENABLE_SUPERSCRIPT }
    }

    /// The one extension `ENABLE_SUBSCRIPT`.
    pub fn enable_subscript() -> (r: Options)
        ensures
            r.bits == ENABLE_SUBSCRIPT,
    {
        Options { bits: ENABLE_SUBSCRIPT }
    }

    /// The one extension `ENABLE_WIKILINKS`.
    pub fn enable_wikilinks() -> (r: Options)
        ensures
            r.bits == ENABLE_WIKILINKS,
    {
        Options { bits: ENABLE_WIKILINKS }
    }
}

} // verus!

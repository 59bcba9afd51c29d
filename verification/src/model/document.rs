use vstd::prelude::*;

use super::page::PageDef;
use super::paragraph::Paragraph;

verus! {

#[derive(Debug, Clone, Default)]
pub struct SectionDef {
    pub page_def: PageDef,
}

#[derive(Debug, Default)]
pub struct Section {
    pub section_def: SectionDef,
    pub paragraphs: Vec<Paragraph>,
}

/// A document: its sections, and how many of each shared definition its header holds.
#[derive(Debug, Default)]
pub struct Document {
    pub sections: Vec<Section>,
    /// Border/fill definitions, numbered from 1.
    pub border_fill_count: u16,
    /// Character shape definitions, numbered from 0.
    pub char_shape_count: u32,
    /// Paragraph shape definitions, numbered from 0.
    pub para_shape_count: u16,
    /// Style definitions, numbered from 0.
    pub style_count: u16,
}

} // verus!

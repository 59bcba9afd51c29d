use vstd::prelude::*;

use super::control::Control;

verus! {

/// Character shape reference: from UTF-16 position `start_pos` on, `char_shape_id` applies.
#[derive(Debug, Clone, Copy, Default)]
pub struct CharShapeRef {
    pub start_pos: u32,
    pub char_shape_id: u32,
}

/// One line segment of a paragraph layout (HWP LINE_SEG).
#[derive(Debug, Clone, Copy, Default)]
pub struct LineSeg {
    pub text_start: u32,
    pub vertical_pos: i32,
    pub line_height: i32,
    pub text_height: i32,
    pub baseline_distance: i32,
    pub line_spacing: i32,
    pub column_start: i32,
    pub segment_width: i32,
    pub tag: u32,
}

/// Break kind that starts a paragraph.
#[derive(Debug, Clone, Copy, Default)]
pub enum ColumnBreakType {
    #[default]
    NoBreak,
    Section,
    MultiColumn,
    Page,
    Column,
}

/// A paragraph: text, its layout and formatting references, and inline controls.
#[derive(Debug, Default)]
pub struct Paragraph {
    pub text: String,
    /// UTF-16 position of each char of `text`, when known.
    pub char_offsets: Vec<u32>,
    pub char_shapes: Vec<CharShapeRef>,
    pub line_segs: Vec<LineSeg>,
    pub para_shape_id: u16,
    pub style_id: u8,
    pub column_type: ColumnBreakType,
    pub controls: Vec<Control>,
}

} // verus!

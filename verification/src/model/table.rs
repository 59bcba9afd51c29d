use vstd::prelude::*;

use super::paragraph::Paragraph;
use super::shape::CommonObjAttr;

verus! {

#[derive(Debug, Clone, Copy, Default)]
pub enum TablePageBreak {
    #[default]
    NoBreak,
    CellBreak,
    RowBreak,
}

#[derive(Debug, Clone, Copy, Default)]
pub enum VerticalAlign {
    #[default]
    Top,
    Center,
    Bottom,
}

#[derive(Debug, Clone, Copy, Default)]
pub struct Padding {
    pub left: i16,
    pub right: i16,
    pub top: i16,
    pub bottom: i16,
}

/// A zone of cells that shares a border/fill.
#[derive(Debug, Clone, Copy, Default)]
pub struct CellZone {
    pub start_row: u16,
    pub start_col: u16,
    pub end_row: u16,
    pub end_col: u16,
    pub border_fill_id: u16,
}

#[derive(Debug, Default)]
pub struct Cell {
    pub col: u16,
    pub row: u16,
    pub col_span: u16,
    pub row_span: u16,
    pub width: u32,
    pub height: u32,
    pub padding: Padding,
    pub border_fill_id: u16,
    pub field_name: Option<String>,
    pub is_header: bool,
    pub apply_inner_margin: bool,
    /// 0 = horizontal, 1 = vertical.
    pub text_direction: u8,
    pub vertical_align: VerticalAlign,
    pub paragraphs: Vec<Paragraph>,
}

#[derive(Debug, Default)]
pub struct Table {
    pub common: CommonObjAttr,
    pub page_break: TablePageBreak,
    pub repeat_header: bool,
    pub row_count: u16,
    pub col_count: u16,
    pub cell_spacing: i16,
    pub border_fill_id: u16,
    pub outer_margin_left: i16,
    pub outer_margin_right: i16,
    pub outer_margin_top: i16,
    pub outer_margin_bottom: i16,
    pub padding: Padding,
    pub zones: Vec<CellZone>,
    pub cells: Vec<Cell>,
}

} // verus!

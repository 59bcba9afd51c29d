use vstd::prelude::*;

verus! {

/// Paper size and margins of a section (HWPUNIT).
#[derive(Debug, Clone, Copy, Default)]
pub struct PageDef {
    pub width: u32,
    pub height: u32,
    pub margin_left: u32,
    pub margin_right: u32,
    pub margin_top: u32,
    pub margin_bottom: u32,
    pub margin_header: u32,
    pub margin_footer: u32,
    pub margin_gutter: u32,
    /// When set, the renderer swaps width and height.
    pub landscape: bool,
}

} // verus!

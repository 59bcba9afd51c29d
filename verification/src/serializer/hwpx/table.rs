//! `<hp:tbl>` tables: `Control::Table` → `<hp:tbl>` + `<hp:tr>` + `<hp:tc>` + `<hp:subList>`
//! + paragraphs, recursively for tables inside cells.
//!
//! Attribute and child order follow the OWPML table model (`TableType::WriteElement`):
//!
//! `<hp:tbl>` attributes: id, zOrder, numberingType, textWrap, textFlow, lock, dropcapstyle,
//! pageBreak, repeatHeader, rowCnt, colCnt, cellSpacing, borderFillIDRef, noAdjust.
//!
//! `<hp:tbl>` children: sz, pos, outMargin, inMargin, tr (one per row).
//!
//! `<hp:tc>` attributes: name, header, hasMargin, protect, editable, dirty, borderFillIDRef.
//!
//! `<hp:tc>` children: subList, cellAddr, cellSpan, cellSz, cellMargin.
//!
//! Wrap, flow and page-break values come from the parsed fields (`common.text_wrap`,
//! `page_break`), never from bits of the raw attribute word, which HWPX leaves at 0.
use vstd::prelude::*;

use crate::model::control::Control;
use crate::model::paragraph::{CharShapeRef, LineSeg, Paragraph};
use crate::model::shape::{
    CommonObjAttr, HorzAlign, HorzRelTo, ShapeObject, TextWrap, VertAlign, VertRelTo,
};
use crate::model::table::{Cell, Table, TablePageBreak, VerticalAlign};

use super::context::{
    lemma_progress_nothing, lemma_progress_then, lemma_progress_xml, lemma_recorded_nothing,
    lemma_recorded_then, lemma_then, nothing, progress, recorded, then, xml_only, Emitted,
    SerializeContext,
};
use super::form::{bool01, bool01_text, ends_with, form_xml, write_form};
use super::numfmt::{
    int_string, int_text, lemma_escape_int_text, lemma_escape_nat_text, nat_string, nat_text,
};
use super::utils::{
    lemma_first_attr, lemma_next_attr, lemma_next_tag_attr,
    appended, attr_text, attrs_text, empty_tag, empty_tag_text, end_tag, end_tag_text, escape_text,
    first_char_shape_id, first_shape_id, indented, lemma_appended_nothing, lemma_appended_then,
    open_tag_text, positions_fit, shape_runs, split_char_shape_runs, start_tag, start_tag_attrs,
    string_push, text_end, text_positions_fit, trailing_refs, trailing_zero_length_refs,
    write_markup,
};
use super::section::{page_hide_xml, page_number_pos_xml, write_page_hide, write_page_number_pos};
use super::SerializeError;

verus! {

// ---- enumerations ----

pub open spec fn text_wrap_text(w: TextWrap) -> Seq<char> {
    match w {
        TextWrap::Square => "SQUARE"@,
        TextWrap::Tight => "TIGHT"@,
        TextWrap::Through => "THROUGH"@,
        TextWrap::TopAndBottom => "TOP_AND_BOTTOM"@,
        TextWrap::BehindText => "BEHIND_TEXT"@,
        TextWrap::InFrontOfText => "IN_FRONT_OF_TEXT"@,
    }
}

pub open spec fn page_break_text(pb: TablePageBreak) -> Seq<char> {
    match pb {
        TablePageBreak::NoBreak => "NONE"@,
        TablePageBreak::CellBreak => "CELL"@,
        TablePageBreak::RowBreak => "TABLE"@,
    }
}

pub open spec fn vert_rel_to_text(v: VertRelTo) -> Seq<char> {
    match v {
        VertRelTo::Paper => "PAPER"@,
        VertRelTo::Page => "PAGE"@,
        VertRelTo::Para => "PARA"@,
    }
}

pub open spec fn horz_rel_to_text(h: HorzRelTo) -> Seq<char> {
    match h {
        HorzRelTo::Paper => "PAPER"@,
        HorzRelTo::Page => "PAGE"@,
        HorzRelTo::Column => "COLUMN"@,
        HorzRelTo::Para => "PARA"@,
    }
}

pub open spec fn vert_align_text(v: VertAlign) -> Seq<char> {
    match v {
        VertAlign::Top => "TOP"@,
        VertAlign::Center => "CENTER"@,
        VertAlign::Bottom => "BOTTOM"@,
        VertAlign::Inside => "INSIDE"@,
        VertAlign::Outside => "OUTSIDE"@,
    }
}

pub open spec fn horz_align_text(h: HorzAlign) -> Seq<char> {
    match h {
        HorzAlign::Left => "LEFT"@,
        HorzAlign::Center => "CENTER"@,
        HorzAlign::Right => "RIGHT"@,
        HorzAlign::Inside => "INSIDE"@,
        HorzAlign::Outside => "OUTSIDE"@,
    }
}

pub open spec fn cell_vert_align_text(v: VerticalAlign) -> Seq<char> {
    match v {
        VerticalAlign::Top => "TOP"@,
        VerticalAlign::Center => "CENTER"@,
        VerticalAlign::Bottom => "BOTTOM"@,
    }
}

// ---- the table element ----

#[verifier::opaque]
pub open spec fn tbl_attrs(t: Table) -> Seq<char> {
    attr_text("id"@, nat_text(t.common.instance_id as nat)) + attr_text(
        "zOrder"@,
        int_text(t.common.z_order as int),
    ) + attr_text("numberingType"@, "TABLE"@) + attr_text(
        "textWrap"@,
        text_wrap_text(t.common.text_wrap),
    ) + attr_text("textFlow"@, "BOTH_SIDES"@) + attr_text("lock"@, bool01_text(false))
        + attr_text("dropcapstyle"@, "None"@) + attr_text(
        "pageBreak"@,
        page_break_text(t.page_break),
    ) + attr_text("repeatHeader"@, bool01_text(t.repeat_header)) + attr_text(
        "rowCnt"@,
        nat_text(t.row_count as nat),
    ) + attr_text("colCnt"@, nat_text(t.col_count as nat)) + attr_text(
        "cellSpacing"@,
        int_text(t.cell_spacing as int),
    ) + attr_text("borderFillIDRef"@, nat_text(t.border_fill_id as nat)) + attr_text(
        "noAdjust"@,
        "0"@,
    )
}

#[verifier::opaque]
pub open spec fn sz_xml(c: CommonObjAttr) -> Seq<char> {
    empty_tag_text(
        "hp:sz"@,
        attr_text("width"@, nat_text(c.width as nat)) + attr_text("widthRelTo"@, "ABSOLUTE"@)
            + attr_text("height"@, nat_text(c.height as nat)) + attr_text(
            "heightRelTo"@,
            "ABSOLUTE"@,
        ) + attr_text("protect"@, "0"@),
    )
}

#[verifier::opaque]
pub open spec fn pos_xml(c: CommonObjAttr) -> Seq<char> {
    empty_tag_text(
        "hp:pos"@,
        attr_text("treatAsChar"@, bool01_text(c.treat_as_char)) + attr_text(
            "affectLSpacing"@,
            "0"@,
        ) + attr_text("flowWithText"@, "1"@) + attr_text("allowOverlap"@, "0"@) + attr_text(
            "holdAnchorAndSO"@,
            "0"@,
        ) + attr_text("vertRelTo"@, vert_rel_to_text(c.vert_rel_to)) + attr_text(
            "horzRelTo"@,
            horz_rel_to_text(c.horz_rel_to),
        ) + attr_text("vertAlign"@, vert_align_text(c.vert_align)) + attr_text(
            "horzAlign"@,
            horz_align_text(c.horz_align),
        ) + attr_text("vertOffset"@, nat_text(c.vertical_offset as nat)) + attr_text(
            "horzOffset"@,
            nat_text(c.horizontal_offset as nat),
        ),
    )
}

/// `<name left=".." right=".." top=".." bottom=".."/>`
#[verifier::opaque]
pub open spec fn margin_xml(name: Seq<char>, left: i16, right: i16, top: i16, bottom: i16) -> Seq<
    char,
> {
    empty_tag_text(
        name,
        attr_text("left"@, int_text(left as int)) + attr_text("right"@, int_text(right as int))
            + attr_text("top"@, int_text(top as int)) + attr_text(
            "bottom"@,
            int_text(bottom as int),
        ),
    )
}

/// Everything of the table element before its rows.
#[verifier::opaque]
pub open spec fn tbl_head_xml(t: Table) -> Seq<char> {
    open_tag_text("hp:tbl"@, tbl_attrs(t)) + sz_xml(t.common) + pos_xml(t.common) + margin_xml(
        "hp:outMargin"@,
        t.outer_margin_left,
        t.outer_margin_right,
        t.outer_margin_top,
        t.outer_margin_bottom,
    ) + margin_xml(
        "hp:inMargin"@,
        t.padding.left,
        t.padding.right,
        t.padding.top,
        t.padding.bottom,
    )
}

/// The border/fill ids a table refers to itself: its own, its zones', its cells'.
#[verifier::opaque]
pub open spec fn table_border_fills(t: Table) -> Seq<u16> {
    seq![t.border_fill_id] + t.zones@.map_values(|z: crate::model::table::CellZone| z.border_fill_id)
        + t.cells@.map_values(|c: Cell| c.border_fill_id)
}

// ---- order of cells in a row ----

/// Indices of the first `k` cells that lie in row `r`, in order.
pub open spec fn row_indices(cells: Seq<Cell>, r: int, k: int) -> Seq<int>
    decreases k,
{
    if k <= 0 {
        seq![]
    } else if cells[k - 1].row == r {
        row_indices(cells, r, k - 1).push(k - 1)
    } else {
        row_indices(cells, r, k - 1)
    }
}

/// Inserts cell index `x` after every index whose cell's column is not greater.
pub open spec fn insert_by_col(cells: Seq<Cell>, x: int, s: Seq<int>) -> Seq<int>
    decreases s.len(),
{
    if s.len() == 0 {
        seq![x]
    } else if cells[s.last()].col > cells[x].col {
        insert_by_col(cells, x, s.drop_last()).push(s.last())
    } else {
        s.push(x)
    }
}

/// Stable sort of cell indices by column.
pub open spec fn sort_by_col(cells: Seq<Cell>, s: Seq<int>) -> Seq<int>
    decreases s.len(),
{
    if s.len() == 0 {
        seq![]
    } else {
        insert_by_col(cells, s.last(), sort_by_col(cells, s.drop_last()))
    }
}

/// The cells of row `r`, by column (cells of equal column in their order in the table).
#[verifier::opaque]
pub open spec fn row_order(cells: Seq<Cell>, r: int) -> Seq<int> {
    sort_by_col(cells, row_indices(cells, r, cells.len() as int))
}

// ---- cells ----

#[verifier::opaque]
pub open spec fn tc_attrs(c: Cell) -> Seq<char> {
    attr_text(
        "name"@,
        match c.field_name {
            Some(s) => s@,
            None => ""@,
        },
    ) + attr_text("header"@, bool01_text(c.is_header)) + attr_text(
        "hasMargin"@,
        bool01_text(c.apply_inner_margin),
    ) + attr_text("protect"@, "0"@) + attr_text("editable"@, "0"@) + attr_text("dirty"@, "0"@)
        + attr_text("borderFillIDRef"@, nat_text(c.border_fill_id as nat))
}

#[verifier::opaque]
pub open spec fn sub_list_attrs(c: Cell) -> Seq<char> {
    attr_text("id"@, ""@) + attr_text(
        "textDirection"@,
        if c.text_direction == 1 {
            "VERTICAL"@
        } else {
            "HORIZONTAL"@
        },
    ) + attr_text("lineWrap"@, "BREAK"@) + attr_text(
        "vertAlign"@,
        cell_vert_align_text(c.vertical_align),
    ) + attr_text("linkListIDRef"@, "0"@) + attr_text("linkListNextIDRef"@, "0"@) + attr_text(
        "textWidth"@,
        "0"@,
    ) + attr_text("textHeight"@, "0"@) + attr_text("hasTextRef"@, "0"@) + attr_text(
        "hasNumRef"@,
        "0"@,
    )
}

pub open spec fn span_value(n: u16) -> nat {
    if n >= 1 {
        n as nat
    } else {
        1
    }
}

/// Everything of a cell after its sub-list.
#[verifier::opaque]
pub open spec fn cell_tail_xml(c: Cell) -> Seq<char> {
    empty_tag_text(
        "hp:cellAddr"@,
        attr_text("colAddr"@, nat_text(c.col as nat)) + attr_text(
            "rowAddr"@,
            nat_text(c.row as nat),
        ),
    ) + empty_tag_text(
        "hp:cellSpan"@,
        attr_text("colSpan"@, nat_text(span_value(c.col_span))) + attr_text(
            "rowSpan"@,
            nat_text(span_value(c.row_span)),
        ),
    ) + empty_tag_text(
        "hp:cellSz"@,
        attr_text("width"@, nat_text(c.width as nat)) + attr_text(
            "height"@,
            nat_text(c.height as nat),
        ),
    ) + margin_xml("hp:cellMargin"@, c.padding.left, c.padding.right, c.padding.top, c.padding.bottom)
        + end_tag_text("hp:tc"@)
}

// ---- cell paragraphs ----

/// `hp:p` attributes of the `i`-th cell paragraph.
#[verifier::opaque]
pub open spec fn cell_p_attrs(p: Paragraph, i: int) -> Seq<char> {
    attr_text("id"@, nat_text(i as nat)) + attr_text(
        "paraPrIDRef"@,
        nat_text(p.para_shape_id as nat),
    ) + attr_text("styleIDRef"@, nat_text(p.style_id as nat)) + attr_text("pageBreak"@, "0"@)
        + attr_text("columnBreak"@, "0"@) + attr_text("merged"@, "0"@)
}

/// Characters that XML 1.0 can hold: control characters other than tab and line feed
/// are dropped.
pub open spec fn keeps_char(c: char) -> bool {
    (c as u32) >= 0x20 || c == '\t' || c == '\n'
}

pub open spec fn sanitize(s: Seq<char>) -> Seq<char>
    decreases s.len(),
{
    if s.len() == 0 {
        seq![]
    } else if keeps_char(s.last()) {
        sanitize(s.drop_last()).push(s.last())
    } else {
        sanitize(s.drop_last())
    }
}

/// `<hp:t>` with the sanitized, escaped text.
pub open spec fn cell_t_xml(s: Seq<char>) -> Seq<char> {
    open_tag_text("hp:t"@, seq![]) + escape_text(sanitize(s)) + end_tag_text("hp:t"@)
}

#[verifier::opaque]
pub open spec fn run_open_xml(id: u32) -> Seq<char> {
    open_tag_text("hp:run"@, attr_text("charPrIDRef"@, nat_text(id as nat)))
}

pub open spec fn run_xml(id: u32, s: Seq<char>) -> Seq<char> {
    run_open_xml(id) + cell_t_xml(s) + end_tag_text("hp:run"@)
}

/// The first `k` runs.
pub open spec fn runs_xml(rs: Seq<(u32, Seq<char>)>, k: int) -> Seq<char>
    decreases k,
{
    if k <= 0 {
        seq![]
    } else {
        runs_xml(rs, k - 1) + run_xml(rs[k - 1].0, rs[k - 1].1)
    }
}

/// Empty runs `<hp:run charPrIDRef=".."/>` for the first `k` ids.
pub open spec fn zero_runs_xml(ids: Seq<u32>, k: int) -> Seq<char>
    decreases k,
{
    if k <= 0 {
        seq![]
    } else {
        zero_runs_xml(ids, k - 1) + empty_tag_text(
            "hp:run"@,
            attr_text("charPrIDRef"@, nat_text(ids[k - 1] as nat)),
        )
    }
}

/// The text runs of a cell paragraph; with `preserve`, the zero-length runs that start
/// after the text end follow as empty runs.
#[verifier::opaque]
pub open spec fn cell_text_runs_xml(
    text: Seq<char>,
    offsets: Seq<u32>,
    shapes: Seq<CharShapeRef>,
    preserve: bool,
) -> Seq<char> {
    if text.len() == 0 {
        let ids = trailing_refs(shapes, 0, true, shapes.len() as int);
        run_xml(first_shape_id(shapes), seq![]) + if preserve {
            zero_runs_xml(ids, ids.len() as int)
        } else {
            seq![]
        }
    } else {
        let rs = shape_runs(text, offsets, shapes, text.len() as int);
        let ids = trailing_refs(
            shapes,
            text_end(text, offsets, text.len() as int),
            false,
            shapes.len() as int,
        );
        runs_xml(rs, rs.len() as int) + if preserve {
            zero_runs_xml(ids, ids.len() as int)
        } else {
            seq![]
        }
    }
}

pub open spec fn lineseg_xml(s: LineSeg) -> Seq<char> {
    empty_tag_text(
        "hp:lineseg"@,
        attr_text("textpos"@, nat_text(s.text_start as nat)) + attr_text(
            "vertpos"@,
            int_text(s.vertical_pos as int),
        ) + attr_text("vertsize"@, int_text(s.line_height as int)) + attr_text(
            "textheight"@,
            int_text(s.text_height as int),
        ) + attr_text("baseline"@, int_text(s.baseline_distance as int)) + attr_text(
            "spacing"@,
            int_text(s.line_spacing as int),
        ) + attr_text("horzpos"@, int_text(s.column_start as int)) + attr_text(
            "horzsize"@,
            int_text(s.segment_width as int),
        ) + attr_text("flags"@, nat_text(s.tag as nat)),
    )
}

/// The first `k` line segments.
pub open spec fn linesegs_xml(segs: Seq<LineSeg>, k: int) -> Seq<char>
    decreases k,
{
    if k <= 0 {
        seq![]
    } else {
        linesegs_xml(segs, k - 1) + lineseg_xml(segs[k - 1])
    }
}

/// The placeholder line segment of a cell paragraph without layout.
pub open spec fn cell_fallback_lineseg_xml() -> Seq<char> {
    empty_tag_text(
        "hp:lineseg"@,
        attr_text("textpos"@, "0"@) + attr_text("vertpos"@, "0"@) + attr_text("vertsize"@, "1000"@)
            + attr_text("textheight"@, "1000"@) + attr_text("baseline"@, "850"@) + attr_text(
            "spacing"@,
            "600"@,
        ) + attr_text("horzpos"@, "0"@) + attr_text("horzsize"@, "12964"@) + attr_text(
            "flags"@,
            "393216"@,
        ),
    )
}

#[verifier::opaque]
pub open spec fn cell_linesegs_xml(segs: Seq<LineSeg>) -> Seq<char> {
    open_tag_text("hp:linesegarray"@, seq![]) + if segs.len() == 0 {
        cell_fallback_lineseg_xml()
    } else {
        linesegs_xml(segs, segs.len() as int)
    } + end_tag_text("hp:linesegarray"@)
}

// ---- drawing objects inside cells ----

/// The XML of a drawing object: its own markup, a group's container around its members;
/// other kinds write nothing.
pub open spec fn shape_xml(s: ShapeObject) -> Seq<char>
    decreases s, 0int,
{
    match s {
        ShapeObject::Line(l) => l.xml@,
        ShapeObject::Rectangle(r) => r.xml@,
        ShapeObject::Picture(p) => p.xml@,
        ShapeObject::Group(g) => g.container_open@ + shapes_xml(g.children@, g.children@.len() as int)
            + g.container_close@,
        _ => seq![],
    }
}

pub open spec fn shapes_xml(s: Seq<ShapeObject>, k: int) -> Seq<char>
    decreases s, k,
{
    if k <= 0 || k > s.len() {
        seq![]
    } else {
        shapes_xml(s, k - 1) + shape_xml(s[k - 1])
    }
}

/// Whether a drawing object is written at all: lines, rectangles, pictures and groups (a
/// group writes its container even when none of its members is written).
pub open spec fn shape_top_written(s: ShapeObject) -> bool {
    s is Line || s is Rectangle || s is Group || s is Picture
}

/// Whether a control is written, in a run of its own, by body paragraphs and by table cells
/// alike: tables, pictures, page hiding, page number positions, forms, and drawing objects
/// that are lines, rectangles, pictures or groups.
pub open spec fn control_supported(c: Control) -> bool {
    match c {
        Control::Table(_)
        | Control::Picture(_)
        | Control::PageHide(_)
        | Control::PageNumberPos(_)
        | Control::Form(_) => true,
        Control::Shape(s) => shape_top_written(*s),
        _ => false,
    }
}

// ---- the recursive structure ----

/// A table's own part: the ids it refers to itself, and everything before its rows.
pub open spec fn table_head_out(t: Table) -> Emitted {
    Emitted {
        fits: true,
        xml: tbl_head_xml(t),
        border_fills: table_border_fills(t),
        para_shapes: seq![],
        styles: seq![],
        char_shapes: seq![],
    }
}

/// A table: its own part, its rows, and its end.
#[verifier::opaque]
pub open spec fn table_out(t: Table) -> Emitted
    decreases t, 0int, 0int,
{
    then(
        table_head_out(t),
        then(rows_out(t.cells@, t.row_count as int), xml_only(end_tag_text("hp:tbl"@))),
    )
}

/// Rows `0..n`, each `<hp:tr>` with its cells by column.
#[verifier::opaque]
pub open spec fn rows_out(cells: Seq<Cell>, n: int) -> Emitted
    decreases cells, 1int, n,
{
    if n <= 0 {
        nothing()
    } else {
        let order = row_order(cells, n - 1);
        then(
            rows_out(cells, n - 1),
            then(
                xml_only(open_tag_text("hp:tr"@, seq![])),
                then(cells_at_out(cells, order, order.len() as int), xml_only(end_tag_text("hp:tr"@))),
            ),
        )
    }
}

/// The cells at the first `k` of the indices `idx`.
#[verifier::opaque]
pub open spec fn cells_at_out(cells: Seq<Cell>, idx: Seq<int>, k: int) -> Emitted
    decreases cells, 0int, k,
{
    if k <= 0 || k > idx.len() {
        nothing()
    } else if 0 <= idx[k - 1] < cells.len() {
        then(cells_at_out(cells, idx, k - 1), cell_out(cells[idx[k - 1]]))
    } else {
        cells_at_out(cells, idx, k - 1)
    }
}

/// A cell: `<hp:tc>`, its sub-list, address, span, size, margin.
#[verifier::opaque]
pub open spec fn cell_out(c: Cell) -> Emitted
    decreases c, 1int, 0int,
{
    then(
        xml_only(open_tag_text("hp:tc"@, tc_attrs(c))),
        then(sub_list_out(c), xml_only(cell_tail_xml(c))),
    )
}

/// `<hp:subList>` with the cell's paragraphs.
#[verifier::opaque]
pub open spec fn sub_list_out(c: Cell) -> Emitted
    decreases c, 0int, 0int,
{
    then(
        xml_only(open_tag_text("hp:subList"@, sub_list_attrs(c))),
        then(
            paras_out(c.paragraphs@, c.paragraphs@.len() as int),
            xml_only(end_tag_text("hp:subList"@)),
        ),
    )
}

/// The first `n` cell paragraphs.
#[verifier::opaque]
pub open spec fn paras_out(ps: Seq<Paragraph>, n: int) -> Emitted
    decreases ps, 0int, n,
{
    if n <= 0 || n > ps.len() {
        nothing()
    } else {
        then(paras_out(ps, n - 1), cell_para_out(ps[n - 1], n - 1))
    }
}

/// The `i`-th paragraph of a cell up to its controls: the ids it refers to, `<hp:p>`, its
/// text runs.
pub open spec fn cell_para_head(p: Paragraph, i: int) -> Emitted {
    Emitted {
        fits: p.text@.len() == 0 || positions_fit(p.text@, p.char_offsets@),
        xml: open_tag_text("hp:p"@, cell_p_attrs(p, i)) + cell_text_runs_xml(
            p.text@,
            p.char_offsets@,
            p.char_shapes@,
            p.controls@.len() == 0,
        ),
        border_fills: seq![],
        para_shapes: seq![p.para_shape_id],
        styles: seq![p.style_id as u16],
        char_shapes: p.char_shapes@.map_values(|r: CharShapeRef| r.char_shape_id),
    }
}

/// The `i`-th paragraph of a cell: its head, a run for each written control, its line
/// segments.
#[verifier::opaque]
pub open spec fn cell_para_out(p: Paragraph, i: int) -> Emitted
    decreases p, 0int, 0int,
{
    then(
        cell_para_head(p, i),
        then(
            control_runs_out(p.controls@, p.controls@.len() as int, first_shape_id(p.char_shapes@)),
            xml_only(cell_linesegs_xml(p.line_segs@) + end_tag_text("hp:p"@)),
        ),
    )
}

/// Runs of the first `n` controls of a cell paragraph.
#[verifier::opaque]
pub open spec fn control_runs_out(cs: Seq<Control>, n: int, id: u32) -> Emitted
    decreases cs, 0int, n,
{
    if n <= 0 || n > cs.len() {
        nothing()
    } else {
        then(control_runs_out(cs, n - 1, id), control_run_out(cs[n - 1], id))
    }
}

/// A control in a cell: when the cell writes it, a run (`charPrIDRef` of the paragraph's
/// first shape) around it; nothing otherwise.
#[verifier::opaque]
pub open spec fn control_run_out(c: Control, id: u32) -> Emitted
    decreases c, 1int, 0int,
{
    if control_supported(c) {
        then(
            xml_only(run_open_xml(id)),
            then(cell_control_out(c), xml_only(end_tag_text("hp:run"@))),
        )
    } else {
        nothing()
    }
}

/// A control as a cell writes it.
#[verifier::opaque]
pub open spec fn cell_control_out(c: Control) -> Emitted
    decreases c, 0int, 0int,
{
    match c {
        Control::Table(t) => table_out(*t),
        Control::Picture(p) => xml_only(p.xml@),
        Control::Shape(s) => xml_only(shape_xml(*s)),
        Control::Form(f) => xml_only(form_xml(*f)),
        Control::PageHide(ph) => xml_only(page_hide_xml(ph)),
        Control::PageNumberPos(pn) => xml_only(page_number_pos_xml(pn)),
        _ => nothing(),
    }
}

// ---- enumeration helpers ----

fn text_wrap_str(w: TextWrap) -> (s: &'static str)
    ensures
        s@ == text_wrap_text(w),
{
    match w {
        TextWrap::Square => "SQUARE",
        TextWrap::Tight => "TIGHT",
        TextWrap::Through => "THROUGH",
        TextWrap::TopAndBottom => "TOP_AND_BOTTOM",
        TextWrap::BehindText => "BEHIND_TEXT",
        TextWrap::InFrontOfText => "IN_FRONT_OF_TEXT",
    }
}

/// textFlow by wrap kind: every kind flows on both sides (as observed in Hancom files).
fn text_flow_str(w: TextWrap) -> (s: &'static str)
    ensures
        s@ == "BOTH_SIDES"@,
{
    match w {
        TextWrap::Square | TextWrap::Tight | TextWrap::Through => "BOTH_SIDES",
        _ => "BOTH_SIDES",
    }
}

fn table_page_break_str(pb: TablePageBreak) -> (s: &'static str)
    ensures
        s@ == page_break_text(pb),
{
    match pb {
        TablePageBreak::NoBreak => "NONE",
        TablePageBreak::CellBreak => "CELL",
        TablePageBreak::RowBreak => "TABLE",
    }
}

fn vert_rel_to_str(v: VertRelTo) -> (s: &'static str)
    ensures
        s@ == vert_rel_to_text(v),
{
    match v {
        VertRelTo::Paper => "PAPER",
        VertRelTo::Page => "PAGE",
        VertRelTo::Para => "PARA",
    }
}

fn horz_rel_to_str(h: HorzRelTo) -> (s: &'static str)
    ensures
        s@ == horz_rel_to_text(h),
{
    match h {
        HorzRelTo::Paper => "PAPER",
        HorzRelTo::Page => "PAGE",
        HorzRelTo::Column => "COLUMN",
        HorzRelTo::Para => "PARA",
    }
}

fn vert_align_str(v: VertAlign) -> (s: &'static str)
    ensures
        s@ == vert_align_text(v),
{
    match v {
        VertAlign::Top => "TOP",
        VertAlign::Center => "CENTER",
        VertAlign::Bottom => "BOTTOM",
        VertAlign::Inside => "INSIDE",
        VertAlign::Outside => "OUTSIDE",
    }
}

fn horz_align_str(h: HorzAlign) -> (s: &'static str)
    ensures
        s@ == horz_align_text(h),
{
    match h {
        HorzAlign::Left => "LEFT",
        HorzAlign::Center => "CENTER",
        HorzAlign::Right => "RIGHT",
        HorzAlign::Inside => "INSIDE",
        HorzAlign::Outside => "OUTSIDE",
    }
}

fn cell_vert_align_str(v: VerticalAlign) -> (s: &'static str)
    ensures
        s@ == cell_vert_align_text(v),
{
    match v {
        VerticalAlign::Top => "TOP",
        VerticalAlign::Center => "CENTER",
        VerticalAlign::Bottom => "BOTTOM",
    }
}

// ---- simple children ----

fn write_sz(w: &mut quick_xml::Writer<Vec<u8>>, c: &CommonObjAttr) -> (r: Result<(), SerializeError>)
    ensures
        r is Ok,
        indented(*final(w)) == indented(*old(w)),
        r is Ok ==> appended(*old(w), *final(w), sz_xml(*c)),
{
    reveal(sz_xml);
    let width = nat_string(c.width as u64);
    let height = nat_string(c.height as u64);
    proof {
        reveal_with_fuel(attrs_text, 6);
    }
    empty_tag(
        w,
        "hp:sz",
        &[
            ("width", width.as_str()),
            ("widthRelTo", "ABSOLUTE"),
            ("height", height.as_str()),
            ("heightRelTo", "ABSOLUTE"),
            ("protect", "0"),
        ],
    )
}

fn write_pos(w: &mut quick_xml::Writer<Vec<u8>>, c: &CommonObjAttr) -> (r: Result<(), SerializeError>)
    ensures
        r is Ok,
        indented(*final(w)) == indented(*old(w)),
        r is Ok ==> appended(*old(w), *final(w), pos_xml(*c)),
{
    reveal(pos_xml);
    let treat = bool01(c.treat_as_char);
    let vert_offset = nat_string(c.vertical_offset as u64);
    let horz_offset = nat_string(c.horizontal_offset as u64);
    proof {
        reveal_with_fuel(attrs_text, 12);
    }
    empty_tag(
        w,
        "hp:pos",
        &[
            ("treatAsChar", treat),
            ("affectLSpacing", "0"),
            ("flowWithText", "1"),
            ("allowOverlap", "0"),
            ("holdAnchorAndSO", "0"),
            ("vertRelTo", vert_rel_to_str(c.vert_rel_to)),
            ("horzRelTo", horz_rel_to_str(c.horz_rel_to)),
            ("vertAlign", vert_align_str(c.vert_align)),
            ("horzAlign", horz_align_str(c.horz_align)),
            ("vertOffset", vert_offset.as_str()),
            ("horzOffset", horz_offset.as_str()),
        ],
    )
}

fn write_margin(
    w: &mut quick_xml::Writer<Vec<u8>>,
    name: &str,
    left: i16,
    right: i16,
    top: i16,
    bottom: i16,
) -> (r: Result<(), SerializeError>)
    ensures
        r is Ok,
        indented(*final(w)) == indented(*old(w)),
        r is Ok ==> appended(*old(w), *final(w), margin_xml(name@, left, right, top, bottom)),
{
    reveal(margin_xml);
    let left = int_string(left as i64);
    let right = int_string(right as i64);
    let top = int_string(top as i64);
    let bottom = int_string(bottom as i64);
    proof {
        reveal_with_fuel(attrs_text, 5);
    }
    empty_tag(
        w,
        name,
        &[
            ("left", left.as_str()),
            ("right", right.as_str()),
            ("top", top.as_str()),
            ("bottom", bottom.as_str()),
        ],
    )
}

fn write_out_margin(w: &mut quick_xml::Writer<Vec<u8>>, t: &Table) -> (r: Result<(), SerializeError>)
    ensures
        r is Ok,
        indented(*final(w)) == indented(*old(w)),
        r is Ok ==> appended(
            *old(w),
            *final(w),
            margin_xml(
                "hp:outMargin"@,
                t.outer_margin_left,
                t.outer_margin_right,
                t.outer_margin_top,
                t.outer_margin_bottom,
            ),
        ),
{
    write_margin(
        w,
        "hp:outMargin",
        t.outer_margin_left,
        t.outer_margin_right,
        t.outer_margin_top,
        t.outer_margin_bottom,
    )
}

fn write_in_margin(w: &mut quick_xml::Writer<Vec<u8>>, t: &Table) -> (r: Result<(), SerializeError>)
    ensures
        r is Ok,
        indented(*final(w)) == indented(*old(w)),
        r is Ok ==> appended(
            *old(w),
            *final(w),
            margin_xml("hp:inMargin"@, t.padding.left, t.padding.right, t.padding.top, t.padding.bottom),
        ),
{
    write_margin(w, "hp:inMargin", t.padding.left, t.padding.right, t.padding.top, t.padding.bottom)
}

fn write_cell_addr(w: &mut quick_xml::Writer<Vec<u8>>, cell: &Cell) -> (r: Result<(), SerializeError>)
    ensures
        r is Ok,
        indented(*final(w)) == indented(*old(w)),
        r is Ok ==> appended(
            *old(w),
            *final(w),
            empty_tag_text(
                "hp:cellAddr"@,
                attr_text("colAddr"@, nat_text(cell.col as nat)) + attr_text(
                    "rowAddr"@,
                    nat_text(cell.row as nat),
                ),
            ),
        ),
{
    let col = nat_string(cell.col as u64);
    let row = nat_string(cell.row as u64);
    proof {
        reveal_with_fuel(attrs_text, 3);
    }
    empty_tag(w, "hp:cellAddr", &[("colAddr", col.as_str()), ("rowAddr", row.as_str())])
}

fn write_cell_span(w: &mut quick_xml::Writer<Vec<u8>>, cell: &Cell) -> (r: Result<(), SerializeError>)
    ensures
        r is Ok,
        indented(*final(w)) == indented(*old(w)),
        r is Ok ==> appended(
            *old(w),
            *final(w),
            empty_tag_text(
                "hp:cellSpan"@,
                attr_text("colSpan"@, nat_text(span_value(cell.col_span))) + attr_text(
                    "rowSpan"@,
                    nat_text(span_value(cell.row_span)),
                ),
            ),
        ),
{
    let cs = nat_string(if cell.col_span >= 1 { cell.col_span } else { 1 } as u64);
    let rs = nat_string(if cell.row_span >= 1 { cell.row_span } else { 1 } as u64);
    proof {
        reveal_with_fuel(attrs_text, 3);
    }
    empty_tag(w, "hp:cellSpan", &[("colSpan", cs.as_str()), ("rowSpan", rs.as_str())])
}

fn write_cell_sz(w: &mut quick_xml::Writer<Vec<u8>>, cell: &Cell) -> (r: Result<(), SerializeError>)
    ensures
        r is Ok,
        indented(*final(w)) == indented(*old(w)),
        r is Ok ==> appended(
            *old(w),
            *final(w),
            empty_tag_text(
                "hp:cellSz"@,
                attr_text("width"@, nat_text(cell.width as nat)) + attr_text(
                    "height"@,
                    nat_text(cell.height as nat),
                ),
            ),
        ),
{
    let w_s = nat_string(cell.width as u64);
    let h_s = nat_string(cell.height as u64);
    proof {
        reveal_with_fuel(attrs_text, 3);
    }
    empty_tag(w, "hp:cellSz", &[("width", w_s.as_str()), ("height", h_s.as_str())])
}

fn write_cell_margin(w: &mut quick_xml::Writer<Vec<u8>>, cell: &Cell) -> (r: Result<
    (),
    SerializeError,
>)
    ensures
        r is Ok,
        indented(*final(w)) == indented(*old(w)),
        r is Ok ==> appended(
            *old(w),
            *final(w),
            margin_xml(
                "hp:cellMargin"@,
                cell.padding.left,
                cell.padding.right,
                cell.padding.top,
                cell.padding.bottom,
            ),
        ),
{
    write_margin(
        w,
        "hp:cellMargin",
        cell.padding.left,
        cell.padding.right,
        cell.padding.top,
        cell.padding.bottom,
    )
}

// ---- line segments ----

fn write_lineseg(w: &mut quick_xml::Writer<Vec<u8>>, seg: &LineSeg) -> (r: Result<(), SerializeError>)
    ensures
        r is Ok,
        indented(*final(w)) == indented(*old(w)),
        r is Ok ==> appended(*old(w), *final(w), lineseg_xml(*seg)),
{
    let textpos = nat_string(seg.text_start as u64);
    let vertpos = int_string(seg.vertical_pos as i64);
    let vertsize = int_string(seg.line_height as i64);
    let textheight = int_string(seg.text_height as i64);
    let baseline = int_string(seg.baseline_distance as i64);
    let spacing = int_string(seg.line_spacing as i64);
    let horzpos = int_string(seg.column_start as i64);
    let horzsize = int_string(seg.segment_width as i64);
    let flags = nat_string(seg.tag as u64);
    proof {
        reveal_with_fuel(attrs_text, 10);
    }
    empty_tag(
        w,
        "hp:lineseg",
        &[
            ("textpos", textpos.as_str()),
            ("vertpos", vertpos.as_str()),
            ("vertsize", vertsize.as_str()),
            ("textheight", textheight.as_str()),
            ("baseline", baseline.as_str()),
            ("spacing", spacing.as_str()),
            ("horzpos", horzpos.as_str()),
            ("horzsize", horzsize.as_str()),
            ("flags", flags.as_str()),
        ],
    )
}

/// `<hp:linesegarray>` with the paragraph's line segments as they are, or one placeholder
/// segment when it has none.
fn write_cell_linesegs(w: &mut quick_xml::Writer<Vec<u8>>, line_segs: &[LineSeg]) -> (r: Result<
    (),
    SerializeError,
>)
    ensures
        r is Ok,
        indented(*final(w)) == indented(*old(w)),
        r is Ok ==> appended(*old(w), *final(w), cell_linesegs_xml(line_segs@)),
{
    reveal(cell_linesegs_xml);
    let ghost w0 = *w;
    start_tag(w, "hp:linesegarray")?;
    let ghost w1 = *w;
    if line_segs.len() == 0 {
        write_cell_fallback_lineseg(w)?;
    } else {
        let mut i: usize = 0;
        proof {
            lemma_appended_nothing(*w);
        }
        while i < line_segs.len()
            invariant
                i <= line_segs.len(),
                indented(*w) == indented(w1),
                indented(w1) == indented(*old(w)),
                appended(w1, *w, linesegs_xml(line_segs@, i as int)),
            decreases line_segs.len() - i,
        {
            let ghost wi = *w;
            write_lineseg(w, &line_segs[i])?;
            proof {
                lemma_appended_then(
                    w1,
                    wi,
                    *w,
                    linesegs_xml(line_segs@, i as int),
                    lineseg_xml(line_segs@[i as int]),
                );
            }
            i += 1;
        }
    }
    let ghost mid = if line_segs@.len() == 0 {
        cell_fallback_lineseg_xml()
    } else {
        linesegs_xml(line_segs@, line_segs@.len() as int)
    };
    proof {
        lemma_appended_then(w0, w1, *w, open_tag_text("hp:linesegarray"@, seq![]), mid);
    }
    let ghost w2 = *w;
    end_tag(w, "hp:linesegarray")?;
    proof {
        lemma_appended_then(
            w0,
            w2,
            *w,
            open_tag_text("hp:linesegarray"@, seq![]) + mid,
            end_tag_text("hp:linesegarray"@),
        );
    }
    Ok(())
}

fn write_cell_fallback_lineseg(w: &mut quick_xml::Writer<Vec<u8>>) -> (r: Result<
    (),
    SerializeError,
>)
    ensures
        r is Ok,
        indented(*final(w)) == indented(*old(w)),
        r is Ok ==> appended(*old(w), *final(w), cell_fallback_lineseg_xml()),
{
    proof {
        reveal_with_fuel(attrs_text, 10);
    }
    empty_tag(
        w,
        "hp:lineseg",
        &[
            ("textpos", "0"),
            ("vertpos", "0"),
            ("vertsize", "1000"),
            ("textheight", "1000"),
            ("baseline", "850"),
            ("spacing", "600"),
            ("horzpos", "0"),
            ("horzsize", "12964"),
            ("flags", "393216"),
        ],
    )
}

// ---- cell text ----

/// `<hp:t>text</hp:t>`. Control characters other than tab and line feed (such as the field
/// markers U+0003/U+0004 that the parser leaves in cell text) lie outside the XML 1.0
/// character range and cannot be escaped either, so they are dropped, as in body text.
fn write_cell_text(w: &mut quick_xml::Writer<Vec<u8>>, text: &str) -> (r: Result<(), SerializeError>)
    ensures
        r is Ok,
        indented(*final(w)) == indented(*old(w)),
        r is Ok ==> appended(*old(w), *final(w), cell_t_xml(text@)),
{
    let ghost w0 = *w;
    let mut sanitized = String::new();
    for c in it: text.chars()
        invariant
            it.seq() == text@,
            sanitized@ == sanitize(text@.take(it.index() as int)),
    {
        assert(c == text@[it.index() as int]);
        assert(text@.take(it.index() + 1).drop_last() == text@.take(it.index() as int));
        if (c as u32) >= 0x20 || c == '\t' || c == '\n' {
            string_push(&mut sanitized, c);
        }
    }
    assert(text@.take(text@.len() as int) == text@);
    start_tag(w, "hp:t")?;
    let ghost w1 = *w;
    if !sanitized.as_str().is_empty() {
        super::utils::text(w, sanitized.as_str())?;
    } else {
        proof {
            lemma_appended_nothing(*w);
            assert(escape_text(sanitized@) == Seq::<char>::empty());
        }
    }
    proof {
        lemma_appended_then(w0, w1, *w, open_tag_text("hp:t"@, seq![]), escape_text(sanitize(text@)));
    }
    let ghost w2 = *w;
    end_tag(w, "hp:t")?;
    proof {
        lemma_appended_then(
            w0,
            w2,
            *w,
            open_tag_text("hp:t"@, seq![]) + escape_text(sanitize(text@)),
            end_tag_text("hp:t"@),
        );
    }
    Ok(())
}

fn write_cell_text_run(w: &mut quick_xml::Writer<Vec<u8>>, char_shape_id: u32, text: &str) -> (r:
    Result<(), SerializeError>)
    ensures
        r is Ok,
        indented(*final(w)) == indented(*old(w)),
        r is Ok ==> appended(*old(w), *final(w), run_xml(char_shape_id, text@)),
{
    reveal(run_open_xml);
    let ghost w0 = *w;
    let cs = nat_string(char_shape_id as u64);
    proof {
        reveal_with_fuel(attrs_text, 2);
    }
    start_tag_attrs(w, "hp:run", &[("charPrIDRef", cs.as_str())])?;
    let ghost w1 = *w;
    write_cell_text(w, text)?;
    proof {
        lemma_appended_then(w0, w1, *w, run_open_xml(char_shape_id), cell_t_xml(text@));
    }
    let ghost w2 = *w;
    end_tag(w, "hp:run")?;
    proof {
        lemma_appended_then(
            w0,
            w2,
            *w,
            run_open_xml(char_shape_id) + cell_t_xml(text@),
            end_tag_text("hp:run"@),
        );
    }
    Ok(())
}

/// Zero-length character-shape runs as empty `<hp:run/>` tags.
fn write_zero_length_runs(w: &mut quick_xml::Writer<Vec<u8>>, char_shape_ids: &[u32]) -> (r:
    Result<(), SerializeError>)
    ensures
        r is Ok,
        indented(*final(w)) == indented(*old(w)),
        r is Ok ==> appended(
            *old(w),
            *final(w),
            zero_runs_xml(char_shape_ids@, char_shape_ids@.len() as int),
        ),
{
    let ghost w0 = *w;
    let mut i: usize = 0;
    proof {
        lemma_appended_nothing(*w);
    }
    while i < char_shape_ids.len()
        invariant
            i <= char_shape_ids.len(),
            w0 == *old(w),
            indented(*w) == indented(w0),
            appended(w0, *w, zero_runs_xml(char_shape_ids@, i as int)),
        decreases char_shape_ids.len() - i,
    {
        let ghost wi = *w;
        let cs = nat_string(char_shape_ids[i] as u64);
        proof {
            reveal_with_fuel(attrs_text, 2);
        }
        empty_tag(w, "hp:run", &[("charPrIDRef", cs.as_str())])?;
        proof {
            lemma_appended_then(
                w0,
                wi,
                *w,
                zero_runs_xml(char_shape_ids@, i as int),
                empty_tag_text(
                    "hp:run"@,
                    attr_text("charPrIDRef"@, nat_text(char_shape_ids@[i as int] as nat)),
                ),
            );
        }
        i += 1;
    }
    Ok(())
}

/// The text of a cell paragraph as runs of equal character shape. An empty text still
/// gets one run with the first shape. With `preserve_trailing_runs` (paragraphs without
/// controls), references that start after the text end follow as empty runs: they carry
/// the paragraph-end caret style of Hancom files. Paragraphs with controls leave them out,
/// since their control runs come back as such references on the next read.
fn write_cell_text_runs(
    w: &mut quick_xml::Writer<Vec<u8>>,
    text: &str,
    char_offsets: &[u32],
    char_shapes: &[CharShapeRef],
    preserve_trailing_runs: bool,
) -> (r: Result<(), SerializeError>)
    requires
        text@.len() == 0 || positions_fit(text@, char_offsets@),
    ensures
        r is Ok,
        indented(*final(w)) == indented(*old(w)),
        r is Ok ==> appended(
            *old(w),
            *final(w),
            cell_text_runs_xml(text@, char_offsets@, char_shapes@, preserve_trailing_runs),
        ),
{
    reveal(cell_text_runs_xml);
    let ghost w0 = *w;
    if text.is_empty() {
        let first = first_char_shape_id(char_shapes);
        write_cell_text_run(w, first, "")?;
        proof {
            reveal_strlit("");
        }
        let ghost w1 = *w;
        let ghost ids = trailing_refs(char_shapes@, 0, true, char_shapes@.len() as int);
        if preserve_trailing_runs {
            let refs = trailing_zero_length_refs(char_shapes, 0, true);
            write_zero_length_runs(w, refs.as_slice())?;
        } else {
            proof {
                lemma_appended_nothing(*w);
            }
        }
        proof {
            lemma_appended_then(
                w0,
                w1,
                *w,
                run_xml(first_shape_id(char_shapes@), seq![]),
                if preserve_trailing_runs {
                    zero_runs_xml(ids, ids.len() as int)
                } else {
                    seq![]
                },
            );
        }
        return Ok(());
    }
    let (runs, end_pos) = split_char_shape_runs(text, char_offsets, char_shapes);
    let ghost rs = shape_runs(text@, char_offsets@, char_shapes@, text@.len() as int);
    let mut i: usize = 0;
    proof {
        lemma_appended_nothing(*w);
    }
    while i < runs.len()
        invariant
            i <= runs.len(),
            super::utils::runs_view(runs@) == rs,
            indented(*w) == indented(w0),
            w0 == *old(w),
            appended(w0, *w, runs_xml(rs, i as int)),
        decreases runs.len() - i,
    {
        let ghost wi = *w;
        write_cell_text_run(w, runs[i].0, runs[i].1.as_str())?;
        proof {
            assert(rs[i as int] == (runs@[i as int].0, runs@[i as int].1@));
            lemma_appended_then(
                w0,
                wi,
                *w,
                runs_xml(rs, i as int),
                run_xml(rs[i as int].0, rs[i as int].1),
            );
        }
        i += 1;
    }
    let ghost w1 = *w;
    let ghost ids = trailing_refs(
        char_shapes@,
        text_end(text@, char_offsets@, text@.len() as int),
        false,
        char_shapes@.len() as int,
    );
    if preserve_trailing_runs {
        let refs = trailing_zero_length_refs(char_shapes, end_pos, false);
        write_zero_length_runs(w, refs.as_slice())?;
    } else {
        proof {
            lemma_appended_nothing(*w);
        }
    }
    proof {
        lemma_appended_then(
            w0,
            w1,
            *w,
            runs_xml(rs, rs.len() as int),
            if preserve_trailing_runs {
                zero_runs_xml(ids, ids.len() as int)
            } else {
                seq![]
            },
        );
    }
    Ok(())
}

// ---- drawing objects and controls in cells ----

/// Whether a cell writes `control`.
pub(crate) fn control_supported_exec(control: &Control) -> (b: bool)
    ensures
        b == control_supported(*control),
{
    match control {
        Control::Table(_)
        | Control::Picture(_)
        | Control::PageHide(_)
        | Control::PageNumberPos(_)
        | Control::Form(_) => true,
        Control::Shape(shape) => match &**shape {
            ShapeObject::Line(_)
            | ShapeObject::Rectangle(_)
            | ShapeObject::Group(_)
            | ShapeObject::Picture(_) => true,
            _ => false,
        },
        _ => false,
    }
}

/// Writes a drawing object in a cell: lines, rectangles and pictures as their markup, groups
/// as their container around their members; `Ok(false)` for kinds that are not written.
pub(crate) fn write_cell_shape(
    w: &mut quick_xml::Writer<Vec<u8>>,
    shape: &ShapeObject,
    ctx: &SerializeContext,
) -> (r: Result<bool, SerializeError>)
    ensures
        r is Ok,
        indented(*final(w)) == indented(*old(w)),
        r is Ok ==> appended(*old(w), *final(w), shape_xml(*shape)),
        r matches Ok(b) ==> b == (shape is Line || shape is Rectangle || shape is Group
            || shape is Picture),
    decreases shape,
{
    match shape {
        ShapeObject::Line(line) => {
            write_markup(w, line.xml.as_str())?;
            Ok(true)
        },
        ShapeObject::Rectangle(rect) => {
            write_markup(w, rect.xml.as_str())?;
            Ok(true)
        },
        ShapeObject::Group(group) => {
            let ghost w0 = *w;
            write_markup(w, group.container_open.as_str())?;
            let ghost w1 = *w;
            let mut i: usize = 0;
            proof {
                lemma_appended_nothing(*w);
            }
            while i < group.children.len()
                invariant
                    i <= group.children.len(),
                    *shape == ShapeObject::Group(*group),
                    indented(*w) == indented(w1),
                    indented(w1) == indented(*old(w)),
                    appended(w1, *w, shapes_xml(group.children@, i as int)),
                decreases group.children.len() - i,
            {
                proof {
                    assert(shape->Group_0 == *group);
                    assert(decreases_to!(*shape => shape->Group_0));
                    assert(decreases_to!(*group => group.children));
                    assert(decreases_to!(group.children => group.children@));
                    assert(decreases_to!(group.children@ => group.children@[i as int]));
                }
                let ghost wi = *w;
                let _ = write_cell_shape(w, &group.children[i], ctx)?;
                proof {
                    lemma_appended_then(
                        w1,
                        wi,
                        *w,
                        shapes_xml(group.children@, i as int),
                        shape_xml(group.children@[i as int]),
                    );
                }
                i += 1;
            }
            proof {
                lemma_appended_then(
                    w0,
                    w1,
                    *w,
                    group.container_open@,
                    shapes_xml(group.children@, group.children@.len() as int),
                );
            }
            let ghost w2 = *w;
            write_markup(w, group.container_close.as_str())?;
            proof {
                lemma_appended_then(
                    w0,
                    w2,
                    *w,
                    group.container_open@ + shapes_xml(
                        group.children@,
                        group.children@.len() as int,
                    ),
                    group.container_close@,
                );
            }
            Ok(true)
        },
        ShapeObject::Picture(pic) => {
            write_markup(w, pic.xml.as_str())?;
            Ok(true)
        },
        _ => {
            proof {
                lemma_appended_nothing(*w);
            }
            Ok(false)
        },
    }
}

// ---- cell order ----

proof fn lemma_insert_by_col_at(cells: Seq<Cell>, x: int, s: Seq<int>, j: int)
    requires
        0 <= j <= s.len(),
        forall|t: int| j <= t < s.len() ==> cells[s[t]].col > cells[x].col,
        j == 0 || cells[s[j - 1]].col <= cells[x].col,
    ensures
        insert_by_col(cells, x, s) == s.insert(j, x),
    decreases s.len(),
{
    if s.len() == 0 {
        assert(s.insert(j, x) =~= seq![x]);
    } else if j == s.len() {
        assert(s.insert(j, x) =~= s.push(x));
    } else {
        lemma_insert_by_col_at(cells, x, s.drop_last(), j);
        assert(s.drop_last().insert(j, x).push(s.last()) =~= s.insert(j, x));
    }
}

pub open spec fn index_view(v: Seq<usize>) -> Seq<int> {
    v.map_values(|i: usize| i as int)
}

/// Indices of the cells of row `r`, by column (equal columns in table order).
fn row_cell_order(cells: &Vec<Cell>, r: u16) -> (order: Vec<usize>)
    ensures
        index_view(order@) == row_order(cells@, r as int),
        forall|k: int| 0 <= k < order@.len() ==> order@[k] < cells@.len(),
{
    reveal(row_order);
    let mut order: Vec<usize> = Vec::new();
    let mut i: usize = 0;
    while i < cells.len()
        invariant
            i <= cells.len(),
            index_view(order@) == sort_by_col(cells@, row_indices(cells@, r as int, i as int)),
            forall|k: int| 0 <= k < order@.len() ==> order@[k] < i,
        decreases cells.len() - i,
    {
        if cells[i].row == r {
            let ghost before = index_view(order@);
            let mut j = order.len();
            while j > 0 && cells[order[j - 1]].col > cells[i].col
                invariant
                    j <= order.len(),
                    i < cells.len(),
                    index_view(order@) == before,
                    forall|k: int| 0 <= k < order@.len() ==> order@[k] < i,
                    forall|t: int| j <= t < order@.len() ==> cells@[order@[t] as int].col > cells@[i as int].col,
                decreases j,
            {
                j = j - 1;
            }
            proof {
                lemma_insert_by_col_at(cells@, i as int, before, j as int);
                assert(row_indices(cells@, r as int, i + 1) == row_indices(cells@, r as int, i as int).push(i as int));
                assert(row_indices(cells@, r as int, i + 1).drop_last() == row_indices(cells@, r as int, i as int));
            }
            order.insert(j, i);
            assert(index_view(order@) =~= before.insert(j as int, i as int));
        }
        i += 1;
    }
    order
}

// ---- positions fit wherever the whole does ----

proof fn lemma_rows_fit(cells: Seq<Cell>, n: int, k: int)
    requires
        rows_out(cells, n).fits,
        0 <= k < n,
    ensures
        cells_at_out(cells, row_order(cells, k), row_order(cells, k).len() as int).fits,
    decreases n,
{
    reveal_with_fuel(rows_out, 1);
    reveal_with_fuel(cells_at_out, 1);
    let order = row_order(cells, n - 1);
    let c = cells_at_out(cells, order, order.len() as int);
    let z = xml_only(end_tag_text("hp:tr"@));
    let tr = xml_only(open_tag_text("hp:tr"@, seq![]));
    lemma_then(c, z);
    lemma_then(tr, then(c, z));
    lemma_then(rows_out(cells, n - 1), then(tr, then(c, z)));
    if k < n - 1 {
        lemma_rows_fit(cells, n - 1, k);
    }
}

proof fn lemma_cells_at_fit(cells: Seq<Cell>, idx: Seq<int>, n: int, k: int)
    requires
        cells_at_out(cells, idx, n).fits,
        0 <= k < n <= idx.len(),
        0 <= idx[k] < cells.len(),
    ensures
        cell_out(cells[idx[k]]).fits,
    decreases n,
{
    reveal_with_fuel(cells_at_out, 1);
    reveal_with_fuel(cell_out, 1);
    if 0 <= idx[n - 1] < cells.len() {
        lemma_then(cells_at_out(cells, idx, n - 1), cell_out(cells[idx[n - 1]]));
    }
    if k < n - 1 {
        lemma_cells_at_fit(cells, idx, n - 1, k);
    }
}

proof fn lemma_paras_fit(ps: Seq<Paragraph>, n: int, k: int)
    requires
        paras_out(ps, n).fits,
        0 <= k < n <= ps.len(),
    ensures
        cell_para_out(ps[k], k).fits,
    decreases n,
{
    reveal_with_fuel(paras_out, 1);
    reveal_with_fuel(cell_para_out, 1);
    lemma_then(paras_out(ps, n - 1), cell_para_out(ps[n - 1], n - 1));
    if k < n - 1 {
        lemma_paras_fit(ps, n - 1, k);
    }
}

proof fn lemma_control_runs_fit(cs: Seq<Control>, n: int, id: u32, k: int)
    requires
        control_runs_out(cs, n, id).fits,
        0 <= k < n <= cs.len(),
    ensures
        control_run_out(cs[k], id).fits,
    decreases n,
{
    reveal_with_fuel(control_runs_out, 1);
    reveal_with_fuel(control_run_out, 1);
    lemma_then(control_runs_out(cs, n - 1, id), control_run_out(cs[n - 1], id));
    if k < n - 1 {
        lemma_control_runs_fit(cs, n - 1, id, k);
    }
}

// ---- the table, recursively ----

fn write_tbl_open(w: &mut quick_xml::Writer<Vec<u8>>, table: &Table) -> (r: Result<(), SerializeError>)
    ensures
        r is Ok,
        indented(*final(w)) == indented(*old(w)),
        r is Ok ==> appended(*old(w), *final(w), open_tag_text("hp:tbl"@, tbl_attrs(*table))),
{
    reveal(tbl_attrs);
    let id_str = nat_string(table.common.instance_id as u64);
    let z_order = int_string(table.common.z_order as i64);
    let text_wrap = text_wrap_str(table.common.text_wrap);
    let text_flow = text_flow_str(table.common.text_wrap);
    let lock = bool01(false);
    let page_break = table_page_break_str(table.page_break);
    let repeat_header = bool01(table.repeat_header);
    let row_cnt = nat_string(table.row_count as u64);
    let col_cnt = nat_string(table.col_count as u64);
    let cell_spacing = int_string(table.cell_spacing as i64);
    let border_fill_id_ref = nat_string(table.border_fill_id as u64);
    proof {
        reveal_with_fuel(attrs_text, 15);
    }
    start_tag_attrs(
        w,
        "hp:tbl",
        &[
            ("id", id_str.as_str()),
            ("zOrder", z_order.as_str()),
            ("numberingType", "TABLE"),
            ("textWrap", text_wrap),
            ("textFlow", text_flow),
            ("lock", lock),
            ("dropcapstyle", "None"),
            ("pageBreak", page_break),
            ("repeatHeader", repeat_header),
            ("rowCnt", row_cnt.as_str()),
            ("colCnt", col_cnt.as_str()),
            ("cellSpacing", cell_spacing.as_str()),
            ("borderFillIDRef", border_fill_id_ref.as_str()),
            ("noAdjust", "0"),
        ],
    )
}

/// Everything of the table element before its rows.
fn write_tbl_head(w: &mut quick_xml::Writer<Vec<u8>>, table: &Table) -> (r: Result<(), SerializeError>)
    ensures
        r is Ok,
        indented(*final(w)) == indented(*old(w)),
        r is Ok ==> appended(*old(w), *final(w), tbl_head_xml(*table)),
{
    reveal(tbl_head_xml);
    let ghost w0 = *w;
    let ghost a = open_tag_text("hp:tbl"@, tbl_attrs(*table));
    let ghost b = sz_xml(table.common);
    let ghost c = pos_xml(table.common);
    let ghost d = margin_xml(
        "hp:outMargin"@,
        table.outer_margin_left,
        table.outer_margin_right,
        table.outer_margin_top,
        table.outer_margin_bottom,
    );
    let ghost e = margin_xml(
        "hp:inMargin"@,
        table.padding.left,
        table.padding.right,
        table.padding.top,
        table.padding.bottom,
    );
    write_tbl_open(w, table)?;
    let ghost w1 = *w;
    write_sz(w, &table.common)?;
    proof {
        lemma_appended_then(w0, w1, *w, a, b);
    }
    let ghost w2 = *w;
    write_pos(w, &table.common)?;
    proof {
        lemma_appended_then(w0, w2, *w, a + b, c);
    }
    let ghost w3 = *w;
    write_out_margin(w, table)?;
    proof {
        lemma_appended_then(w0, w3, *w, a + b + c, d);
    }
    let ghost w4 = *w;
    write_in_margin(w, table)?;
    proof {
        lemma_appended_then(w0, w4, *w, a + b + c + d, e);
    }
    Ok(())
}

/// Records the border/fill ids of the table, its zones and its cells.
fn reference_table_border_fills(table: &Table, ctx: &mut SerializeContext)
    ensures
        recorded(
            *old(ctx),
            *final(ctx),
            Emitted {
                fits: true,
                xml: seq![],
                border_fills: table_border_fills(*table),
                para_shapes: seq![],
                styles: seq![],
                char_shapes: seq![],
            },
        ),
{
    reveal(table_border_fills);
    let ghost c0 = *ctx;
    ctx.border_fill_ids.reference(table.border_fill_id);
    let ghost zv = table.zones@.map_values(|z: crate::model::table::CellZone| z.border_fill_id);
    let ghost cv = table.cells@.map_values(|c: Cell| c.border_fill_id);
    let mut i: usize = 0;
    while i < table.zones.len()
        invariant
            i <= table.zones.len(),
            zv == table.zones@.map_values(|z: crate::model::table::CellZone| z.border_fill_id),
            ctx.border_fill_ids.defined@ == c0.border_fill_ids.defined@,
            ctx.border_fill_ids.referenced@ == c0.border_fill_ids.referenced@ + seq![
                table.border_fill_id,
            ] + zv.take(i as int),
            ctx.para_shape_ids == c0.para_shape_ids,
            ctx.style_ids == c0.style_ids,
            ctx.char_shape_ids == c0.char_shape_ids,
        decreases table.zones.len() - i,
    {
        ctx.border_fill_ids.reference(table.zones[i].border_fill_id);
        assert(zv.take(i + 1) == zv.take(i as int).push(zv[i as int]));
        i += 1;
    }
    assert(zv.take(zv.len() as int) == zv);
    let mut j: usize = 0;
    while j < table.cells.len()
        invariant
            j <= table.cells.len(),
            cv == table.cells@.map_values(|c: Cell| c.border_fill_id),
            ctx.border_fill_ids.defined@ == c0.border_fill_ids.defined@,
            ctx.border_fill_ids.referenced@ == c0.border_fill_ids.referenced@ + seq![
                table.border_fill_id,
            ] + zv + cv.take(j as int),
            ctx.para_shape_ids == c0.para_shape_ids,
            ctx.style_ids == c0.style_ids,
            ctx.char_shape_ids == c0.char_shape_ids,
        decreases table.cells.len() - j,
    {
        ctx.border_fill_ids.reference(table.cells[j].border_fill_id);
        assert(cv.take(j + 1) == cv.take(j as int).push(cv[j as int]));
        j += 1;
    }
    assert(cv.take(cv.len() as int) == cv);
    assert(c0.border_fill_ids.referenced@ + seq![table.border_fill_id] + zv + cv
        == c0.border_fill_ids.referenced@ + table_border_fills(*table));
    assert(c0.para_shape_ids.referenced@ + Seq::<u16>::empty() == c0.para_shape_ids.referenced@);
    assert(c0.style_ids.referenced@ + Seq::<u16>::empty() == c0.style_ids.referenced@);
    assert(c0.char_shape_ids.referenced@ + Seq::<u32>::empty() == c0.char_shape_ids.referenced@);
}

/// Writes `<hp:tbl>`: it records the border/fill ids of the table, its zones and its cells,
/// writes the table element with its size, position and margins, then one `<hp:tr>` for each
/// row `0..row_count` holding that row's cells by column. `table_fits` tells whether its
/// positions fit a `u32`, as this requires.
pub fn write_table(
    w: &mut quick_xml::Writer<Vec<u8>>,
    table: &Table,
    ctx: &mut SerializeContext,
) -> (r: Result<(), SerializeError>)
    requires
        table_out(*table).fits,
    ensures
        r is Ok,
        indented(*final(w)) == indented(*old(w)),
        r is Ok ==> progress(*old(w), *old(ctx), *final(w), *final(ctx), table_out(*table)),
    decreases table, 3int,
{
    reveal(then);
    reveal_with_fuel(table_out, 1);
    reveal_with_fuel(rows_out, 1);
    let ghost w0 = *w;
    let ghost c0 = *ctx;
    reference_table_border_fills(table, ctx);
    let ghost c1 = *ctx;
    write_tbl_head(w, table)?;
    let ghost w1 = *w;
    proof {
        reveal(then);
        assert(then(
            Emitted {
                fits: true,
                xml: seq![],
                border_fills: table_border_fills(*table),
                para_shapes: seq![],
                styles: seq![],
                char_shapes: seq![],
            },
            xml_only(tbl_head_xml(*table)),
        ) == table_head_out(*table));
        lemma_recorded_nothing(c1);
        lemma_recorded_then(
            c0,
            c1,
            c1,
            Emitted {
                fits: true,
                xml: seq![],
                border_fills: table_border_fills(*table),
                para_shapes: seq![],
                styles: seq![],
                char_shapes: seq![],
            },
            xml_only(tbl_head_xml(*table)),
        );
    }
    write_rows(w, table, ctx)?;
    let ghost w2 = *w;
    let ghost c2 = *ctx;
    end_tag(w, "hp:tbl")?;
    proof {
        lemma_progress_xml(w2, *w, c2, end_tag_text("hp:tbl"@));
        lemma_progress_then(
            w1,
            c1,
            w2,
            c2,
            *w,
            c2,
            rows_out(table.cells@, table.row_count as int),
            xml_only(end_tag_text("hp:tbl"@)),
        );
        lemma_progress_then(
            w0,
            c0,
            w1,
            c1,
            *w,
            c2,
            table_head_out(*table),
            then(rows_out(table.cells@, table.row_count as int), xml_only(end_tag_text("hp:tbl"@))),
        );
    }
    Ok(())
}

/// One `<hp:tr>` per row `0..row_count`, each with the cells of that row by column.
fn write_rows(w: &mut quick_xml::Writer<Vec<u8>>, table: &Table, ctx: &mut SerializeContext) -> (r:
    Result<(), SerializeError>)
    requires
        rows_out(table.cells@, table.row_count as int).fits,
    ensures
        r is Ok,
        indented(*final(w)) == indented(*old(w)),
        r is Ok ==> progress(
            *old(w),
            *old(ctx),
            *final(w),
            *final(ctx),
            rows_out(table.cells@, table.row_count as int),
        ),
    decreases table, 2int,
{
    reveal(then);
    reveal_with_fuel(rows_out, 1);
    reveal_with_fuel(cells_at_out, 1);
    let ghost w0 = *w;
    let ghost c0 = *ctx;
    let ghost cells = table.cells@;
    let mut row_idx: u16 = 0;
    proof {
        lemma_progress_nothing(*w, *ctx);
    }
    while row_idx < table.row_count
        invariant
            row_idx <= table.row_count,
            cells == table.cells@,
            w0 == *old(w),
            c0 == *old(ctx),
            rows_out(cells, table.row_count as int).fits,
            indented(*w) == indented(w0),
            progress(w0, c0, *w, *ctx, rows_out(cells, row_idx as int)),
        decreases table.row_count - row_idx,
    {
        reveal(then);
        reveal_with_fuel(rows_out, 1);
        reveal_with_fuel(cells_at_out, 1);
        let ghost wr = *w;
        let ghost cr = *ctx;
        start_tag(w, "hp:tr")?;
        let ghost wa = *w;
        let order = row_cell_order(&table.cells, row_idx);
        let ghost ov = index_view(order@);
        proof {
            lemma_rows_fit(cells, table.row_count as int, row_idx as int);
            lemma_progress_nothing(*w, *ctx);
        }
        let mut k: usize = 0;
        assert(cells_at_out(cells, ov, 0) == nothing()) by {
            reveal_with_fuel(cells_at_out, 1);
        }
        while k < order.len()
            invariant
                k <= order.len(),
                row_idx < table.row_count,
                cells == table.cells@,
                ov == index_view(order@),
                ov == row_order(cells, row_idx as int),
                forall|t: int| 0 <= t < order@.len() ==> order@[t] < cells.len(),
                cells_at_out(cells, ov, ov.len() as int).fits,
                indented(wa) == indented(*old(w)),
                indented(*w) == indented(wa),
                progress(wa, cr, *w, *ctx, cells_at_out(cells, ov, k as int)),
            decreases order.len() - k,
        {
            reveal(then);
            reveal_with_fuel(cells_at_out, 1);
            reveal_with_fuel(cell_out, 1);
            let idx = order[k];
            let ghost wk = *w;
            let ghost ck = *ctx;
            proof {
                lemma_cells_at_fit(cells, ov, ov.len() as int, k as int);
                assert(decreases_to!(*table => table.cells));
                assert(decreases_to!(table.cells => table.cells@));
                assert(decreases_to!(table.cells@ => table.cells@[idx as int]));
            }
            write_cell(w, &table.cells[idx], ctx)?;
            proof {
                assert(ov[k as int] == idx as int);
                lemma_progress_then(
                    wa,
                    cr,
                    wk,
                    ck,
                    *w,
                    *ctx,
                    cells_at_out(cells, ov, k as int),
                    cell_out(cells[idx as int]),
                );
            }
            k += 1;
        }
        let ghost wb = *w;
        let ghost cb = *ctx;
        end_tag(w, "hp:tr")?;
        proof {
            lemma_progress_xml(wr, wa, cr, open_tag_text("hp:tr"@, seq![]));
            lemma_progress_xml(wb, *w, cb, end_tag_text("hp:tr"@));
            lemma_progress_then(
                wa,
                cr,
                wb,
                cb,
                *w,
                cb,
                cells_at_out(cells, ov, ov.len() as int),
                xml_only(end_tag_text("hp:tr"@)),
            );
            lemma_progress_then(
                wr,
                cr,
                wa,
                cr,
                *w,
                cb,
                xml_only(open_tag_text("hp:tr"@, seq![])),
                then(cells_at_out(cells, ov, ov.len() as int), xml_only(end_tag_text("hp:tr"@))),
            );
            lemma_progress_then(
                w0,
                c0,
                wr,
                cr,
                *w,
                cb,
                rows_out(cells, row_idx as int),
                then(
                    xml_only(open_tag_text("hp:tr"@, seq![])),
                    then(
                        cells_at_out(cells, ov, ov.len() as int),
                        xml_only(end_tag_text("hp:tr"@)),
                    ),
                ),
            );
        }
        row_idx += 1;
    }
    Ok(())
}

fn write_tc_open(w: &mut quick_xml::Writer<Vec<u8>>, cell: &Cell) -> (r: Result<(), SerializeError>)
    ensures
        r is Ok,
        indented(*final(w)) == indented(*old(w)),
        r is Ok ==> appended(*old(w), *final(w), open_tag_text("hp:tc"@, tc_attrs(*cell))),
{
    reveal(tc_attrs);
    let name = match &cell.field_name {
        Some(s) => s.as_str(),
        None => "",
    };
    let header = bool01(cell.is_header);
    let has_margin = bool01(cell.apply_inner_margin);
    let border_ref = nat_string(cell.border_fill_id as u64);
    proof {
        reveal_with_fuel(attrs_text, 8);
    }
    start_tag_attrs(
        w,
        "hp:tc",
        &[
            ("name", name),
            ("header", header),
            ("hasMargin", has_margin),
            ("protect", "0"),
            ("editable", "0"),
            ("dirty", "0"),
            ("borderFillIDRef", border_ref.as_str()),
        ],
    )
}

/// Everything of a cell after its sub-list: address, span, size, margin, end.
fn write_cell_tail(w: &mut quick_xml::Writer<Vec<u8>>, cell: &Cell) -> (r: Result<(), SerializeError>)
    ensures
        r is Ok,
        indented(*final(w)) == indented(*old(w)),
        r is Ok ==> appended(*old(w), *final(w), cell_tail_xml(*cell)),
{
    reveal(cell_tail_xml);
    let ghost w0 = *w;
    let ghost a = empty_tag_text(
        "hp:cellAddr"@,
        attr_text("colAddr"@, nat_text(cell.col as nat)) + attr_text(
            "rowAddr"@,
            nat_text(cell.row as nat),
        ),
    );
    let ghost b = empty_tag_text(
        "hp:cellSpan"@,
        attr_text("colSpan"@, nat_text(span_value(cell.col_span))) + attr_text(
            "rowSpan"@,
            nat_text(span_value(cell.row_span)),
        ),
    );
    let ghost c = empty_tag_text(
        "hp:cellSz"@,
        attr_text("width"@, nat_text(cell.width as nat)) + attr_text(
            "height"@,
            nat_text(cell.height as nat),
        ),
    );
    let ghost d = margin_xml(
        "hp:cellMargin"@,
        cell.padding.left,
        cell.padding.right,
        cell.padding.top,
        cell.padding.bottom,
    );
    write_cell_addr(w, cell)?;
    let ghost w1 = *w;
    write_cell_span(w, cell)?;
    proof {
        lemma_appended_then(w0, w1, *w, a, b);
    }
    let ghost w2 = *w;
    write_cell_sz(w, cell)?;
    proof {
        lemma_appended_then(w0, w2, *w, a + b, c);
    }
    let ghost w3 = *w;
    write_cell_margin(w, cell)?;
    proof {
        lemma_appended_then(w0, w3, *w, a + b + c, d);
    }
    let ghost w4 = *w;
    end_tag(w, "hp:tc")?;
    proof {
        lemma_appended_then(w0, w4, *w, a + b + c + d, end_tag_text("hp:tc"@));
    }
    Ok(())
}

/// `<hp:tc>`: sub-list, cell address, span (at least 1), size, margin.
fn write_cell(w: &mut quick_xml::Writer<Vec<u8>>, cell: &Cell, ctx: &mut SerializeContext) -> (r:
    Result<(), SerializeError>)
    requires
        cell_out(*cell).fits,
    ensures
        r is Ok,
        indented(*final(w)) == indented(*old(w)),
        r is Ok ==> progress(*old(w), *old(ctx), *final(w), *final(ctx), cell_out(*cell)),
    decreases cell, 2int,
{
    reveal(then);
    reveal_with_fuel(cell_out, 1);
    reveal_with_fuel(sub_list_out, 1);
    let ghost w0 = *w;
    let ghost c0 = *ctx;
    write_tc_open(w, cell)?;
    let ghost w1 = *w;
    write_sub_list(w, cell, ctx)?;
    let ghost w2 = *w;
    let ghost c2 = *ctx;
    write_cell_tail(w, cell)?;
    proof {
        lemma_progress_xml(w0, w1, c0, open_tag_text("hp:tc"@, tc_attrs(*cell)));
        lemma_progress_xml(w2, *w, c2, cell_tail_xml(*cell));
        lemma_progress_then(w1, c0, w2, c2, *w, c2, sub_list_out(*cell), xml_only(cell_tail_xml(*cell)));
        lemma_progress_then(
            w0,
            c0,
            w1,
            c0,
            *w,
            c2,
            xml_only(open_tag_text("hp:tc"@, tc_attrs(*cell))),
            then(sub_list_out(*cell), xml_only(cell_tail_xml(*cell))),
        );
    }
    Ok(())
}

fn write_sub_list_open(w: &mut quick_xml::Writer<Vec<u8>>, cell: &Cell) -> (r: Result<
    (),
    SerializeError,
>)
    ensures
        r is Ok,
        indented(*final(w)) == indented(*old(w)),
        r is Ok ==> appended(*old(w), *final(w), open_tag_text("hp:subList"@, sub_list_attrs(*cell))),
{
    reveal(sub_list_attrs);
    let direction = if cell.text_direction == 1 {
        "VERTICAL"
    } else {
        "HORIZONTAL"
    };
    proof {
        reveal_with_fuel(attrs_text, 11);
    }
    start_tag_attrs(
        w,
        "hp:subList",
        &[
            ("id", ""),
            ("textDirection", direction),
            ("lineWrap", "BREAK"),
            ("vertAlign", cell_vert_align_str(cell.vertical_align)),
            ("linkListIDRef", "0"),
            ("linkListNextIDRef", "0"),
            ("textWidth", "0"),
            ("textHeight", "0"),
            ("hasTextRef", "0"),
            ("hasNumRef", "0"),
        ],
    )
}

/// `<hp:subList>` with the cell's paragraphs.
fn write_sub_list(w: &mut quick_xml::Writer<Vec<u8>>, cell: &Cell, ctx: &mut SerializeContext) -> (r:
    Result<(), SerializeError>)
    requires
        sub_list_out(*cell).fits,
    ensures
        r is Ok,
        indented(*final(w)) == indented(*old(w)),
        r is Ok ==> progress(*old(w), *old(ctx), *final(w), *final(ctx), sub_list_out(*cell)),
    decreases cell, 1int,
{
    reveal(then);
    reveal_with_fuel(sub_list_out, 1);
    reveal_with_fuel(paras_out, 1);
    reveal_with_fuel(cell_para_out, 1);
    let ghost w0 = *w;
    let ghost c0 = *ctx;
    write_sub_list_open(w, cell)?;
    let ghost w1 = *w;
    let ghost ps = cell.paragraphs@;
    let mut pi: usize = 0;
    proof {
        lemma_progress_nothing(*w, *ctx);
    }
    while pi < cell.paragraphs.len()
        invariant
            pi <= cell.paragraphs.len(),
            ps == cell.paragraphs@,
            paras_out(ps, ps.len() as int).fits,
            indented(w1) == indented(*old(w)),
            indented(*w) == indented(w1),
            progress(w1, c0, *w, *ctx, paras_out(ps, pi as int)),
        decreases cell.paragraphs.len() - pi,
    {
        reveal(then);
        reveal_with_fuel(paras_out, 1);
        reveal_with_fuel(cell_para_out, 1);
        let ghost wi = *w;
        let ghost ci = *ctx;
        proof {
            lemma_paras_fit(ps, ps.len() as int, pi as int);
            assert(decreases_to!(*cell => cell.paragraphs));
            assert(decreases_to!(cell.paragraphs => cell.paragraphs@));
            assert(decreases_to!(cell.paragraphs@ => cell.paragraphs@[pi as int]));
        }
        write_cell_paragraph(w, &cell.paragraphs[pi], pi, ctx)?;
        proof {
            lemma_progress_then(
                w1,
                c0,
                wi,
                ci,
                *w,
                *ctx,
                paras_out(ps, pi as int),
                cell_para_out(ps[pi as int], pi as int),
            );
        }
        pi += 1;
    }
    let ghost w2 = *w;
    let ghost c2 = *ctx;
    end_tag(w, "hp:subList")?;
    proof {
        lemma_progress_xml(w0, w1, c0, open_tag_text("hp:subList"@, sub_list_attrs(*cell)));
        lemma_progress_xml(w2, *w, c2, end_tag_text("hp:subList"@));
        lemma_progress_then(
            w1,
            c0,
            w2,
            c2,
            *w,
            c2,
            paras_out(ps, ps.len() as int),
            xml_only(end_tag_text("hp:subList"@)),
        );
        lemma_progress_then(
            w0,
            c0,
            w1,
            c0,
            *w,
            c2,
            xml_only(open_tag_text("hp:subList"@, sub_list_attrs(*cell))),
            then(paras_out(ps, ps.len() as int), xml_only(end_tag_text("hp:subList"@))),
        );
    }
    Ok(())
}

/// The ids a cell paragraph refers to, with the given `fits`.
pub open spec fn cell_para_refs(p: Paragraph, fits: bool) -> Emitted {
    Emitted {
        fits,
        xml: seq![],
        border_fills: seq![],
        para_shapes: seq![p.para_shape_id],
        styles: seq![p.style_id as u16],
        char_shapes: p.char_shapes@.map_values(|r: CharShapeRef| r.char_shape_id),
    }
}

fn reference_cell_paragraph(para: &Paragraph, ctx: &mut SerializeContext, Ghost(fits): Ghost<bool>)
    ensures
        recorded(*old(ctx), *final(ctx), cell_para_refs(*para, fits)),
{
    let ghost c0 = *ctx;
    ctx.para_shape_ids.reference(para.para_shape_id);
    ctx.style_ids.reference(para.style_id as u16);
    let ghost cv = para.char_shapes@.map_values(|r: CharShapeRef| r.char_shape_id);
    let mut i: usize = 0;
    while i < para.char_shapes.len()
        invariant
            i <= para.char_shapes.len(),
            cv == para.char_shapes@.map_values(|r: CharShapeRef| r.char_shape_id),
            ctx.char_shape_ids.defined@ == c0.char_shape_ids.defined@,
            ctx.char_shape_ids.referenced@ == c0.char_shape_ids.referenced@ + cv.take(i as int),
            ctx.para_shape_ids.defined@ == c0.para_shape_ids.defined@,
            ctx.para_shape_ids.referenced@ == c0.para_shape_ids.referenced@.push(para.para_shape_id),
            ctx.style_ids.defined@ == c0.style_ids.defined@,
            ctx.style_ids.referenced@ == c0.style_ids.referenced@.push(para.style_id as u16),
            ctx.border_fill_ids == c0.border_fill_ids,
        decreases para.char_shapes.len() - i,
    {
        ctx.char_shape_ids.reference(para.char_shapes[i].char_shape_id);
        assert(cv.take(i + 1) == cv.take(i as int).push(cv[i as int]));
        i += 1;
    }
    assert(cv.take(cv.len() as int) == cv);
    assert(c0.border_fill_ids.referenced@ + Seq::<u16>::empty() == c0.border_fill_ids.referenced@);
    assert(c0.para_shape_ids.referenced@.push(para.para_shape_id) == c0.para_shape_ids.referenced@
        + seq![para.para_shape_id]);
    assert(c0.style_ids.referenced@.push(para.style_id as u16) == c0.style_ids.referenced@ + seq![
        para.style_id as u16,
    ]);
}

fn write_cell_p_open(w: &mut quick_xml::Writer<Vec<u8>>, para: &Paragraph, pi: usize) -> (r: Result<
    (),
    SerializeError,
>)
    ensures
        r is Ok,
        indented(*final(w)) == indented(*old(w)),
        r is Ok ==> appended(*old(w), *final(w), open_tag_text("hp:p"@, cell_p_attrs(*para, pi as int))),
{
    reveal(cell_p_attrs);
    let pi_str = nat_string(pi as u64);
    let ppr = nat_string(para.para_shape_id as u64);
    let sp = nat_string(para.style_id as u64);
    proof {
        reveal_with_fuel(attrs_text, 7);
    }
    start_tag_attrs(
        w,
        "hp:p",
        &[
            ("id", pi_str.as_str()),
            ("paraPrIDRef", ppr.as_str()),
            ("styleIDRef", sp.as_str()),
            ("pageBreak", "0"),
            ("columnBreak", "0"),
            ("merged", "0"),
        ],
    )
}

/// The `pi`-th paragraph of a cell: it records the paragraph's paragraph shape, style and
/// character shapes, then writes `<hp:p>` with its text runs, a run for each control that
/// cells write, and its line segments.
fn write_cell_paragraph(
    w: &mut quick_xml::Writer<Vec<u8>>,
    para: &Paragraph,
    pi: usize,
    ctx: &mut SerializeContext,
) -> (r: Result<(), SerializeError>)
    requires
        cell_para_out(*para, pi as int).fits,
    ensures
        r is Ok,
        indented(*final(w)) == indented(*old(w)),
        r is Ok ==> progress(
            *old(w),
            *old(ctx),
            *final(w),
            *final(ctx),
            cell_para_out(*para, pi as int),
        ),
    decreases para, 1int,
{
    reveal(then);
    reveal_with_fuel(cell_para_out, 1);
    reveal_with_fuel(control_runs_out, 1);
    reveal_with_fuel(control_run_out, 1);
    let ghost w0 = *w;
    let ghost c0 = *ctx;
    let ghost head = cell_para_head(*para, pi as int);
    reference_cell_paragraph(para, ctx, Ghost(head.fits));
    let ghost c1 = *ctx;
    write_cell_p_open(w, para, pi)?;
    let ghost wa = *w;
    let first_cs = first_char_shape_id(para.char_shapes.as_slice());
    write_cell_text_runs(
        w,
        para.text.as_str(),
        para.char_offsets.as_slice(),
        para.char_shapes.as_slice(),
        para.controls.len() == 0,
    )?;
    let ghost w1 = *w;
    proof {
        lemma_appended_then(
            w0,
            wa,
            w1,
            open_tag_text("hp:p"@, cell_p_attrs(*para, pi as int)),
            cell_text_runs_xml(
                para.text@,
                para.char_offsets@,
                para.char_shapes@,
                para.controls@.len() == 0,
            ),
        );
        lemma_progress_xml(w0, w1, c1, head.xml);
        lemma_recorded_nothing(c1);
        lemma_recorded_then(c0, c1, c1, cell_para_refs(*para, head.fits), xml_only(head.xml));
        reveal(then);
        assert(then(cell_para_refs(*para, head.fits), xml_only(head.xml)) == head);
    }
    let ghost cs = para.controls@;
    let mut j: usize = 0;
    proof {
        lemma_progress_nothing(*w, *ctx);
    }
    while j < para.controls.len()
        invariant
            j <= para.controls.len(),
            cs == para.controls@,
            first_cs == first_shape_id(para.char_shapes@),
            control_runs_out(cs, cs.len() as int, first_cs).fits,
            indented(w1) == indented(*old(w)),
            indented(*w) == indented(w1),
            progress(w1, c1, *w, *ctx, control_runs_out(cs, j as int, first_cs)),
        decreases para.controls.len() - j,
    {
        reveal(then);
        reveal_with_fuel(control_runs_out, 1);
        reveal_with_fuel(control_run_out, 1);
        let ghost wj = *w;
        let ghost cj = *ctx;
        proof {
            lemma_control_runs_fit(cs, cs.len() as int, first_cs, j as int);
            assert(decreases_to!(*para => para.controls));
            assert(decreases_to!(para.controls => para.controls@));
            assert(decreases_to!(para.controls@ => para.controls@[j as int]));
        }
        write_cell_control_run(w, &para.controls[j], ctx, first_cs)?;
        proof {
            lemma_progress_then(
                w1,
                c1,
                wj,
                cj,
                *w,
                *ctx,
                control_runs_out(cs, j as int, first_cs),
                control_run_out(cs[j as int], first_cs),
            );
        }
        j += 1;
    }
    let ghost w2 = *w;
    let ghost c2 = *ctx;
    write_cell_linesegs(w, para.line_segs.as_slice())?;
    let ghost w3 = *w;
    end_tag(w, "hp:p")?;
    proof {
        lemma_appended_then(w2, w3, *w, cell_linesegs_xml(para.line_segs@), end_tag_text("hp:p"@));
        let tail = cell_linesegs_xml(para.line_segs@) + end_tag_text("hp:p"@);
        lemma_progress_xml(w2, *w, c2, tail);
        let runs = control_runs_out(cs, cs.len() as int, first_cs);
        lemma_progress_then(w1, c1, w2, c2, *w, c2, runs, xml_only(tail));
        lemma_progress_then(w0, c0, w1, c1, *w, c2, head, then(runs, xml_only(tail)));
    }
    Ok(())
}

/// A control in a cell: when cells write it, a run with `char_shape_id` around it; nothing
/// otherwise.
fn write_cell_control_run(
    w: &mut quick_xml::Writer<Vec<u8>>,
    control: &Control,
    ctx: &mut SerializeContext,
    char_shape_id: u32,
) -> (r: Result<(), SerializeError>)
    requires
        control_run_out(*control, char_shape_id).fits,
    ensures
        r is Ok,
        indented(*final(w)) == indented(*old(w)),
        r is Ok ==> progress(
            *old(w),
            *old(ctx),
            *final(w),
            *final(ctx),
            control_run_out(*control, char_shape_id),
        ),
    decreases control, 2int,
{
    reveal(run_open_xml);
    reveal(then);
    reveal_with_fuel(control_run_out, 1);
    reveal_with_fuel(cell_control_out, 1);
    if !control_supported_exec(control) {
        proof {
            lemma_progress_nothing(*w, *ctx);
        }
        return Ok(());
    }
    let ghost w0 = *w;
    let ghost c0 = *ctx;
    let cs_str = nat_string(char_shape_id as u64);
    proof {
        reveal_with_fuel(attrs_text, 2);
    }
    start_tag_attrs(w, "hp:run", &[("charPrIDRef", cs_str.as_str())])?;
    let ghost w1 = *w;
    write_cell_control(w, control, ctx)?;
    let ghost w2 = *w;
    let ghost c2 = *ctx;
    end_tag(w, "hp:run")?;
    proof {
        lemma_progress_xml(w0, w1, c0, run_open_xml(char_shape_id));
        lemma_progress_xml(w2, *w, c2, end_tag_text("hp:run"@));
        lemma_progress_then(
            w1,
            c0,
            w2,
            c2,
            *w,
            c2,
            cell_control_out(*control),
            xml_only(end_tag_text("hp:run"@)),
        );
        lemma_progress_then(
            w0,
            c0,
            w1,
            c0,
            *w,
            c2,
            xml_only(run_open_xml(char_shape_id)),
            then(cell_control_out(*control), xml_only(end_tag_text("hp:run"@))),
        );
    }
    Ok(())
}

/// A control as cells write it: tables recursively, pictures and drawing objects as their
/// markup, forms, page hiding and page number positions; nothing for the others.
fn write_cell_control(
    w: &mut quick_xml::Writer<Vec<u8>>,
    control: &Control,
    ctx: &mut SerializeContext,
) -> (r: Result<(), SerializeError>)
    requires
        cell_control_out(*control).fits,
    ensures
        r is Ok,
        indented(*final(w)) == indented(*old(w)),
        r is Ok ==> progress(*old(w), *old(ctx), *final(w), *final(ctx), cell_control_out(*control)),
    decreases control, 1int,
{
    reveal(then);
    reveal_with_fuel(cell_control_out, 1);
    reveal_with_fuel(table_out, 1);
    match control {
        Control::Table(table) => {
            proof {
                assert(decreases_to!(*control => control->Table_0));
            }
            write_table(w, table, ctx)
        },
        Control::Picture(pic) => {
            let r = write_markup(w, pic.xml.as_str());
            proof {
                lemma_recorded_nothing(*ctx);
            }
            r
        },
        Control::Shape(shape) => {
            let _ = write_cell_shape(w, shape, ctx)?;
            proof {
                lemma_recorded_nothing(*ctx);
            }
            Ok(())
        },
        Control::Form(form) => {
            let r = write_form(w, form);
            proof {
                lemma_recorded_nothing(*ctx);
            }
            r
        },
        Control::PageHide(page_hide) => {
            let r = write_page_hide(w, page_hide);
            proof {
                lemma_recorded_nothing(*ctx);
            }
            r
        },
        Control::PageNumberPos(page_number_pos) => {
            let r = write_page_number_pos(w, page_number_pos);
            proof {
                lemma_recorded_nothing(*ctx);
            }
            r
        },
        _ => {
            proof {
                lemma_progress_nothing(*w, *ctx);
            }
            Ok(())
        },
    }
}

// ---- whether positions fit ----

/// Whether every UTF-16 position that writing the table computes fits a `u32`: the
/// condition under which `write_table` may be called.
pub fn table_fits(table: &Table) -> (b: bool)
    ensures
        b == table_out(*table).fits,
    decreases table, 3int,
{
    reveal_with_fuel(table_out, 1);
    reveal_with_fuel(rows_out, 1);
    let ghost rows = rows_out(table.cells@, table.row_count as int);
    let ghost z = xml_only(end_tag_text("hp:tbl"@));
    proof {
        lemma_then(rows, z);
        lemma_then(table_head_out(*table), then(rows, z));
    }
    rows_fit(table)
}

fn rows_fit(table: &Table) -> (b: bool)
    ensures
        b == rows_out(table.cells@, table.row_count as int).fits,
    decreases table, 2int,
{
    let ghost cells = table.cells@;
    let mut ok = true;
    let mut row_idx: u16 = 0;
    assert(rows_out(cells, 0) == nothing()) by {
        reveal_with_fuel(rows_out, 1);
        reveal_with_fuel(cells_at_out, 1);
    }
    while row_idx < table.row_count
        invariant
            row_idx <= table.row_count,
            cells == table.cells@,
            ok == rows_out(cells, row_idx as int).fits,
        decreases table.row_count - row_idx,
    {
        let order = row_cell_order(&table.cells, row_idx);
        let ghost ov = index_view(order@);
        let mut k: usize = 0;
        let mut okc = true;
        assert(cells_at_out(cells, ov, 0) == nothing()) by {
            reveal_with_fuel(cells_at_out, 1);
            reveal_with_fuel(cell_out, 1);
        }
        while k < order.len()
            invariant
                k <= order.len(),
                row_idx < table.row_count,
                cells == table.cells@,
                ov == index_view(order@),
                forall|t: int| 0 <= t < order@.len() ==> order@[t] < cells.len(),
                okc == cells_at_out(cells, ov, k as int).fits,
            decreases order.len() - k,
        {
            let idx = order[k];
            proof {
                assert(decreases_to!(*table => table.cells));
                assert(decreases_to!(table.cells => table.cells@));
                assert(decreases_to!(table.cells@ => table.cells@[idx as int]));
            }
            let c = cell_fits(&table.cells[idx]);
            proof {
                reveal_with_fuel(cells_at_out, 1);
                reveal_with_fuel(cell_out, 1);
                assert(ov[k as int] == idx as int);
                lemma_then(cells_at_out(cells, ov, k as int), cell_out(cells[idx as int]));
            }
            okc = okc && c;
            k += 1;
        }
        proof {
            reveal_with_fuel(rows_out, 1);
            reveal_with_fuel(cells_at_out, 1);
            let order_s = row_order(cells, row_idx as int);
            assert(order_s == ov);
            let ca = cells_at_out(cells, ov, ov.len() as int);
            let tr = xml_only(open_tag_text("hp:tr"@, seq![]));
            let z = xml_only(end_tag_text("hp:tr"@));
            lemma_then(ca, z);
            lemma_then(tr, then(ca, z));
            lemma_then(rows_out(cells, row_idx as int), then(tr, then(ca, z)));
        }
        ok = ok && okc;
        row_idx += 1;
    }
    ok
}

fn cell_fits(cell: &Cell) -> (b: bool)
    ensures
        b == cell_out(*cell).fits,
    decreases cell, 2int,
{
    reveal_with_fuel(cell_out, 1);
    reveal_with_fuel(sub_list_out, 1);
    reveal_with_fuel(paras_out, 1);
    reveal_with_fuel(cell_para_out, 1);
    let ghost ps = cell.paragraphs@;
    let mut ok = true;
    let mut pi: usize = 0;
    assert(paras_out(ps, 0) == nothing()) by {
        reveal_with_fuel(paras_out, 1);
        reveal_with_fuel(cell_para_out, 1);
    }
    while pi < cell.paragraphs.len()
        invariant
            pi <= cell.paragraphs.len(),
            ps == cell.paragraphs@,
            ok == paras_out(ps, pi as int).fits,
        decreases cell.paragraphs.len() - pi,
    {
        proof {
            assert(decreases_to!(*cell => cell.paragraphs));
            assert(decreases_to!(cell.paragraphs => cell.paragraphs@));
            assert(decreases_to!(cell.paragraphs@ => cell.paragraphs@[pi as int]));
        }
        let p = para_fits(&cell.paragraphs[pi], pi);
        proof {
            reveal_with_fuel(paras_out, 1);
            reveal_with_fuel(cell_para_out, 1);
            lemma_then(paras_out(ps, pi as int), cell_para_out(ps[pi as int], pi as int));
        }
        ok = ok && p;
        pi += 1;
    }
    proof {
        let pa = paras_out(ps, ps.len() as int);
        let o = xml_only(open_tag_text("hp:subList"@, sub_list_attrs(*cell)));
        let z = xml_only(end_tag_text("hp:subList"@));
        lemma_then(pa, z);
        lemma_then(o, then(pa, z));
        let so = sub_list_out(*cell);
        let t = xml_only(cell_tail_xml(*cell));
        lemma_then(so, t);
        lemma_then(xml_only(open_tag_text("hp:tc"@, tc_attrs(*cell))), then(so, t));
    }
    ok
}

fn para_fits(para: &Paragraph, pi: usize) -> (b: bool)
    ensures
        b == cell_para_out(*para, pi as int).fits,
    decreases para, 1int,
{
    reveal_with_fuel(cell_para_out, 1);
    reveal_with_fuel(control_runs_out, 1);
    reveal_with_fuel(control_run_out, 1);
    let head = para.text.as_str().is_empty() || text_positions_fit(
        para.text.as_str(),
        para.char_offsets.as_slice(),
    );
    proof {
        if para.text@.len() == 0 {
            assert(para.text@ == Seq::<char>::empty());
        }
    }
    let first_cs = first_char_shape_id(para.char_shapes.as_slice());
    let ghost cs = para.controls@;
    let mut ok = true;
    let mut j: usize = 0;
    assert(control_runs_out(cs, 0, first_cs) == nothing()) by {
        reveal_with_fuel(control_runs_out, 1);
        reveal_with_fuel(control_run_out, 1);
    }
    while j < para.controls.len()
        invariant
            j <= para.controls.len(),
            cs == para.controls@,
            first_cs == first_shape_id(para.char_shapes@),
            ok == control_runs_out(cs, j as int, first_cs).fits,
        decreases para.controls.len() - j,
    {
        proof {
            assert(decreases_to!(*para => para.controls));
            assert(decreases_to!(para.controls => para.controls@));
            assert(decreases_to!(para.controls@ => para.controls@[j as int]));
        }
        let c = control_run_fits(&para.controls[j], first_cs);
        proof {
            reveal_with_fuel(control_runs_out, 1);
            reveal_with_fuel(control_run_out, 1);
            lemma_then(control_runs_out(cs, j as int, first_cs), control_run_out(cs[j as int], first_cs));
        }
        ok = ok && c;
        j += 1;
    }
    proof {
        let h = cell_para_head(*para, pi as int);
        let ctl = control_runs_out(cs, cs.len() as int, first_cs);
        let z = xml_only(cell_linesegs_xml(para.line_segs@) + end_tag_text("hp:p"@));
        lemma_then(ctl, z);
        lemma_then(h, then(ctl, z));
    }
    head && ok
}

fn control_run_fits(control: &Control, char_shape_id: u32) -> (b: bool)
    ensures
        b == control_run_out(*control, char_shape_id).fits,
    decreases control, 2int,
{
    reveal_with_fuel(control_run_out, 1);
    reveal_with_fuel(cell_control_out, 1);
    reveal_with_fuel(table_out, 1);
    if !control_supported_exec(control) {
        return true;
    }
    let b = match control {
        Control::Table(table) => {
            proof {
                assert(decreases_to!(*control => control->Table_0));
            }
            table_fits(table)
        },
        _ => true,
    };
    proof {
        let o = xml_only(run_open_xml(char_shape_id));
        let e = cell_control_out(*control);
        let z = xml_only(end_tag_text("hp:run"@));
        lemma_then(e, z);
        lemma_then(o, then(e, z));
    }
    b
}

// ---- laws ----

/// The size element of a table carries the object's width in `width` and its height in
/// `height`, as decimal text, both measured absolutely.
pub proof fn lemma_sz_writes_width_and_height(c: CommonObjAttr)
    ensures
        sz_xml(c) == "<hp:sz width=\""@ + nat_text(c.width as nat)
            + "\" widthRelTo=\"ABSOLUTE\" height=\""@ + nat_text(c.height as nat)
            + "\" heightRelTo=\"ABSOLUTE\" protect=\"0\"/>"@,
{
    let w = nat_text(c.width as nat);
    let h = nat_text(c.height as nat);
    lemma_sz_literals();
    lemma_escape_nat_text(c.width as nat);
    lemma_escape_nat_text(c.height as nat);
    reveal(sz_xml);
    let p1 = seq!['<'] + "hp:sz"@ + seq![' '] + "width"@ + seq!['=', '"'];
    let p2 = seq!['"'] + attr_text("widthRelTo"@, "ABSOLUTE"@) + seq![' '] + "height"@ + seq![
        '=',
        '"',
    ];
    let p3 = seq!['"'] + attr_text("heightRelTo"@, "ABSOLUTE"@) + attr_text("protect"@, "0"@)
        + seq!['/', '>'];
    assert(sz_xml(c) =~= p1 + w + p2 + h + p3);
}

proof fn lemma_sz_literals()
    ensures
        "<hp:sz width=\""@ == seq!['<'] + "hp:sz"@ + seq![' '] + "width"@ + seq!['=', '"'],
        "\" widthRelTo=\"ABSOLUTE\" height=\""@ == seq!['"'] + attr_text(
            "widthRelTo"@,
            "ABSOLUTE"@,
        ) + seq![' '] + "height"@ + seq!['=', '"'],
        "\" heightRelTo=\"ABSOLUTE\" protect=\"0\"/>"@ == seq!['"'] + attr_text(
            "heightRelTo"@,
            "ABSOLUTE"@,
        ) + attr_text("protect"@, "0"@) + seq!['/', '>'],
{
    reveal_strlit("ABSOLUTE");
    reveal_strlit("0");
    assert(escape_text("ABSOLUTE"@) == "ABSOLUTE"@) by {
        reveal_with_fuel(escape_text, 9);
    }
    assert(escape_text("0"@) == "0"@) by {
        reveal_with_fuel(escape_text, 2);
    }
    reveal_strlit("<hp:sz width=\"");
    reveal_strlit("hp:sz");
    reveal_strlit("width");
    reveal_strlit("\" widthRelTo=\"ABSOLUTE\" height=\"");
    reveal_strlit("widthRelTo");
    reveal_strlit("height");
    reveal_strlit("\" heightRelTo=\"ABSOLUTE\" protect=\"0\"/>");
    reveal_strlit("heightRelTo");
    reveal_strlit("protect");
    assert("<hp:sz width=\""@ =~= seq!['<'] + "hp:sz"@ + seq![' '] + "width"@ + seq!['=', '"']);
    assert("\" widthRelTo=\"ABSOLUTE\" height=\""@ =~= seq!['"'] + attr_text(
        "widthRelTo"@,
        "ABSOLUTE"@,
    ) + seq![' '] + "height"@ + seq!['=', '"']);
    assert("\" heightRelTo=\"ABSOLUTE\" protect=\"0\"/>"@ =~= seq!['"'] + attr_text(
        "heightRelTo"@,
        "ABSOLUTE"@,
    ) + attr_text("protect"@, "0"@) + seq!['/', '>']);
}

/// A cell writes its column and row in `colAddr` and `rowAddr`, its spans (1 for a span of
/// 0) in `colSpan` and `rowSpan`, and its width and height in `cellSz`, as decimal text.
pub proof fn lemma_cell_addr_span_size(c: Cell)
    ensures
        cell_tail_xml(c) == "<hp:cellAddr colAddr=\""@ + nat_text(c.col as nat) + "\" rowAddr=\""@
            + nat_text(c.row as nat) + "\"/><hp:cellSpan colSpan=\""@ + nat_text(
            if c.col_span >= 1 {
                c.col_span as nat
            } else {
                1
            },
        ) + "\" rowSpan=\""@ + nat_text(
            if c.row_span >= 1 {
                c.row_span as nat
            } else {
                1
            },
        ) + "\"/><hp:cellSz width=\""@ + nat_text(c.width as nat) + "\" height=\""@ + nat_text(
            c.height as nat,
        ) + "\"/>"@ + margin_xml(
            "hp:cellMargin"@,
            c.padding.left,
            c.padding.right,
            c.padding.top,
            c.padding.bottom,
        ) + end_tag_text("hp:tc"@),
{
    lemma_cell_tail_literals();
    let v0 = nat_text(c.col as nat);
    let v1 = nat_text(c.row as nat);
    let v2 = nat_text(span_value(c.col_span));
    let v3 = nat_text(span_value(c.row_span));
    let v4 = nat_text(c.width as nat);
    let v5 = nat_text(c.height as nat);
    lemma_escape_nat_text(c.col as nat);
    lemma_escape_nat_text(c.row as nat);
    lemma_escape_nat_text(span_value(c.col_span));
    lemma_escape_nat_text(span_value(c.row_span));
    lemma_escape_nat_text(c.width as nat);
    lemma_escape_nat_text(c.height as nat);
    let a0 = attr_text("colAddr"@, v0);
    let a1 = attr_text("rowAddr"@, v1);
    let a2 = attr_text("colSpan"@, v2);
    let a3 = attr_text("rowSpan"@, v3);
    let a4 = attr_text("width"@, v4);
    let a5 = attr_text("height"@, v5);
    let m = margin_xml(
        "hp:cellMargin"@,
        c.padding.left,
        c.padding.right,
        c.padding.top,
        c.padding.bottom,
    ) + end_tag_text("hp:tc"@);
    let h0 = seq!['<'] + "hp:cellAddr"@;
    let h1 = seq!['<'] + "hp:cellSpan"@;
    let h2 = seq!['<'] + "hp:cellSz"@;
    assert(cell_tail_xml(c) == h0 + a0 + a1 + seq!['/', '>'] + h1 + a2 + a3 + seq!['/', '>'] + h2 + a4
        + a5 + seq!['/', '>'] + m) by {
        reveal(cell_tail_xml);
        lemma_regroup_tail(a0, a1, a2, a3, a4, a5, m);
    }
    lemma_first_attr(h0, "<hp:cellAddr colAddr=\""@, "colAddr"@, v0);
    let p0 = "<hp:cellAddr colAddr=\""@ + v0;
    lemma_next_attr(p0, "\" rowAddr=\""@, "rowAddr"@, v1);
    let p1 = p0 + "\" rowAddr=\""@ + v1;
    lemma_next_tag_attr(p1, "\"/><hp:cellSpan colSpan=\""@, h1, "colSpan"@, v2);
    let p2 = p1 + "\"/><hp:cellSpan colSpan=\""@ + v2;
    lemma_next_attr(p2, "\" rowSpan=\""@, "rowSpan"@, v3);
    let p3 = p2 + "\" rowSpan=\""@ + v3;
    lemma_next_tag_attr(p3, "\"/><hp:cellSz width=\""@, h2, "width"@, v4);
    let p4 = p3 + "\"/><hp:cellSz width=\""@ + v4;
    lemma_next_attr(p4, "\" height=\""@, "height"@, v5);
    let p5 = p4 + "\" height=\""@ + v5;
    assert(p5 + seq!['"'] + seq!['/', '>'] + m == p5 + "\"/>"@ + m) by {
        assert(p5 + seq!['"'] + seq!['/', '>'] + m =~= p5 + "\"/>"@ + m);
    }
}

proof fn lemma_regroup_tail(
    a0: Seq<char>,
    a1: Seq<char>,
    a2: Seq<char>,
    a3: Seq<char>,
    a4: Seq<char>,
    a5: Seq<char>,
    m: Seq<char>,
)
    ensures
        empty_tag_text("hp:cellAddr"@, a0 + a1) + empty_tag_text("hp:cellSpan"@, a2 + a3)
            + empty_tag_text("hp:cellSz"@, a4 + a5) + m == seq!['<'] + "hp:cellAddr"@ + a0 + a1
            + seq!['/', '>'] + (seq!['<'] + "hp:cellSpan"@) + a2 + a3 + seq!['/', '>'] + (seq!['<']
            + "hp:cellSz"@) + a4 + a5 + seq!['/', '>'] + m,
{
    assert(empty_tag_text("hp:cellAddr"@, a0 + a1) + empty_tag_text("hp:cellSpan"@, a2 + a3)
        + empty_tag_text("hp:cellSz"@, a4 + a5) + m =~= seq!['<'] + "hp:cellAddr"@ + a0 + a1
        + seq!['/', '>'] + (seq!['<'] + "hp:cellSpan"@) + a2 + a3 + seq!['/', '>'] + (seq!['<']
        + "hp:cellSz"@) + a4 + a5 + seq!['/', '>'] + m);
}

proof fn lemma_cell_tail_literals()
    ensures
        "<hp:cellAddr colAddr=\""@ == seq!['<'] + "hp:cellAddr"@ + seq![' '] + "colAddr"@ + seq![
            '=',
            '"',
        ],
        "\" rowAddr=\""@ == seq!['"', ' '] + "rowAddr"@ + seq!['=', '"'],
        "\"/><hp:cellSpan colSpan=\""@ == seq!['"', '/', '>'] + (seq!['<'] + "hp:cellSpan"@)
            + seq![' '] + "colSpan"@ + seq!['=', '"'],
        "\" rowSpan=\""@ == seq!['"', ' '] + "rowSpan"@ + seq!['=', '"'],
        "\"/><hp:cellSz width=\""@ == seq!['"', '/', '>'] + (seq!['<'] + "hp:cellSz"@) + seq![' ']
            + "width"@ + seq!['=', '"'],
        "\" height=\""@ == seq!['"', ' '] + "height"@ + seq!['=', '"'],
        "\"/>"@ == seq!['"', '/', '>'],
{
    reveal_strlit("<hp:cellAddr colAddr=\"");
    reveal_strlit("\" rowAddr=\"");
    reveal_strlit("\"/><hp:cellSpan colSpan=\"");
    reveal_strlit("\" rowSpan=\"");
    reveal_strlit("\"/><hp:cellSz width=\"");
    reveal_strlit("\" height=\"");
    reveal_strlit("\"/>");
    reveal_strlit("hp:cellAddr");
    reveal_strlit("hp:cellSpan");
    reveal_strlit("hp:cellSz");
    reveal_strlit("colAddr");
    reveal_strlit("rowAddr");
    reveal_strlit("colSpan");
    reveal_strlit("rowSpan");
    reveal_strlit("width");
    reveal_strlit("height");
    assert("<hp:cellAddr colAddr=\""@ =~= seq!['<'] + "hp:cellAddr"@ + seq![' '] + "colAddr"@
        + seq!['=', '"']);
    assert("\" rowAddr=\""@ =~= seq!['"', ' '] + "rowAddr"@ + seq!['=', '"']);
    assert("\"/><hp:cellSpan colSpan=\""@ =~= seq!['"', '/', '>'] + (seq!['<'] + "hp:cellSpan"@)
        + seq![' '] + "colSpan"@ + seq!['=', '"']);
    assert("\" rowSpan=\""@ =~= seq!['"', ' '] + "rowSpan"@ + seq!['=', '"']);
    assert("\"/><hp:cellSz width=\""@ =~= seq!['"', '/', '>'] + (seq!['<'] + "hp:cellSz"@)
        + seq![' '] + "width"@ + seq!['=', '"']);
    assert("\" height=\""@ =~= seq!['"', ' '] + "height"@ + seq!['=', '"']);
    assert("\"/>"@ =~= seq!['"', '/', '>']);
}

/// A table's element ends its attributes with its row count in `rowCnt`, its column count
/// in `colCnt`, its cell spacing, its border/fill id, and `noAdjust="0"`.
pub proof fn lemma_table_counts_written(t: Table)
    ensures
        ends_with(
            tbl_attrs(t),
            " rowCnt=\""@ + nat_text(t.row_count as nat) + "\" colCnt=\""@ + nat_text(
                t.col_count as nat,
            ) + "\" cellSpacing=\""@ + int_text(t.cell_spacing as int) + "\" borderFillIDRef=\""@
                + nat_text(t.border_fill_id as nat) + "\" noAdjust=\"0\""@,
        ),
{
    lemma_escape_nat_text(t.row_count as nat);
    lemma_escape_nat_text(t.col_count as nat);
    lemma_escape_int_text(t.cell_spacing as int);
    lemma_escape_nat_text(t.border_fill_id as nat);
    let head = attr_text("id"@, nat_text(t.common.instance_id as nat)) + attr_text(
        "zOrder"@,
        int_text(t.common.z_order as int),
    ) + attr_text("numberingType"@, "TABLE"@) + attr_text(
        "textWrap"@,
        text_wrap_text(t.common.text_wrap),
    ) + attr_text("textFlow"@, "BOTH_SIDES"@) + attr_text("lock"@, bool01_text(false))
        + attr_text("dropcapstyle"@, "None"@) + attr_text(
        "pageBreak"@,
        page_break_text(t.page_break),
    );
    assert(tbl_attrs(t) == head + attr_text("repeatHeader"@, bool01_text(t.repeat_header))
        + attr_text("rowCnt"@, nat_text(t.row_count as nat)) + attr_text(
        "colCnt"@,
        nat_text(t.col_count as nat),
    ) + attr_text("cellSpacing"@, int_text(t.cell_spacing as int)) + attr_text(
        "borderFillIDRef"@,
        nat_text(t.border_fill_id as nat),
    ) + attr_text("noAdjust"@, "0"@)) by {
        reveal(tbl_attrs);
    }
    lemma_tbl_tail(
        head,
        bool01_text(t.repeat_header),
        nat_text(t.row_count as nat),
        nat_text(t.col_count as nat),
        int_text(t.cell_spacing as int),
        nat_text(t.border_fill_id as nat),
    );
}

proof fn lemma_tbl_tail(
    head: Seq<char>,
    v: Seq<char>,
    r: Seq<char>,
    c: Seq<char>,
    sp: Seq<char>,
    b: Seq<char>,
)
    requires
        escape_text(r) == r,
        escape_text(c) == c,
        escape_text(sp) == sp,
        escape_text(b) == b,
    ensures
        ends_with(
            head + attr_text("repeatHeader"@, v) + attr_text("rowCnt"@, r) + attr_text("colCnt"@, c)
                + attr_text("cellSpacing"@, sp) + attr_text("borderFillIDRef"@, b) + attr_text(
                "noAdjust"@,
                "0"@,
            ),
            " rowCnt=\""@ + r + "\" colCnt=\""@ + c + "\" cellSpacing=\""@ + sp
                + "\" borderFillIDRef=\""@ + b + "\" noAdjust=\"0\""@,
        ),
{
    lemma_tbl_tail_literals();
    let zero = "0"@;
    assert(escape_text(zero) == zero) by {
        reveal_strlit("0");
        reveal_with_fuel(escape_text, 2);
    }
    let a_h = attr_text("repeatHeader"@, v);
    let a_r = attr_text("rowCnt"@, r);
    let a_c = attr_text("colCnt"@, c);
    let a_s = attr_text("cellSpacing"@, sp);
    let a_b = attr_text("borderFillIDRef"@, b);
    let a_n = attr_text("noAdjust"@, zero);
    let x = head + seq![' '] + "repeatHeader"@ + seq!['=', '"'] + escape_text(v);
    let xq = x + seq!['"'];
    assert(head + a_h == xq) by {
        assert(head + a_h =~= xq);
    }
    lemma_regroup_tbl_tail(head, x, a_h, a_r, a_c, a_s, a_b, a_n);
    let lr = " rowCnt=\""@;
    assert(xq + lr == xq + seq![' '] + "rowCnt"@ + seq!['=', '"']) by {
        assert(xq + lr =~= xq + seq![' '] + "rowCnt"@ + seq!['=', '"']);
    }
    lemma_first_attr(xq, xq + lr, "rowCnt"@, r);
    let p0 = xq + lr + r;
    let lc = "\" colCnt=\""@;
    lemma_next_attr(p0, lc, "colCnt"@, c);
    let p1 = p0 + lc + c;
    let ls = "\" cellSpacing=\""@;
    lemma_next_attr(p1, ls, "cellSpacing"@, sp);
    let p2 = p1 + ls + sp;
    let lb = "\" borderFillIDRef=\""@;
    lemma_next_attr(p2, lb, "borderFillIDRef"@, b);
    let p3 = p2 + lb + b;
    let ln = "\" noAdjust=\""@;
    lemma_next_attr(p3, ln, "noAdjust"@, zero);
    let lz = "\" noAdjust=\"0\""@;
    assert(p3 + ln + zero + seq!['"'] == p3 + lz) by {
        assert(p3 + ln + zero + seq!['"'] =~= p3 + lz);
    }
    lemma_assoc_ten(xq, lr, r, lc, c, ls, sp, lb, b, lz);
    let tail = lr + r + lc + c + ls + sp + lb + b + lz;
    assert((xq + tail).subrange(xq.len() as int, (xq + tail).len() as int) =~= tail);
}

proof fn lemma_regroup_tbl_tail(
    head: Seq<char>,
    x: Seq<char>,
    a_h: Seq<char>,
    a_r: Seq<char>,
    a_c: Seq<char>,
    a_s: Seq<char>,
    a_b: Seq<char>,
    a_n: Seq<char>,
)
    requires
        head + a_h == x + seq!['"'],
    ensures
        head + a_h + a_r + a_c + a_s + a_b + a_n == x + seq!['"'] + a_r + a_c + a_s + a_b + a_n,
{
}

proof fn lemma_assoc_ten(
    x: Seq<char>,
    a: Seq<char>,
    b: Seq<char>,
    c: Seq<char>,
    d: Seq<char>,
    e: Seq<char>,
    f: Seq<char>,
    g: Seq<char>,
    h: Seq<char>,
    i: Seq<char>,
)
    ensures
        x + a + b + c + d + e + f + g + h + i == x + (a + b + c + d + e + f + g + h + i),
{
    assert(x + a + b + c + d + e + f + g + h + i =~= x + (a + b + c + d + e + f + g + h + i));
}

proof fn lemma_tbl_tail_literals()
    ensures
        " rowCnt=\""@ == seq![' '] + "rowCnt"@ + seq!['=', '"'],
        "\" colCnt=\""@ == seq!['"', ' '] + "colCnt"@ + seq!['=', '"'],
        "\" cellSpacing=\""@ == seq!['"', ' '] + "cellSpacing"@ + seq!['=', '"'],
        "\" borderFillIDRef=\""@ == seq!['"', ' '] + "borderFillIDRef"@ + seq!['=', '"'],
        "\" noAdjust=\""@ == seq!['"', ' '] + "noAdjust"@ + seq!['=', '"'],
        "\" noAdjust=\"0\""@ == "\" noAdjust=\""@ + "0"@ + seq!['"'],
{
    reveal_strlit(" rowCnt=\"");
    reveal_strlit("rowCnt");
    assert(" rowCnt=\""@ =~= seq![' '] + "rowCnt"@ + seq!['=', '"']);
    reveal_strlit("\" colCnt=\"");
    reveal_strlit("\" cellSpacing=\"");
    reveal_strlit("\" borderFillIDRef=\"");
    reveal_strlit("\" noAdjust=\"");
    reveal_strlit("\" noAdjust=\"0\"");
    reveal_strlit("0");
    reveal_strlit("colCnt");
    reveal_strlit("cellSpacing");
    reveal_strlit("borderFillIDRef");
    reveal_strlit("noAdjust");
    assert("\" colCnt=\""@ =~= seq!['"', ' '] + "colCnt"@ + seq!['=', '"']);
    assert("\" cellSpacing=\""@ =~= seq!['"', ' '] + "cellSpacing"@ + seq!['=', '"']);
    assert("\" borderFillIDRef=\""@ =~= seq!['"', ' '] + "borderFillIDRef"@ + seq!['=', '"']);
    assert("\" noAdjust=\""@ =~= seq!['"', ' '] + "noAdjust"@ + seq!['=', '"']);
    assert("\" noAdjust=\"0\""@ =~= "\" noAdjust=\""@ + "0"@ + seq!['"']);
}

/// A margin element carries its left, right, top and bottom values, in that order, each
/// in the attribute of its own name.
pub proof fn lemma_margin_sides(name: Seq<char>, left: i16, right: i16, top: i16, bottom: i16)
    ensures
        margin_xml(name, left, right, top, bottom) == seq!['<'] + name + " left=\""@ + int_text(
            left as int,
        ) + "\" right=\""@ + int_text(right as int) + "\" top=\""@ + int_text(top as int)
            + "\" bottom=\""@ + int_text(bottom as int) + "\"/>"@,
{
    lemma_margin_literals();
    let l = int_text(left as int);
    let r = int_text(right as int);
    let t = int_text(top as int);
    let b = int_text(bottom as int);
    lemma_escape_int_text(left as int);
    lemma_escape_int_text(right as int);
    lemma_escape_int_text(top as int);
    lemma_escape_int_text(bottom as int);
    let a0 = attr_text("left"@, l);
    let a1 = attr_text("right"@, r);
    let a2 = attr_text("top"@, t);
    let a3 = attr_text("bottom"@, b);
    let h = seq!['<'] + name;
    assert(margin_xml(name, left, right, top, bottom) == h + a0 + a1 + a2 + a3 + seq!['/', '>']) by {
        reveal(margin_xml);
        assert(margin_xml(name, left, right, top, bottom) =~= h + a0 + a1 + a2 + a3 + seq!['/', '>']);
    }
    let ll = " left=\""@;
    assert(h + ll == h + seq![' '] + "left"@ + seq!['=', '"']) by {
        assert(h + ll =~= h + seq![' '] + "left"@ + seq!['=', '"']);
    }
    lemma_first_attr(h, h + ll, "left"@, l);
    let p0 = h + ll + l;
    lemma_next_attr(p0, "\" right=\""@, "right"@, r);
    let p1 = p0 + "\" right=\""@ + r;
    lemma_next_attr(p1, "\" top=\""@, "top"@, t);
    let p2 = p1 + "\" top=\""@ + t;
    lemma_next_attr(p2, "\" bottom=\""@, "bottom"@, b);
    let p3 = p2 + "\" bottom=\""@ + b;
    assert(p3 + seq!['"'] + seq!['/', '>'] == p3 + "\"/>"@) by {
        assert(p3 + seq!['"'] + seq!['/', '>'] =~= p3 + "\"/>"@);
    }
}

proof fn lemma_margin_literals()
    ensures
        " left=\""@ == seq![' '] + "left"@ + seq!['=', '"'],
        "\" right=\""@ == seq!['"', ' '] + "right"@ + seq!['=', '"'],
        "\" top=\""@ == seq!['"', ' '] + "top"@ + seq!['=', '"'],
        "\" bottom=\""@ == seq!['"', ' '] + "bottom"@ + seq!['=', '"'],
        "\"/>"@ == seq!['"', '/', '>'],
{
    reveal_strlit(" left=\"");
    reveal_strlit("\" right=\"");
    reveal_strlit("\" top=\"");
    reveal_strlit("\" bottom=\"");
    reveal_strlit("\"/>");
    reveal_strlit("left");
    reveal_strlit("right");
    reveal_strlit("top");
    reveal_strlit("bottom");
    assert(" left=\""@ =~= seq![' '] + "left"@ + seq!['=', '"']);
    assert("\" right=\""@ =~= seq!['"', ' '] + "right"@ + seq!['=', '"']);
    assert("\" top=\""@ =~= seq!['"', ' '] + "top"@ + seq!['=', '"']);
    assert("\" bottom=\""@ =~= seq!['"', ' '] + "bottom"@ + seq!['=', '"']);
    assert("\"/>"@ =~= seq!['"', '/', '>']);
}

/// A table writes its outer margins, then its inner margins (the padding), each side from
/// the field of the same side, at the end of its head.
pub proof fn lemma_table_margins_written(t: Table)
    ensures
        ends_with(
            tbl_head_xml(t),
            margin_xml(
                "hp:outMargin"@,
                t.outer_margin_left,
                t.outer_margin_right,
                t.outer_margin_top,
                t.outer_margin_bottom,
            ) + margin_xml("hp:inMargin"@, t.padding.left, t.padding.right, t.padding.top, t.padding.bottom),
        ),
{
    reveal(tbl_head_xml);
    let pre = open_tag_text("hp:tbl"@, tbl_attrs(t)) + sz_xml(t.common) + pos_xml(t.common);
    let m = margin_xml(
        "hp:outMargin"@,
        t.outer_margin_left,
        t.outer_margin_right,
        t.outer_margin_top,
        t.outer_margin_bottom,
    ) + margin_xml("hp:inMargin"@, t.padding.left, t.padding.right, t.padding.top, t.padding.bottom);
    assert(tbl_head_xml(t) =~= pre + m);
    assert((pre + m).subrange(pre.len() as int, (pre + m).len() as int) =~= m);
}

/// Cell indices ordered by their cells' column.
pub open spec fn col_sorted(cells: Seq<Cell>, s: Seq<int>) -> bool {
    forall|i: int, j: int| 0 <= i <= j < s.len() ==> cells[s[i]].col <= cells[s[j]].col
}

proof fn lemma_insert_by_col(cells: Seq<Cell>, x: int, s: Seq<int>, b: u16)
    requires
        col_sorted(cells, s),
    ensures
        col_sorted(cells, insert_by_col(cells, x, s)),
        insert_by_col(cells, x, s).to_multiset() == s.to_multiset().insert(x),
        (forall|i: int| 0 <= i < s.len() ==> cells[s[i]].col <= b) && cells[x].col <= b ==> forall|
            i: int,
        | 0 <= i < insert_by_col(cells, x, s).len() ==> cells[#[trigger] insert_by_col(
            cells,
            x,
            s,
        )[i]].col <= b,
    decreases s.len(),
{
    broadcast use vstd::seq_lib::group_to_multiset_ensures;

    if s.len() > 0 {
        let d = s.drop_last();
        let l = s.last();
        assert(s == d.push(l));
        if cells[l].col > cells[x].col {
            lemma_insert_by_col(cells, x, d, b);
            lemma_insert_by_col(cells, x, d, cells[l].col);
            let t = insert_by_col(cells, x, d);
            assert(forall|i: int| 0 <= i < d.len() ==> cells[d[i]].col <= cells[l].col);
            assert(forall|i: int| 0 <= i < t.len() ==> cells[#[trigger] t[i]].col <= cells[l].col);
            assert(t.push(l).to_multiset() == t.to_multiset().insert(l));
            assert(s.to_multiset() == d.to_multiset().insert(l));
            assert(t.push(l).to_multiset() =~= s.to_multiset().insert(x));
        } else {
            assert(s.push(x).to_multiset() == s.to_multiset().insert(x));
        }
    } else {
        assert(seq![x] == Seq::<int>::empty().push(x));
    }
}

proof fn lemma_sort_by_col(cells: Seq<Cell>, s: Seq<int>)
    ensures
        col_sorted(cells, sort_by_col(cells, s)),
        sort_by_col(cells, s).to_multiset() == s.to_multiset(),
    decreases s.len(),
{
    broadcast use vstd::seq_lib::group_to_multiset_ensures;

    if s.len() > 0 {
        lemma_sort_by_col(cells, s.drop_last());
        lemma_insert_by_col(cells, s.last(), sort_by_col(cells, s.drop_last()), 0);
        assert(s == s.drop_last().push(s.last()));
    } else {
        assert(sort_by_col(cells, s).to_multiset() =~= s.to_multiset());
    }
}

proof fn lemma_row_indices(cells: Seq<Cell>, r: int, k: int)
    requires
        0 <= k <= cells.len(),
    ensures
        forall|i: int|
            0 <= i < cells.len() ==> #[trigger] row_indices(cells, r, k).to_multiset().count(i) == if i
                < k && cells[i].row == r {
                1nat
            } else {
                0nat
            },
    decreases k,
{
    broadcast use vstd::seq_lib::group_to_multiset_ensures;

    if k > 0 {
        lemma_row_indices(cells, r, k - 1);
        let p = row_indices(cells, r, k - 1);
        if cells[k - 1].row == r {
            assert(row_indices(cells, r, k).to_multiset() == p.to_multiset().insert(k - 1));
        }
    } else {
        assert(row_indices(cells, r, k).to_multiset() =~= vstd::multiset::Multiset::empty());
    }
}

/// A row holds each cell of that row once, and no other, ordered by column: `row_order` is
/// a permutation of the row's cells sorted by column.
pub proof fn lemma_row_order(cells: Seq<Cell>, r: int)
    ensures
        col_sorted(cells, row_order(cells, r)),
        forall|i: int|
            0 <= i < cells.len() ==> #[trigger] row_order(cells, r).to_multiset().count(i) == if cells[i].row
                == r {
                1nat
            } else {
                0nat
            },
{
    reveal(row_order);
    lemma_sort_by_col(cells, row_indices(cells, r, cells.len() as int));
    lemma_row_indices(cells, r, cells.len() as int);
}

/// Sanitized text keeps only characters that XML 1.0 can hold in text (tabs, line feeds,
/// and no other control character), in their order.
pub proof fn lemma_sanitize_keeps_only_xml_chars(s: Seq<char>)
    ensures
        forall|i: int| 0 <= i < sanitize(s).len() ==> keeps_char(#[trigger] sanitize(s)[i]),
        sanitize(s).len() <= s.len(),
    decreases s.len(),
{
    if s.len() > 0 {
        lemma_sanitize_keeps_only_xml_chars(s.drop_last());
    }
}

} // verus!

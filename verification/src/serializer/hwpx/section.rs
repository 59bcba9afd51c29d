//! `Contents/section{N}.xml`: the body of a section.
//!
//! The section keeps the structure of an empty Hancom section (section properties, page
//! grid, column control) and fills in, from the document model:
//!   - the paper size and margins (`pagePr`) from the section's `PageDef`, also when it has no
//!     size (width and height 0), so that its margins are kept;
//!   - one `<hp:p>` per paragraph, with `paraPrIDRef`, `styleIDRef`, `pageBreak` and
//!     `columnBreak` from the paragraph;
//!   - the text as runs of equal character shape (the split of table cells), and, in
//!     paragraphs without controls, the character shapes that start after the text as empty
//!     runs;
//!   - in the text, `\n` as `<hp:lineBreak/>` and `\t` as `<hp:tab .../>`;
//!   - a run for each control that the body writes (tables, pictures, drawing objects, page
//!     hiding, page number position, forms);
//!   - the paragraph's line segments as they are (all fields), or, when it has none,
//!     placeholder segments, one per line.
use vstd::prelude::*;
use vstd::string::{StrSliceExecFns, StringExecFns};
use vstd::utf8::{decode_utf8, encode_utf8};

use crate::model::control::{Control, PageHide, PageNumberPos};
use crate::model::document::{Document, Section};
use crate::model::page::PageDef;
use crate::model::paragraph::{CharShapeRef, ColumnBreakType, LineSeg, Paragraph};
use crate::model::shape::ShapeObject;

use super::context::{
    lemma_progress_nothing, lemma_progress_xml, lemma_recorded_nothing, lemma_recorded_then,
    lemma_then, nothing, progress, recorded, then, xml_only, Emitted, SerializeContext,
};
use super::form::{bool01, bool01_text, form_xml, write_form};
use super::numfmt::{
    int_text, lemma_escape_int_text, lemma_escape_nat_text, nat_text, push_int, push_nat,
};
use super::table::{
    cell_p_attrs, control_supported, control_supported_exec, lineseg_xml, shape_top_written, shape_xml, table_fits, table_out,
    write_cell_shape, write_table,
};
use super::utils::{
    lemma_first_attr, lemma_next_attr,
    first_char_shape_id, positions_fit, runs_view, shape_runs, split_char_shape_runs, text_end,
    text_positions_fit,
    trailing_refs, trailing_zero_length_refs, appended, attr_text, attrs_text, empty_tag, empty_tag_text, end_tag, end_tag_text, escape_char,
    escape_text, first_shape_id, indented, into_inner, lemma_appended_then, new_writer,
    open_tag_text, start_tag, string_from_utf8, string_push, write_markup, xml_escape,
};
use super::SerializeError;

verus! {

broadcast use vstd::string::group_string_axioms;

// ---- the empty-section template, split at the places the serializer fills ----

/// XML declaration and the opening `<hs:sec>` with its namespaces.
pub const SECTION_HEAD: &'static str = "<?xml version=\"1.0\" encoding=\"UTF-8\" standalone=\"yes\" ?><hs:sec xmlns:ha=\"http://www.hancom.co.kr/hwpml/2011/app\" xmlns:hp=\"http://www.hancom.co.kr/hwpml/2011/paragraph\" xmlns:hp10=\"http://www.hancom.co.kr/hwpml/2016/paragraph\" xmlns:hs=\"http://www.hancom.co.kr/hwpml/2011/section\" xmlns:hc=\"http://www.hancom.co.kr/hwpml/2011/core\" xmlns:hh=\"http://www.hancom.co.kr/hwpml/2011/head\" xmlns:hhs=\"http://www.hancom.co.kr/hwpml/2011/history\" xmlns:hm=\"http://www.hancom.co.kr/hwpml/2011/master-page\" xmlns:hpf=\"http://www.hancom.co.kr/schema/2011/hpf\" xmlns:dc=\"http://purl.org/dc/elements/1.1/\" xmlns:opf=\"http://www.idpf.org/2007/opf/\" xmlns:ooxmlchart=\"http://www.hancom.co.kr/hwpml/2016/ooxmlchart\" xmlns:hwpunitchar=\"http://www.hancom.co.kr/hwpml/2016/HwpUnitChar\" xmlns:epub=\"http://www.idpf.org/2007/ops\" xmlns:config=\"urn:oasis:names:tc:opendocument:xmlns:config:1.0\">";

/// The template's first `<hp:p>` tag, kept when the section has no paragraph.
pub const TEMPLATE_FIRST_P_TAG: &'static str = "<hp:p id=\"3121190098\" paraPrIDRef=\"0\" styleIDRef=\"0\" pageBreak=\"0\" columnBreak=\"0\" merged=\"0\">";

/// The run with the section properties, up to the paper size.
pub const SEC_PR_OPEN: &'static str = "<hp:run charPrIDRef=\"0\"><hp:secPr id=\"\" textDirection=\"HORIZONTAL\" spaceColumns=\"1134\" tabStop=\"8000\" tabStopVal=\"4000\" tabStopUnit=\"HWPUNIT\" outlineShapeIDRef=\"1\" memoShapeIDRef=\"0\" textVerticalWidthHead=\"0\" masterPageCnt=\"0\"><hp:grid lineGrid=\"0\" charGrid=\"0\" wonggojiFormat=\"0\"/><hp:startNum pageStartsOn=\"BOTH\" page=\"0\" pic=\"0\" tbl=\"0\" equation=\"0\"/><hp:visibility hideFirstHeader=\"0\" hideFirstFooter=\"0\" hideFirstMasterPage=\"0\" border=\"SHOW_ALL\" fill=\"SHOW_ALL\" hideFirstPageNum=\"0\" hideFirstEmptyLine=\"0\" showLineNumber=\"0\"/><hp:lineNumberShape restartType=\"0\" countBy=\"0\" distance=\"0\" startNumber=\"0\"/>";

/// The rest of the section properties and the column control, to the end of their run.
pub const SEC_PR_CLOSE: &'static str = "<hp:footNotePr><hp:autoNumFormat type=\"DIGIT\" userChar=\"\" prefixChar=\"\" suffixChar=\")\" supscript=\"0\"/><hp:noteLine length=\"-1\" type=\"SOLID\" width=\"0.12 mm\" color=\"#000000\"/><hp:noteSpacing betweenNotes=\"283\" belowLine=\"567\" aboveLine=\"850\"/><hp:numbering type=\"CONTINUOUS\" newNum=\"1\"/><hp:placement place=\"EACH_COLUMN\" beneathText=\"0\"/></hp:footNotePr><hp:endNotePr><hp:autoNumFormat type=\"DIGIT\" userChar=\"\" prefixChar=\"\" suffixChar=\")\" supscript=\"0\"/><hp:noteLine length=\"14692344\" type=\"SOLID\" width=\"0.12 mm\" color=\"#000000\"/><hp:noteSpacing betweenNotes=\"0\" belowLine=\"567\" aboveLine=\"850\"/><hp:numbering type=\"CONTINUOUS\" newNum=\"1\"/><hp:placement place=\"END_OF_DOCUMENT\" beneathText=\"0\"/></hp:endNotePr><hp:pageBorderFill type=\"BOTH\" borderFillIDRef=\"1\" textBorder=\"PAPER\" headerInside=\"0\" footerInside=\"0\" fillArea=\"PAPER\"><hp:offset left=\"1417\" right=\"1417\" top=\"1417\" bottom=\"1417\"/></hp:pageBorderFill><hp:pageBorderFill type=\"EVEN\" borderFillIDRef=\"1\" textBorder=\"PAPER\" headerInside=\"0\" footerInside=\"0\" fillArea=\"PAPER\"><hp:offset left=\"1417\" right=\"1417\" top=\"1417\" bottom=\"1417\"/></hp:pageBorderFill><hp:pageBorderFill type=\"ODD\" borderFillIDRef=\"1\" textBorder=\"PAPER\" headerInside=\"0\" footerInside=\"0\" fillArea=\"PAPER\"><hp:offset left=\"1417\" right=\"1417\" top=\"1417\" bottom=\"1417\"/></hp:pageBorderFill></hp:secPr><hp:ctrl><hp:colPr id=\"\" type=\"NEWSPAPER\" layout=\"LEFT\" colCount=\"1\" sameSz=\"1\" sameGap=\"0\"/></hp:ctrl></hp:run>";

/// Vertical step of a placeholder line: line height 1000 plus spacing 600.
pub const VERT_STEP: u32 = 1600;

/// Flags of a placeholder line segment.
pub const LINE_FLAGS: u32 = 393216;

/// Width of a placeholder line segment.
pub const HORZ_SIZE: u32 = 42520;

/// Width written for a tab (Hancom recomputes it when it opens the file).
pub const TAB_DEFAULT_WIDTH: u32 = 4000;

// ---- paper size and margins ----

/// `pagePr` from a `PageDef`: width and height in rendered orientation (swapped when the
/// page is landscape, as the renderer swaps them), and the seven margins. The gutter
/// side is always `LEFT_ONLY`.
pub open spec fn page_pr_text(pd: PageDef) -> Seq<char> {
    let w = if pd.landscape {
        pd.height
    } else {
        pd.width
    };
    let h = if pd.landscape {
        pd.width
    } else {
        pd.height
    };
    "<hp:pagePr landscape=\"WIDELY\" width=\""@ + nat_text(w as nat) + "\" height=\""@ + nat_text(
        h as nat,
    ) + "\" gutterType=\"LEFT_ONLY\"><hp:margin header=\""@ + nat_text(pd.margin_header as nat)
        + "\" footer=\""@ + nat_text(pd.margin_footer as nat) + "\" gutter=\""@ + nat_text(
        pd.margin_gutter as nat,
    ) + "\" left=\""@ + nat_text(pd.margin_left as nat) + "\" right=\""@ + nat_text(
        pd.margin_right as nat,
    ) + "\" top=\""@ + nat_text(pd.margin_top as nat) + "\" bottom=\""@ + nat_text(
        pd.margin_bottom as nat,
    ) + "\"/></hp:pagePr>"@
}

// ---- paragraph tags ----

pub open spec fn break_flag(p: Paragraph, kind: ColumnBreakType) -> nat {
    if p.column_type == kind {
        1
    } else {
        0
    }
}

/// `<hp:p>` of a body paragraph with sequence number `id`.
pub open spec fn p_open_text(p: Paragraph, id: nat) -> Seq<char> {
    "<hp:p id=\""@ + nat_text(id) + "\" paraPrIDRef=\""@ + nat_text(p.para_shape_id as nat)
        + "\" styleIDRef=\""@ + nat_text(p.style_id as nat) + "\" pageBreak=\""@ + nat_text(
        break_flag(p, ColumnBreakType::Page),
    ) + "\" columnBreak=\""@ + nat_text(break_flag(p, ColumnBreakType::Column)) + "\" merged=\"0\">"@
}

/// `<hp:run charPrIDRef="id">`
pub open spec fn run_open_text(id: u32) -> Seq<char> {
    "<hp:run charPrIDRef=\""@ + nat_text(id as nat) + "\">"@
}

// ---- text ----

/// A body text character in `<hp:t>`: a tab element, a line break element, nothing for
/// other control characters, the escaped character otherwise.
pub open spec fn t_char_text(c: char) -> Seq<char> {
    if c == '\t' {
        "<hp:tab width=\""@ + nat_text(TAB_DEFAULT_WIDTH as nat) + "\" leader=\"0\" type=\"1\"/>"@
    } else if c == '\n' {
        "<hp:lineBreak/>"@
    } else if (c as u32) < 0x20 {
        seq![]
    } else {
        escape_char(c)
    }
}

pub open spec fn t_body_text(s: Seq<char>) -> Seq<char>
    decreases s.len(),
{
    if s.len() == 0 {
        seq![]
    } else {
        t_body_text(s.drop_last()) + t_char_text(s.last())
    }
}

/// `<hp:t>...</hp:t>` of a body paragraph.
pub open spec fn t_text(s: Seq<char>) -> Seq<char> {
    "<hp:t>"@ + t_body_text(s) + "</hp:t>"@
}

// ---- line segments ----

/// A line segment as it is in the model, all fields.
pub open spec fn ir_lineseg_text(s: LineSeg) -> Seq<char> {
    "<hp:lineseg textpos=\""@ + nat_text(s.text_start as nat) + "\" vertpos=\""@ + int_text(
        s.vertical_pos as int,
    ) + "\" vertsize=\""@ + int_text(s.line_height as int) + "\" textheight=\""@ + int_text(
        s.text_height as int,
    ) + "\" baseline=\""@ + int_text(s.baseline_distance as int) + "\" spacing=\""@ + int_text(
        s.line_spacing as int,
    ) + "\" horzpos=\""@ + int_text(s.column_start as int) + "\" horzsize=\""@ + int_text(
        s.segment_width as int,
    ) + "\" flags=\""@ + nat_text(s.tag as nat) + "\"/>"@
}

/// The first `k` line segments.
pub open spec fn ir_linesegs_text(segs: Seq<LineSeg>, k: int) -> Seq<char>
    decreases k,
{
    if k <= 0 {
        seq![]
    } else {
        ir_linesegs_text(segs, k - 1) + ir_lineseg_text(segs[k - 1])
    }
}

/// Where the next paragraph starts after model line segments: below the last segment
/// (its position plus its height, if positive) when that is further down than `v`,
/// otherwise one placeholder step below `v`.
pub open spec fn next_vert(segs: Seq<LineSeg>, v: int) -> int {
    if segs.len() > 0 {
        let last = segs.last();
        let next = last.vertical_pos as int + if last.line_height > 0 {
            last.line_height as int
        } else {
            0
        };
        if next > v {
            next
        } else {
            v + VERT_STEP
        }
    } else {
        v + VERT_STEP
    }
}

/// A placeholder line segment at text position `tp` and vertical position `vp`.
pub open spec fn static_lineseg_text(tp: nat, vp: nat) -> Seq<char> {
    "<hp:lineseg textpos=\""@ + nat_text(tp) + "\" vertpos=\""@ + nat_text(vp)
        + "\" vertsize=\"1000\" textheight=\"1000\" baseline=\"850\" spacing=\"600\" horzpos=\"0\" horzsize=\""@
        + nat_text(HORZ_SIZE as nat) + "\" flags=\""@ + nat_text(LINE_FLAGS as nat) + "\"/>"@
}

/// UTF-16 length of a character.
pub open spec fn utf16_len(c: char) -> nat {
    if (c as u32) < 0x10000 {
        1
    } else {
        2
    }
}

/// Text position after the first `k` characters, counting tabs, line feeds and printable
/// characters (other control characters count nothing).
pub open spec fn fallback_pos(text: Seq<char>, k: int) -> nat
    decreases k,
{
    if k <= 0 {
        0
    } else {
        let c = text[k - 1];
        fallback_pos(text, k - 1) + if c == '\t' || c == '\n' || (c as u32) >= 0x20 {
            utf16_len(c)
        } else {
            0
        }
    }
}

/// Line feeds among the first `k` characters.
pub open spec fn fallback_lines(text: Seq<char>, k: int) -> nat
    decreases k,
{
    if k <= 0 {
        0
    } else {
        fallback_lines(text, k - 1) + if text[k - 1] == '\n' {
            1nat
        } else {
            0nat
        }
    }
}

/// Placeholder line segments for the first `k` characters: one for the first line at `v`,
/// and one more after each line feed, a step further down.
pub open spec fn fallback_linesegs_text(text: Seq<char>, v: nat, k: int) -> Seq<char>
    decreases k,
{
    if k <= 0 {
        static_lineseg_text(0, v)
    } else if text[k - 1] == '\n' {
        fallback_linesegs_text(text, v, k - 1) + static_lineseg_text(
            fallback_pos(text, k),
            v + fallback_lines(text, k) * (VERT_STEP as nat),
        )
    } else {
        fallback_linesegs_text(text, v, k - 1)
    }
}

/// Where the next paragraph starts after placeholder segments: one step per line.
pub open spec fn fallback_end(text: Seq<char>, v: nat) -> nat {
    v + (fallback_lines(text, text.len() as int) + 1) * (VERT_STEP as nat)
}

/// The placeholder positions fit a `u32`.
pub open spec fn fallback_fits(text: Seq<char>, v: nat) -> bool {
    &&& fallback_pos(text, text.len() as int) <= u32::MAX
    &&& fallback_end(text, v) <= u32::MAX
}

// ---- rendering ----

/// `pagePr` (paper size and margins) from the section's `PageDef`. HWPX stores width and
/// height in rendered orientation and its reader neither reads `landscape` nor swaps, so a
/// landscape page (which the renderer swaps) is written with the swapped values and reads
/// back in the same orientation. The gutter side is written as `LEFT_ONLY`: the reader does
/// not read it back, so binding sides normalize to single-sided, while the gutter width
/// itself is kept.
pub fn render_page_pr(pd: &PageDef) -> (s: String)
    ensures
        s@ == page_pr_text(*pd),
{
    let (eff_w, eff_h) = if pd.landscape {
        (pd.height, pd.width)
    } else {
        (pd.width, pd.height)
    };
    let mut out = String::new();
    out.append("<hp:pagePr landscape=\"WIDELY\" width=\"");
    push_nat(&mut out, eff_w as u64);
    out.append("\" height=\"");
    push_nat(&mut out, eff_h as u64);
    out.append("\" gutterType=\"LEFT_ONLY\"><hp:margin header=\"");
    push_nat(&mut out, pd.margin_header as u64);
    out.append("\" footer=\"");
    push_nat(&mut out, pd.margin_footer as u64);
    out.append("\" gutter=\"");
    push_nat(&mut out, pd.margin_gutter as u64);
    out.append("\" left=\"");
    push_nat(&mut out, pd.margin_left as u64);
    out.append("\" right=\"");
    push_nat(&mut out, pd.margin_right as u64);
    out.append("\" top=\"");
    push_nat(&mut out, pd.margin_top as u64);
    out.append("\" bottom=\"");
    push_nat(&mut out, pd.margin_bottom as u64);
    out.append("\"/></hp:pagePr>");
    out
}

/// `<hp:p>` of a body paragraph. Ids are sequential (0, 1, 2, ...): the reader ignores them.
fn render_hp_p_open(p: &Paragraph, id: u32) -> (s: String)
    ensures
        s@ == p_open_text(*p, id as nat),
{
    let page_break: u64 = if matches!(p.column_type, ColumnBreakType::Page) {
        1
    } else {
        0
    };
    let column_break: u64 = if matches!(p.column_type, ColumnBreakType::Column) {
        1
    } else {
        0
    };
    let mut out = String::new();
    out.append("<hp:p id=\"");
    push_nat(&mut out, id as u64);
    out.append("\" paraPrIDRef=\"");
    push_nat(&mut out, p.para_shape_id as u64);
    out.append("\" styleIDRef=\"");
    push_nat(&mut out, p.style_id as u64);
    out.append("\" pageBreak=\"");
    push_nat(&mut out, page_break);
    out.append("\" columnBreak=\"");
    push_nat(&mut out, column_break);
    out.append("\" merged=\"0\">");
    out
}

/// `charPrIDRef` of a paragraph's control runs: its first character shape, or 0.
fn first_run_char_shape_id(p: &Paragraph) -> (id: u32)
    ensures
        id == first_shape_id(p.char_shapes@),
{
    if p.char_shapes.len() > 0 {
        p.char_shapes[0].char_shape_id
    } else {
        0
    }
}

fn run_open(id: u32) -> (s: String)
    ensures
        s@ == run_open_text(id),
{
    let mut out = String::new();
    out.append("<hp:run charPrIDRef=\"");
    push_nat(&mut out, id as u64);
    out.append("\">");
    out
}

/// Appends the escaped buffer to `t_xml` and empties the buffer.
fn flush_buf(t_xml: &mut String, buf: &mut String)
    ensures
        final(t_xml)@ == old(t_xml)@ + escape_text(old(buf)@),
        final(buf)@ == Seq::<char>::empty(),
{
    if !buf.as_str().is_empty() {
        let escaped = xml_escape(buf.as_str());
        t_xml.append(escaped.as_str());
        *buf = String::new();
    } else {
        assert(escape_text(buf@) == Seq::<char>::empty());
        assert(t_xml@ + Seq::<char>::empty() == t_xml@);
    }
}

proof fn lemma_escape_text_push(s: Seq<char>, c: char)
    ensures
        escape_text(s.push(c)) == escape_text(s) + escape_char(c),
{
    assert(s.push(c).drop_last() == s);
}

/// `<hp:t>...</hp:t>`: tabs become `<hp:tab .../>`, line feeds `<hp:lineBreak/>`, other
/// control characters are dropped, the rest is escaped.
fn render_hp_t_content(text: &str) -> (s: String)
    ensures
        s@ == t_text(text@),
{
    let mut t_xml = String::new();
    t_xml.append("<hp:t>");
    let mut buf = String::new();
    for c in it: text.chars()
        invariant
            it.seq() == text@,
            t_xml@ + escape_text(buf@) == "<hp:t>"@ + t_body_text(text@.take(it.index() as int)),
    {
        let ghost k = it.index() as int;
        assert(c == text@[k]);
        assert(text@.take(k + 1).drop_last() == text@.take(k));
        let ghost before = "<hp:t>"@ + t_body_text(text@.take(k));
        if c == '\t' {
            flush_buf(&mut t_xml, &mut buf);
            t_xml.append("<hp:tab width=\"");
            push_nat(&mut t_xml, TAB_DEFAULT_WIDTH as u64);
            t_xml.append("\" leader=\"0\" type=\"1\"/>");
            assert(escape_text(buf@) == Seq::<char>::empty());
            assert(t_xml@ + escape_text(buf@) == before + t_char_text(c));
        } else if c == '\n' {
            flush_buf(&mut t_xml, &mut buf);
            t_xml.append("<hp:lineBreak/>");
            assert(escape_text(buf@) == Seq::<char>::empty());
            assert(t_xml@ + escape_text(buf@) == before + t_char_text(c));
        } else if (c as u32) < 0x20 {
            assert(t_char_text(c) == Seq::<char>::empty());
            assert(before + t_char_text(c) == before);
        } else {
            let ghost old_buf = buf@;
            string_push(&mut buf, c);
            proof {
                lemma_escape_text_push(old_buf, c);
            }
            assert(t_xml@ + escape_text(buf@) == before + t_char_text(c));
        }
    }
    flush_buf(&mut t_xml, &mut buf);
    t_xml.append("</hp:t>");
    assert(text@.take(text@.len() as int) == text@);
    t_xml
}

/// Appends one model line segment, all fields.
fn push_ir_lineseg(out: &mut String, seg: &LineSeg)
    ensures
        final(out)@ == old(out)@ + ir_lineseg_text(*seg),
{
    out.append("<hp:lineseg textpos=\"");
    push_nat(out, seg.text_start as u64);
    out.append("\" vertpos=\"");
    push_int(out, seg.vertical_pos as i64);
    out.append("\" vertsize=\"");
    push_int(out, seg.line_height as i64);
    out.append("\" textheight=\"");
    push_int(out, seg.text_height as i64);
    out.append("\" baseline=\"");
    push_int(out, seg.baseline_distance as i64);
    out.append("\" spacing=\"");
    push_int(out, seg.line_spacing as i64);
    out.append("\" horzpos=\"");
    push_int(out, seg.column_start as i64);
    out.append("\" horzsize=\"");
    push_int(out, seg.segment_width as i64);
    out.append("\" flags=\"");
    push_nat(out, seg.tag as u64);
    out.append("\"/>");
}

/// The model's line segments as they are, all fields: the serializer never invents layout
/// values for a document that has them.
fn render_lineseg_array_from_ir(segs: &[LineSeg]) -> (s: String)
    ensures
        s@ == ir_linesegs_text(segs@, segs@.len() as int),
{
    let mut out = String::new();
    let mut i: usize = 0;
    while i < segs.len()
        invariant
            i <= segs.len(),
            out@ == ir_linesegs_text(segs@, i as int),
        decreases segs.len() - i,
    {
        push_ir_lineseg(&mut out, &segs[i]);
        i += 1;
    }
    out
}

/// Vertical position where the next paragraph starts, after model line segments: below
/// the last segment when that lies further down than `vert_start`, otherwise one step
/// below `vert_start`.
fn next_vert_cursor_from_ir(segs: &[LineSeg], vert_start: u32) -> (next: u32)
    requires
        next_vert(segs@, vert_start as int) <= u32::MAX,
    ensures
        next == next_vert(segs@, vert_start as int),
{
    if segs.len() > 0 {
        let last = &segs[segs.len() - 1];
        let height: i64 = if last.line_height > 0 {
            last.line_height as i64
        } else {
            0
        };
        let next = (last.vertical_pos as i64) + height;
        if next > vert_start as i64 {
            next as u32
        } else {
            vert_start + VERT_STEP
        }
    } else {
        vert_start + VERT_STEP
    }
}

/// A placeholder line segment. Its values are not a layout: a document written with them
/// is meant to be laid out again when it is read.
fn push_lineseg_static(out: &mut String, textpos: u32, vertpos: u32)
    ensures
        final(out)@ == old(out)@ + static_lineseg_text(textpos as nat, vertpos as nat),
{
    out.append("<hp:lineseg textpos=\"");
    push_nat(out, textpos as u64);
    out.append("\" vertpos=\"");
    push_nat(out, vertpos as u64);
    out.append(
        "\" vertsize=\"1000\" textheight=\"1000\" baseline=\"850\" spacing=\"600\" horzpos=\"0\" horzsize=\"",
    );
    push_nat(out, HORZ_SIZE as u64);
    out.append("\" flags=\"");
    push_nat(out, LINE_FLAGS as u64);
    out.append("\"/>");
}

proof fn lemma_fallback_monotone(text: Seq<char>, k: int, n: int)
    requires
        0 <= k <= n <= text.len(),
    ensures
        fallback_pos(text, k) <= fallback_pos(text, n),
        fallback_lines(text, k) <= fallback_lines(text, n),
    decreases n - k,
{
    if k < n {
        lemma_fallback_monotone(text, k, n - 1);
    }
}

/// Placeholder line segments when the model has none: one for the first line at
/// `vert_start`, and one after each line feed, a step further down; and where the next
/// paragraph starts.
fn render_lineseg_array_fallback(text: &str, vert_start: u32) -> (res: (String, u32))
    requires
        fallback_fits(text@, vert_start as nat),
    ensures
        res.0@ == fallback_linesegs_text(text@, vert_start as nat, text@.len() as int),
        res.1 == fallback_end(text@, vert_start as nat),
{
    let mut linesegs = String::new();
    push_lineseg_static(&mut linesegs, 0, vert_start);
    assert(Seq::<char>::empty() + static_lineseg_text(0, vert_start as nat) == static_lineseg_text(
        0,
        vert_start as nat,
    ));
    let mut utf16_pos: u32 = 0;
    let mut lines_in_para: u32 = 0;
    for c in it: text.chars()
        invariant
            it.seq() == text@,
            fallback_fits(text@, vert_start as nat),
            utf16_pos == fallback_pos(text@, it.index() as int),
            lines_in_para == fallback_lines(text@, it.index() as int),
            linesegs@ == fallback_linesegs_text(text@, vert_start as nat, it.index() as int),
    {
        let ghost k = it.index() as int;
        assert(c == text@[k]);
        proof {
            lemma_fallback_monotone(text@, k + 1, text@.len() as int);
        }
        let u16_len: u32 = if (c as u32) < 0x10000 {
            1
        } else {
            2
        };
        if c == '\t' || c == '\n' {
            utf16_pos += u16_len;
            if c == '\n' {
                lines_in_para += 1;
                assert(fallback_end(text@, vert_start as nat) >= vert_start + (lines_in_para + 1)
                    * 1600) by (nonlinear_arith)
                    requires
                        fallback_end(text@, vert_start as nat) == vert_start + (fallback_lines(
                            text@,
                            text@.len() as int,
                        ) + 1) * 1600,
                        fallback_lines(text@, text@.len() as int) >= lines_in_para,
                ;
                push_lineseg_static(&mut linesegs, utf16_pos, vert_start + lines_in_para * VERT_STEP);
            }
        } else if (c as u32) < 0x20 {
        } else {
            utf16_pos += u16_len;
        }
    }
    assert(fallback_end(text@, vert_start as nat) == vert_start + (lines_in_para + 1) * 1600);
    let vert_end = vert_start + (lines_in_para + 1) * VERT_STEP;
    (linesegs, vert_end)
}

// ---- text runs ----

/// A body text run: `<hp:run charPrIDRef="id">`, the text, `</hp:run>`.
pub open spec fn body_run_text(id: u32, s: Seq<char>) -> Seq<char> {
    run_open_text(id) + t_text(s) + "</hp:run>"@
}

/// The first `k` body text runs.
pub open spec fn body_runs_text(rs: Seq<(u32, Seq<char>)>, k: int) -> Seq<char>
    decreases k,
{
    if k <= 0 {
        seq![]
    } else {
        body_runs_text(rs, k - 1) + body_run_text(rs[k - 1].0, rs[k - 1].1)
    }
}

/// An empty run `<hp:run charPrIDRef="id"/>`.
pub open spec fn empty_run_text(id: u32) -> Seq<char> {
    "<hp:run charPrIDRef=\""@ + nat_text(id as nat) + "\"/>"@
}

/// Empty runs for the first `k` ids.
pub open spec fn empty_runs_text(ids: Seq<u32>, k: int) -> Seq<char>
    decreases k,
{
    if k <= 0 {
        seq![]
    } else {
        empty_runs_text(ids, k - 1) + empty_run_text(ids[k - 1])
    }
}

/// The text of a body paragraph as runs of equal character shape (an empty text still
/// gets one run, with the first shape); with `preserve` (paragraphs without controls), the
/// references that start after the text end follow as empty runs. The split is the one of
/// table cells.
pub open spec fn body_text_runs(
    text: Seq<char>,
    offsets: Seq<u32>,
    shapes: Seq<CharShapeRef>,
    preserve: bool,
) -> Seq<char> {
    if text.len() == 0 {
        let ids = trailing_refs(shapes, 0, true, shapes.len() as int);
        body_run_text(first_shape_id(shapes), seq![]) + if preserve {
            empty_runs_text(ids, ids.len() as int)
        } else {
            seq![]
        }
    } else {
        let rs = shape_runs(text, offsets, shapes, text.len() as int);
        let ids = trailing_refs(
            shapes,
            text_end(text, offsets, text.len() as int),
            false,
            shapes.len() as int,
        );
        body_runs_text(rs, rs.len() as int) + if preserve {
            empty_runs_text(ids, ids.len() as int)
        } else {
            seq![]
        }
    }
}

fn push_body_run(out: &mut String, id: u32, text: &str)
    ensures
        final(out)@ == old(out)@ + body_run_text(id, text@),
{
    let run = run_open(id);
    out.append(run.as_str());
    let t = render_hp_t_content(text);
    out.append(t.as_str());
    out.append("</hp:run>");
}

fn push_empty_runs(out: &mut String, ids: &[u32])
    ensures
        final(out)@ == old(out)@ + empty_runs_text(ids@, ids@.len() as int),
{
    let ghost out0 = out@;
    let mut i: usize = 0;
    while i < ids.len()
        invariant
            i <= ids.len(),
            out0 == old(out)@,
            out@ == out0 + empty_runs_text(ids@, i as int),
        decreases ids.len() - i,
    {
        out.append("<hp:run charPrIDRef=\"");
        push_nat(out, ids[i] as u64);
        out.append("\"/>");
        i += 1;
    }
}

/// The text runs of a body paragraph.
fn render_body_runs(p: &Paragraph) -> (s: String)
    requires
        p.text@.len() == 0 || positions_fit(p.text@, p.char_offsets@),
    ensures
        s@ == body_text_runs(p.text@, p.char_offsets@, p.char_shapes@, p.controls@.len() == 0),
{
    let preserve = p.controls.len() == 0;
    let mut out = String::new();
    if p.text.as_str().is_empty() {
        let first = first_char_shape_id(p.char_shapes.as_slice());
        proof {
            reveal_strlit("");
        }
        push_body_run(&mut out, first, "");
        if preserve {
            let refs = trailing_zero_length_refs(p.char_shapes.as_slice(), 0, true);
            push_empty_runs(&mut out, refs.as_slice());
        }
        return out;
    }
    let (runs, end_pos) = split_char_shape_runs(
        p.text.as_str(),
        p.char_offsets.as_slice(),
        p.char_shapes.as_slice(),
    );
    let ghost rs = shape_runs(p.text@, p.char_offsets@, p.char_shapes@, p.text@.len() as int);
    let mut i: usize = 0;
    while i < runs.len()
        invariant
            i <= runs.len(),
            runs_view(runs@) == rs,
            out@ == body_runs_text(rs, i as int),
        decreases runs.len() - i,
    {
        assert(rs[i as int] == (runs@[i as int].0, runs@[i as int].1@));
        push_body_run(&mut out, runs[i].0, runs[i].1.as_str());
        i += 1;
    }
    if preserve {
        let refs = trailing_zero_length_refs(p.char_shapes.as_slice(), end_pos, false);
        push_empty_runs(&mut out, refs.as_slice());
    }
    out
}

// ---- paragraph parts ----

/// The text runs, line segments, and where the next paragraph starts, for a paragraph that
/// starts at `v`: the model's segments when it has some, placeholders otherwise.
pub open spec fn para_parts(p: Paragraph, v: nat) -> (Seq<char>, Seq<char>, nat) {
    let runs = body_text_runs(p.text@, p.char_offsets@, p.char_shapes@, p.controls@.len() == 0);
    if p.line_segs@.len() > 0 {
        (
            runs,
            ir_linesegs_text(p.line_segs@, p.line_segs@.len() as int),
            next_vert(p.line_segs@, v as int) as nat,
        )
    } else {
        (runs, fallback_linesegs_text(p.text@, v, p.text@.len() as int), fallback_end(p.text@, v))
    }
}

/// The positions computed for a paragraph that starts at `v` fit a `u32`.
pub open spec fn para_parts_fit(p: Paragraph, v: nat) -> bool {
    &&& p.text@.len() == 0 || positions_fit(p.text@, p.char_offsets@)
    &&& if p.line_segs@.len() > 0 {
        next_vert(p.line_segs@, v as int) <= u32::MAX
    } else {
        fallback_fits(p.text@, v)
    }
}

proof fn lemma_next_vert_nonneg(segs: Seq<LineSeg>, v: int)
    requires
        v >= 0,
    ensures
        next_vert(segs, v) > v,
{
}

fn render_paragraph_parts(para: &Paragraph, vert_start: u32) -> (res: (String, String, u32))
    requires
        para_parts_fit(*para, vert_start as nat),
    ensures
        (res.0@, res.1@, res.2 as nat) == para_parts(*para, vert_start as nat),
{
    let t_xml = render_body_runs(para);
    if para.line_segs.len() > 0 {
        let linesegs = render_lineseg_array_from_ir(para.line_segs.as_slice());
        proof {
            lemma_next_vert_nonneg(para.line_segs@, vert_start as int);
        }
        let vert_end = next_vert_cursor_from_ir(para.line_segs.as_slice(), vert_start);
        (t_xml, linesegs, vert_end)
    } else {
        let (linesegs, vert_end) = render_lineseg_array_fallback(para.text.as_str(), vert_start);
        (t_xml, linesegs, vert_end)
    }
}

/// Parts of a paragraph that is only `text` (for a section without paragraphs).
fn render_paragraph_parts_for_text(text: &str, vert_start: u32) -> (res: (String, String, u32))
    requires
        fallback_fits(text@, vert_start as nat),
    ensures
        res.0@ == t_text(text@),
        res.1@ == fallback_linesegs_text(text@, vert_start as nat, text@.len() as int),
        res.2 == fallback_end(text@, vert_start as nat),
{
    let t_xml = render_hp_t_content(text);
    let (linesegs, vert_end) = render_lineseg_array_fallback(text, vert_start);
    (t_xml, linesegs, vert_end)
}

// ---- controls in body paragraphs ----

pub open spec fn page_hide_xml(ph: PageHide) -> Seq<char> {
    open_tag_text("hp:ctrl"@, seq![]) + empty_tag_text(
        "hp:pageHiding"@,
        attr_text("hideHeader"@, bool01_text(ph.hide_header)) + attr_text(
            "hideFooter"@,
            bool01_text(ph.hide_footer),
        ) + attr_text("hideMasterPage"@, bool01_text(ph.hide_master_page)) + attr_text(
            "hideBorder"@,
            bool01_text(ph.hide_border),
        ) + attr_text("hideFill"@, bool01_text(ph.hide_fill)) + attr_text(
            "hidePageNum"@,
            bool01_text(ph.hide_page_num),
        ),
    ) + end_tag_text("hp:ctrl"@)
}

pub open spec fn page_number_position_text(position: u8) -> Seq<char> {
    if position == 0 {
        "NONE"@
    } else if position == 1 {
        "TOP_LEFT"@
    } else if position == 2 {
        "TOP_CENTER"@
    } else if position == 3 {
        "TOP_RIGHT"@
    } else if position == 4 {
        "BOTTOM_LEFT"@
    } else if position == 5 {
        "BOTTOM_CENTER"@
    } else if position == 6 {
        "BOTTOM_RIGHT"@
    } else if position == 7 {
        "OUTSIDE_TOP"@
    } else if position == 8 {
        "OUTSIDE_BOTTOM"@
    } else if position == 9 {
        "INSIDE_TOP"@
    } else if position == 10 {
        "INSIDE_BOTTOM"@
    } else {
        "BOTTOM_CENTER"@
    }
}

pub open spec fn page_number_format_text(format: u8) -> Seq<char> {
    if format == 0 {
        "DIGIT"@
    } else if format == 1 {
        "CIRCLE_DIGIT"@
    } else if format == 2 {
        "ROMAN_CAPITAL"@
    } else if format == 3 {
        "ROMAN_SMALL"@
    } else if format == 4 {
        "LATIN_CAPITAL"@
    } else if format == 5 {
        "LATIN_SMALL"@
    } else if format == 6 {
        "HANGUL"@
    } else if format == 7 {
        "HANJA"@
    } else {
        "DIGIT"@
    }
}

/// The decoration character: `-` when unset (`'\0'`).
pub open spec fn side_char_text(c: char) -> Seq<char> {
    if c == '\0' {
        "-"@
    } else {
        seq![c]
    }
}

pub open spec fn page_number_pos_xml(p: PageNumberPos) -> Seq<char> {
    open_tag_text("hp:ctrl"@, seq![]) + empty_tag_text(
        "hp:pageNum"@,
        attr_text("pos"@, page_number_position_text(p.position)) + attr_text(
            "formatType"@,
            page_number_format_text(p.format),
        ) + attr_text("sideChar"@, side_char_text(p.dash_char)),
    ) + end_tag_text("hp:ctrl"@)
}

fn page_number_position_str(position: u8) -> (s: &'static str)
    ensures
        s@ == page_number_position_text(position),
{
    match position {
        0 => "NONE",
        1 => "TOP_LEFT",
        2 => "TOP_CENTER",
        3 => "TOP_RIGHT",
        4 => "BOTTOM_LEFT",
        5 => "BOTTOM_CENTER",
        6 => "BOTTOM_RIGHT",
        7 => "OUTSIDE_TOP",
        8 => "OUTSIDE_BOTTOM",
        9 => "INSIDE_TOP",
        10 => "INSIDE_BOTTOM",
        _ => "BOTTOM_CENTER",
    }
}

fn page_number_format_str(format: u8) -> (s: &'static str)
    ensures
        s@ == page_number_format_text(format),
{
    match format {
        0 => "DIGIT",
        1 => "CIRCLE_DIGIT",
        2 => "ROMAN_CAPITAL",
        3 => "ROMAN_SMALL",
        4 => "LATIN_CAPITAL",
        5 => "LATIN_SMALL",
        6 => "HANGUL",
        7 => "HANJA",
        _ => "DIGIT",
    }
}

pub(crate) fn write_page_hide(writer: &mut quick_xml::Writer<Vec<u8>>, page_hide: &PageHide) -> (r: Result<
    (),
    SerializeError,
>)
    ensures
        r is Ok,
        indented(*final(writer)) == indented(*old(writer)),
        r is Ok ==> appended(*old(writer), *final(writer), page_hide_xml(*page_hide)),
{
    let ghost w0 = *writer;
    start_tag(writer, "hp:ctrl")?;
    let ghost w1 = *writer;
    proof {
        reveal_with_fuel(attrs_text, 7);
    }
    empty_tag(
        writer,
        "hp:pageHiding",
        &[
            ("hideHeader", bool01(page_hide.hide_header)),
            ("hideFooter", bool01(page_hide.hide_footer)),
            ("hideMasterPage", bool01(page_hide.hide_master_page)),
            ("hideBorder", bool01(page_hide.hide_border)),
            ("hideFill", bool01(page_hide.hide_fill)),
            ("hidePageNum", bool01(page_hide.hide_page_num)),
        ],
    )?;
    let ghost a = open_tag_text("hp:ctrl"@, seq![]);
    let ghost b = empty_tag_text(
        "hp:pageHiding"@,
        attr_text("hideHeader"@, bool01_text(page_hide.hide_header)) + attr_text(
            "hideFooter"@,
            bool01_text(page_hide.hide_footer),
        ) + attr_text("hideMasterPage"@, bool01_text(page_hide.hide_master_page)) + attr_text(
            "hideBorder"@,
            bool01_text(page_hide.hide_border),
        ) + attr_text("hideFill"@, bool01_text(page_hide.hide_fill)) + attr_text(
            "hidePageNum"@,
            bool01_text(page_hide.hide_page_num),
        ),
    );
    proof {
        lemma_appended_then(w0, w1, *writer, a, b);
    }
    let ghost w2 = *writer;
    end_tag(writer, "hp:ctrl")?;
    proof {
        lemma_appended_then(w0, w2, *writer, a + b, end_tag_text("hp:ctrl"@));
    }
    Ok(())
}

pub(crate) fn write_page_number_pos(
    writer: &mut quick_xml::Writer<Vec<u8>>,
    page_number_pos: &PageNumberPos,
) -> (r: Result<(), SerializeError>)
    ensures
        r is Ok,
        indented(*final(writer)) == indented(*old(writer)),
        r is Ok ==> appended(*old(writer), *final(writer), page_number_pos_xml(*page_number_pos)),
{
    let ghost w0 = *writer;
    let side_char = if page_number_pos.dash_char == '\0' {
        "-".to_string()
    } else {
        let mut s = String::new();
        string_push(&mut s, page_number_pos.dash_char);
        s
    };
    start_tag(writer, "hp:ctrl")?;
    let ghost w1 = *writer;
    proof {
        reveal_with_fuel(attrs_text, 4);
    }
    empty_tag(
        writer,
        "hp:pageNum",
        &[
            ("pos", page_number_position_str(page_number_pos.position)),
            ("formatType", page_number_format_str(page_number_pos.format)),
            ("sideChar", side_char.as_str()),
        ],
    )?;
    let ghost a = open_tag_text("hp:ctrl"@, seq![]);
    let ghost b = empty_tag_text(
        "hp:pageNum"@,
        attr_text("pos"@, page_number_position_text(page_number_pos.position)) + attr_text(
            "formatType"@,
            page_number_format_text(page_number_pos.format),
        ) + attr_text("sideChar"@, side_char_text(page_number_pos.dash_char)),
    );
    proof {
        lemma_appended_then(w0, w1, *writer, a, b);
    }
    let ghost w2 = *writer;
    end_tag(writer, "hp:ctrl")?;
    proof {
        lemma_appended_then(w0, w2, *writer, a + b, end_tag_text("hp:ctrl"@));
    }
    Ok(())
}


/// What the body writes for a control, without the run around it.
pub open spec fn body_control_out(c: Control) -> Emitted {
    match c {
        Control::Table(t) => table_out(*t),
        Control::Picture(p) => xml_only(p.xml@),
        Control::Shape(s) => xml_only(shape_xml(*s)),
        Control::PageHide(ph) => xml_only(page_hide_xml(ph)),
        Control::PageNumberPos(pn) => xml_only(page_number_pos_xml(pn)),
        Control::Form(f) => xml_only(form_xml(*f)),
        _ => nothing(),
    }
}

/// Runs (with `charPrIDRef` `id`) of the written controls among the first `n` of `cs`.
pub open spec fn body_controls_out(cs: Seq<Control>, n: int, id: u32) -> Emitted
    decreases n,
{
    if n <= 0 || n > cs.len() {
        nothing()
    } else if control_supported(cs[n - 1]) {
        then(
            body_controls_out(cs, n - 1, id),
            then(
                xml_only(run_open_text(id)),
                then(body_control_out(cs[n - 1]), xml_only("</hp:run>"@)),
            ),
        )
    } else {
        body_controls_out(cs, n - 1, id)
    }
}

/// Writes a drawing object of the body: lines, rectangles and pictures as their markup,
/// groups as their container around their members; `Ok(false)`, with nothing written, for
/// kinds that are not written. Cells write drawing objects the same way.
fn write_shape_xml(
    writer: &mut quick_xml::Writer<Vec<u8>>,
    shape: &ShapeObject,
    ctx: &SerializeContext,
) -> (r: Result<bool, SerializeError>)
    ensures
        r is Ok,
        indented(*final(writer)) == indented(*old(writer)),
        r is Ok ==> appended(*old(writer), *final(writer), shape_xml(*shape)),
        r matches Ok(b) ==> b == shape_top_written(*shape),
{
    write_cell_shape(writer, shape, ctx)
}

/// Writes a control of a body paragraph: `Ok(true)` when the body writes it, `Ok(false)`,
/// with nothing written, for the others.
fn write_control_xml(
    writer: &mut quick_xml::Writer<Vec<u8>>,
    ctrl: &Control,
    ctx: &mut SerializeContext,
) -> (r: Result<bool, SerializeError>)
    requires
        body_control_out(*ctrl).fits,
    ensures
        r is Ok,
        indented(*final(writer)) == indented(*old(writer)),
        r matches Ok(b) ==> b == control_supported(*ctrl) && progress(
            *old(writer),
            *old(ctx),
            *final(writer),
            *final(ctx),
            body_control_out(*ctrl),
        ),
{
    match ctrl {
        Control::Table(table) => {
            write_table(writer, table, ctx)?;
            Ok(true)
        },
        Control::Picture(pic) => {
            let ghost w0 = *writer;
            write_markup(writer, pic.xml.as_str())?;
            proof {
                lemma_progress_xml(w0, *writer, *ctx, pic.xml@);
            }
            Ok(true)
        },
        Control::Shape(shape) => {
            let ghost w0 = *writer;
            let b = write_shape_xml(writer, shape, ctx)?;
            proof {
                lemma_progress_xml(w0, *writer, *ctx, shape_xml(**shape));
            }
            Ok(b)
        },
        Control::PageHide(page_hide) => {
            let ghost w0 = *writer;
            write_page_hide(writer, page_hide)?;
            proof {
                lemma_progress_xml(w0, *writer, *ctx, page_hide_xml(*page_hide));
            }
            Ok(true)
        },
        Control::PageNumberPos(page_number_pos) => {
            let ghost w0 = *writer;
            write_page_number_pos(writer, page_number_pos)?;
            proof {
                lemma_progress_xml(w0, *writer, *ctx, page_number_pos_xml(*page_number_pos));
            }
            Ok(true)
        },
        Control::Form(form) => {
            let ghost w0 = *writer;
            write_form(writer, form)?;
            proof {
                lemma_progress_xml(w0, *writer, *ctx, form_xml(**form));
            }
            Ok(true)
        },
        _ => {
            proof {
                lemma_progress_nothing(*writer, *ctx);
            }
            Ok(false)
        },
    }
}

proof fn lemma_body_controls_fit(cs: Seq<Control>, n: int, id: u32, k: int)
    requires
        0 <= k <= n <= cs.len(),
        body_controls_out(cs, n, id).fits,
    ensures
        body_controls_out(cs, k, id).fits,
        k < n ==> body_control_out(cs[k]).fits,
    decreases n - k,
{
    reveal(then);
    if k < n {
        lemma_body_controls_fit(cs, n - 1, id, k);
    }
}

/// The runs of a body paragraph's written controls, each with the paragraph's first
/// character shape; each control is written by its own XML writer.
fn render_controls_xml(p: &Paragraph, ctx: &mut SerializeContext) -> (r: Result<
    String,
    SerializeError,
>)
    requires
        body_controls_out(
            p.controls@,
            p.controls@.len() as int,
            first_shape_id(p.char_shapes@),
        ).fits,
    ensures
        r is Ok,
        r matches Ok(s) ==> {
            let e = body_controls_out(
                p.controls@,
                p.controls@.len() as int,
                first_shape_id(p.char_shapes@),
            );
            s@ == e.xml && recorded(*old(ctx), *final(ctx), e)
        },
{
    let ghost id = first_shape_id(p.char_shapes@);
    let ghost c0 = *ctx;
    let mut out = String::new();
    let mut i: usize = 0;
    proof {
        lemma_recorded_nothing(*ctx);
    }
    while i < p.controls.len()
        invariant
            i <= p.controls.len(),
            id == first_shape_id(p.char_shapes@),
            body_controls_out(p.controls@, p.controls@.len() as int, id).fits,
            out@ == body_controls_out(p.controls@, i as int, id).xml,
            recorded(c0, *ctx, body_controls_out(p.controls@, i as int, id)),
        decreases p.controls.len() - i,
    {
        reveal(then);
        proof {
            lemma_body_controls_fit(p.controls@, p.controls@.len() as int, id, i as int);
        }
        let ctrl = &p.controls[i];
        let ghost c1 = *ctx;
        let mut writer = new_writer();
        let b = write_control_xml(&mut writer, ctrl, ctx)?;
        let ghost e = body_control_out(*ctrl);
        if b {
            let bytes = into_inner(writer);
            assert(bytes@ == encode_utf8(e.xml));
            let ghost bv = bytes@;
            let res = string_from_utf8(bytes);
            proof {
                vstd::utf8::encode_utf8_decode_utf8(e.xml);
                vstd::utf8::encode_utf8_valid_utf8(e.xml);
                assert(decode_utf8(bv) == e.xml);
            }
            let xml = match res {
                Ok(xml) => xml,
                Err(msg) => {
                    let mut m = String::from_str("control XML UTF-8 변환 실패: ");
                    m.append(msg.as_str());
                    return Err(SerializeError::XmlError(m));
                },
            };
            assert(xml@ == e.xml);
            let run = run_open(first_run_char_shape_id(p));
            let ghost out0 = out@;
            out.append(run.as_str());
            out.append(xml.as_str());
            out.append("</hp:run>");
            proof {
                let a = xml_only(run_open_text(id));
                assert(out@ == out0 + run_open_text(id) + e.xml + "</hp:run>"@);
                assert(out@ == out0 + (run_open_text(id) + (e.xml + "</hp:run>"@)));
                let z = xml_only("</hp:run>"@);
                lemma_recorded_nothing(c1);
                lemma_recorded_then(c1, c1, *ctx, a, e);
                lemma_recorded_then(c1, *ctx, *ctx, then(a, e), z);
                lemma_recorded_then(
                    c0,
                    c1,
                    *ctx,
                    body_controls_out(p.controls@, i as int, id),
                    then(a, then(e, z)),
                );
            }
        } else {
            proof {
                assert(e.border_fills == Seq::<u16>::empty());
                assert(e.para_shapes == Seq::<u16>::empty());
                assert(e.styles == Seq::<u16>::empty());
                assert(e.char_shapes == Seq::<u32>::empty());
                assert(ctx.border_fill_ids.referenced@ == c1.border_fill_ids.referenced@);
                assert(ctx.para_shape_ids.referenced@ == c1.para_shape_ids.referenced@);
                assert(ctx.style_ids.referenced@ == c1.style_ids.referenced@);
                assert(ctx.char_shape_ids.referenced@ == c1.char_shape_ids.referenced@);
            }
        }
        i += 1;
    }
    Ok(out)
}

// ---- paragraphs and the section ----

/// A body paragraph with sequence number `i` that starts at vertical position `v`: its
/// `<hp:p>`, then `sec_pr` (the section properties, in the first paragraph only), its text
/// run, the runs of its written controls, its line segments.
pub open spec fn para_out(p: Paragraph, i: nat, v: nat, sec_pr: Seq<char>) -> Emitted {
    let parts = para_parts(p, v);
    let id = first_shape_id(p.char_shapes@);
    then(
        Emitted {
            fits: para_parts_fit(p, v),
            xml: p_open_text(p, i) + sec_pr + parts.0,
            border_fills: seq![],
            para_shapes: seq![],
            styles: seq![],
            char_shapes: seq![],
        },
        then(
            body_controls_out(p.controls@, p.controls@.len() as int, id),
            xml_only("<hp:linesegarray>"@ + parts.1 + "</hp:linesegarray></hp:p>"@),
        ),
    )
}

/// Appends a body paragraph to `out` and gives where the next paragraph starts.
fn write_paragraph(
    out: &mut String,
    p: &Paragraph,
    id: u32,
    vert_start: u32,
    sec_pr: &str,
    ctx: &mut SerializeContext,
) -> (r: Result<u32, SerializeError>)
    requires
        para_out(*p, id as nat, vert_start as nat, sec_pr@).fits,
    ensures
        r is Ok,
        r matches Ok(next) ==> {
            let e = para_out(*p, id as nat, vert_start as nat, sec_pr@);
            &&& final(out)@ == old(out)@ + e.xml
            &&& next as nat == para_parts(*p, vert_start as nat).2
            &&& recorded(*old(ctx), *final(ctx), e)
        },
{
    reveal(then);
    let ghost out0 = out@;
    let ghost c0 = *ctx;
    let (runs, linesegs, next) = render_paragraph_parts(p, vert_start);
    let cs = first_run_char_shape_id(p);
    let p_open = render_hp_p_open(p, id);
    let controls = render_controls_xml(p, ctx)?;
    out.append(p_open.as_str());
    out.append(sec_pr);
    out.append(runs.as_str());
    let ghost out1 = out@;
    out.append(controls.as_str());
    let ghost out2 = out@;
    out.append("<hp:linesegarray>");
    out.append(linesegs.as_str());
    out.append("</hp:linesegarray></hp:p>");
    proof {
        let parts = para_parts(*p, vert_start as nat);
        let head = p_open_text(*p, id as nat) + sec_pr@ + parts.0;
        let ctl = body_controls_out(p.controls@, p.controls@.len() as int, cs);
        let tail = "<hp:linesegarray>"@ + parts.1 + "</hp:linesegarray></hp:p>"@;
        assert(out1 == out0 + head);
        assert(out2 == out1 + ctl.xml);
        assert(out@ == out2 + tail);
        assert(out@ == out0 + (head + (ctl.xml + tail)));
        assert(ctx.border_fill_ids.referenced@ == c0.border_fill_ids.referenced@ + (Seq::<u16>::empty() + (
            ctl.border_fills + Seq::<u16>::empty())));
        assert(ctx.para_shape_ids.referenced@ == c0.para_shape_ids.referenced@ + (Seq::<u16>::empty() + (
            ctl.para_shapes + Seq::<u16>::empty())));
        assert(ctx.style_ids.referenced@ == c0.style_ids.referenced@ + (Seq::<u16>::empty() + (
            ctl.styles + Seq::<u16>::empty())));
        assert(ctx.char_shape_ids.referenced@ == c0.char_shape_ids.referenced@ + (Seq::<u32>::empty() + (
            ctl.char_shapes + Seq::<u32>::empty())));
    }
    Ok(next)
}

/// Where paragraph `k` starts: paragraph 0 at 0, each next one where the one before ends.
pub open spec fn cursor(ps: Seq<Paragraph>, k: int) -> nat
    decreases k,
{
    if k <= 0 {
        0
    } else {
        para_parts(ps[k - 1], cursor(ps, k - 1)).2
    }
}

/// The first `k` paragraphs of a section; the first one carries `sec_pr`.
#[verifier::opaque]
pub open spec fn body_paras_out(ps: Seq<Paragraph>, k: int, sec_pr: Seq<char>) -> Emitted
    decreases k,
{
    if k <= 0 || k > ps.len() {
        nothing()
    } else {
        then(
            body_paras_out(ps, k - 1, sec_pr),
            para_out(
                ps[k - 1],
                (k - 1) as nat,
                cursor(ps, k - 1),
                if k == 1 {
                    sec_pr
                } else {
                    seq![]
                },
            ),
        )
    }
}

/// The section properties run of the first paragraph.
pub open spec fn sec_pr_text(pd: PageDef) -> Seq<char> {
    SEC_PR_OPEN@ + page_pr_text(pd) + SEC_PR_CLOSE@
}

/// A section: the template's head; its first paragraph with the section properties; its
/// other paragraphs; the end of the section. A section without paragraphs keeps the
/// template's paragraph, with an empty text and one placeholder line segment.
#[verifier::opaque]
pub open spec fn section_out(s: Section) -> Emitted {
    let ps = s.paragraphs@;
    let sec_pr = sec_pr_text(s.section_def.page_def);
    if ps.len() == 0 {
        xml_only(
            SECTION_HEAD@ + TEMPLATE_FIRST_P_TAG@ + sec_pr + run_open_text(0) + t_text(seq![])
                + "</hp:run><hp:linesegarray>"@ + static_lineseg_text(0, 0)
                + "</hp:linesegarray></hp:p></hs:sec>"@,
        )
    } else {
        then(
            xml_only(SECTION_HEAD@),
            then(body_paras_out(ps, ps.len() as int, sec_pr), xml_only("</hs:sec>"@)),
        )
    }
}

proof fn lemma_body_paras_fit(ps: Seq<Paragraph>, n: int, k: int, sec_pr: Seq<char>)
    requires
        1 <= k <= n <= ps.len(),
        body_paras_out(ps, n, sec_pr).fits,
    ensures
        body_paras_out(ps, k, sec_pr).fits,
        para_out(
            ps[k - 1],
            (k - 1) as nat,
            cursor(ps, k - 1),
            if k == 1 {
                sec_pr
            } else {
                seq![]
            },
        ).fits,
    decreases n - k,
{
    reveal_with_fuel(body_paras_out, 1);
    reveal(then);
    if k < n {
        lemma_body_paras_fit(ps, n - 1, k, sec_pr);
    }
}

/// A paragraph ends below where it starts; when its positions fit a `u32`, so does its end.
proof fn lemma_para_end(p: Paragraph, v: nat)
    ensures
        para_parts(p, v).2 > v,
        para_parts_fit(p, v) ==> para_parts(p, v).2 <= u32::MAX,
{
    if p.line_segs@.len() > 0 {
        lemma_next_vert_nonneg(p.line_segs@, v as int);
    } else {
        let l = fallback_lines(p.text@, p.text@.len() as int);
        assert((l + 1) * 1600 >= 1600) by (nonlinear_arith);
    }
}

/// Paragraph `k` starts at least `k` units down.
proof fn lemma_cursor_grows(ps: Seq<Paragraph>, k: int)
    requires
        0 <= k <= ps.len(),
    ensures
        cursor(ps, k) >= k,
    decreases k,
{
    if k > 0 {
        lemma_cursor_grows(ps, k - 1);
        lemma_para_end(ps[k - 1], cursor(ps, k - 1));
    }
}

/// `Contents/section{N}.xml` of a section: the XML as UTF-8 bytes; the references of its
/// tables are recorded in `ctx`. `_doc` and `_index` are not read. `section_fits` tells
/// whether its positions fit a `u32`, as this requires.
#[verifier::rlimit(40)]
pub fn write_section(
    section: &Section,
    _doc: &Document,
    _index: usize,
    ctx: &mut SerializeContext,
) -> (r: Result<Vec<u8>, SerializeError>)
    requires
        section_out(*section).fits,
    ensures
        r is Ok,
        r matches Ok(bytes) ==> {
            &&& bytes@ == encode_utf8(section_out(*section).xml)
            &&& recorded(*old(ctx), *final(ctx), section_out(*section))
        },
{
    reveal(section_out);
    let ghost c0 = *ctx;
    let ghost ps = section.paragraphs@;
    let pd = &section.section_def.page_def;
    let mut sec_pr = String::new();
    sec_pr.append(SEC_PR_OPEN);
    let page_pr = render_page_pr(pd);
    sec_pr.append(page_pr.as_str());
    sec_pr.append(SEC_PR_CLOSE);
    assert(sec_pr@ == sec_pr_text(*pd));
    let mut out = String::new();
    out.append(SECTION_HEAD);
    if section.paragraphs.len() == 0 {
        out.append(TEMPLATE_FIRST_P_TAG);
        out.append(sec_pr.as_str());
        let run = run_open(0);
        out.append(run.as_str());
        proof {
            reveal_strlit("");
            assert(fallback_end(""@, 0) == 1600);
        }
        let (t, linesegs, _) = render_paragraph_parts_for_text("", 0);
        out.append(t.as_str());
        out.append("</hp:run><hp:linesegarray>");
        out.append(linesegs.as_str());
        out.append("</hp:linesegarray></hp:p></hs:sec>");
        proof {
            lemma_recorded_nothing(*ctx);
        }
        return Ok(out.as_str().as_bytes_vec());
    }
    let ghost head = SECTION_HEAD@;
    let ghost sp = sec_pr@;
    proof {
        lemma_then(xml_only(head), then(body_paras_out(ps, ps.len() as int, sp), xml_only("</hs:sec>"@)));
        lemma_then(body_paras_out(ps, ps.len() as int, sp), xml_only("</hs:sec>"@));
        reveal_with_fuel(body_paras_out, 1);
        lemma_recorded_nothing(*ctx);
    }
    let mut v: u32 = 0;
    let mut idx: usize = 0;
    while idx < section.paragraphs.len()
        invariant
            idx <= section.paragraphs.len(),
            ps == section.paragraphs@,
            sp == sec_pr@,
            body_paras_out(ps, ps.len() as int, sp).fits,
            v as nat == cursor(ps, idx as int),
            out@ == head + body_paras_out(ps, idx as int, sp).xml,
            recorded(c0, *ctx, body_paras_out(ps, idx as int, sp)),
        decreases section.paragraphs.len() - idx,
    {
        proof {
            lemma_body_paras_fit(ps, ps.len() as int, idx as int + 1, sp);
            lemma_cursor_grows(ps, idx as int);
            lemma_para_end(ps[idx as int], cursor(ps, idx as int));
        }
        let ghost c1 = *ctx;
        let ghost out1 = out@;
        let sp_now = if idx == 0 {
            sec_pr.as_str()
        } else {
            ""
        };
        proof {
            reveal_strlit("");
        }
        v = write_paragraph(&mut out, &section.paragraphs[idx], idx as u32, v, sp_now, ctx)?;
        proof {
            let e = para_out(
                ps[idx as int],
                idx as nat,
                cursor(ps, idx as int),
                if idx == 0 {
                    sp
                } else {
                    seq![]
                },
            );
            reveal_with_fuel(body_paras_out, 1);
            assert(body_paras_out(ps, idx + 1, sp) == then(body_paras_out(ps, idx as int, sp), e));
            lemma_then(body_paras_out(ps, idx as int, sp), e);
            lemma_recorded_then(c0, c1, *ctx, body_paras_out(ps, idx as int, sp), e);
        }
        idx += 1;
    }
    out.append("</hs:sec>");
    proof {
        let b = body_paras_out(ps, ps.len() as int, sp);
        let z = xml_only("</hs:sec>"@);
        lemma_recorded_nothing(*ctx);
        lemma_recorded_then(c0, *ctx, *ctx, b, z);
        lemma_recorded_nothing(c0);
        lemma_recorded_then(c0, c0, *ctx, xml_only(head), then(b, z));
        assert(out@ == head + (b.xml + z.xml));
    }
    Ok(out.as_str().as_bytes_vec())
}

// ---- whether positions fit ----

/// Where the next paragraph starts after model line segments, when that fits a `u32`.
fn ir_next_cursor(segs: &[LineSeg], vert_start: u32) -> (r: Option<u32>)
    requires
        segs@.len() > 0,
    ensures
        r is Some <==> next_vert(segs@, vert_start as int) <= u32::MAX,
        r matches Some(e) ==> e == next_vert(segs@, vert_start as int),
{
    let last = &segs[segs.len() - 1];
    let height: i64 = if last.line_height > 0 {
        last.line_height as i64
    } else {
        0
    };
    let next = (last.vertical_pos as i64) + height;
    if next > vert_start as i64 {
        Some(next as u32)
    } else if vert_start as u64 + VERT_STEP as u64 <= u32::MAX as u64 {
        Some(vert_start + VERT_STEP)
    } else {
        None
    }
}

/// Where the next paragraph starts after placeholder segments, when the placeholder
/// positions fit a `u32`.
fn fallback_cursor(text: &str, vert_start: u32) -> (r: Option<u32>)
    ensures
        r is Some <==> fallback_fits(text@, vert_start as nat),
        r matches Some(e) ==> e == fallback_end(text@, vert_start as nat),
{
    if vert_start as u64 + 1600 > u32::MAX as u64 {
        proof {
            let l = fallback_lines(text@, text@.len() as int);
            assert((l + 1) * 1600 >= 1600) by (nonlinear_arith);
        }
        return None;
    }
    let mut pos: u64 = 0;
    let mut lines: u64 = 0;
    for c in it: text.chars()
        invariant
            it.seq() == text@,
            pos == fallback_pos(text@, it.index() as int),
            lines == fallback_lines(text@, it.index() as int),
            pos <= u32::MAX,
            vert_start + (lines + 1) * 1600 <= u32::MAX,
    {
        let ghost k = it.index() as int;
        assert(c == text@[k]);
        let u16_len: u64 = if (c as u32) < 0x10000 {
            1
        } else {
            2
        };
        if c == '\t' || c == '\n' || (c as u32) >= 0x20 {
            pos = pos + u16_len;
        }
        if c == '\n' {
            lines = lines + 1;
        }
        if pos > u32::MAX as u64 || vert_start as u64 + (lines + 1) * 1600 > u32::MAX as u64 {
            proof {
                lemma_fallback_monotone(text@, k + 1, text@.len() as int);
            }
            return None;
        }
    }
    Some(vert_start + ((lines + 1) * 1600) as u32)
}

/// Whether the written controls of a body paragraph fit (tables whose cell positions fit).
fn body_controls_fit(p: &Paragraph) -> (b: bool)
    ensures
        b == body_controls_out(
            p.controls@,
            p.controls@.len() as int,
            first_shape_id(p.char_shapes@),
        ).fits,
{
    let ghost id = first_shape_id(p.char_shapes@);
    let ghost cs = p.controls@;
    let mut ok = true;
    let mut j: usize = 0;
    while j < p.controls.len()
        invariant
            j <= p.controls.len(),
            cs == p.controls@,
            ok == body_controls_out(cs, j as int, id).fits,
        decreases p.controls.len() - j,
    {
        let ctrl = &p.controls[j];
        let c = if control_supported_exec(ctrl) {
            match ctrl {
                Control::Table(t) => table_fits(t),
                _ => true,
            }
        } else {
            true
        };
        proof {
            if control_supported(*ctrl) {
                let e = body_control_out(*ctrl);
                let o = xml_only(run_open_text(id));
                let z = xml_only("</hp:run>"@);
                lemma_then(e, z);
                lemma_then(o, then(e, z));
                lemma_then(body_controls_out(cs, j as int, id), then(o, then(e, z)));
            }
        }
        ok = ok && c;
        j += 1;
    }
    ok
}

/// Whether every position that writing the section computes fits a `u32` (vertical
/// positions of paragraphs, UTF-16 positions of texts, at any depth of tables): the
/// condition under which `write_section` may be called.
pub fn section_fits(section: &Section) -> (b: bool)
    ensures
        b == section_out(*section).fits,
{
    reveal(section_out);
    let ghost ps = section.paragraphs@;
    let ghost sp = sec_pr_text(section.section_def.page_def);
    if section.paragraphs.len() == 0 {
        return true;
    }
    proof {
        lemma_then(body_paras_out(ps, ps.len() as int, sp), xml_only("</hs:sec>"@));
        lemma_then(
            xml_only(SECTION_HEAD@),
            then(body_paras_out(ps, ps.len() as int, sp), xml_only("</hs:sec>"@)),
        );
    }
    let mut v: u32 = 0;
    let mut idx: usize = 0;
    assert(body_paras_out(ps, 0, sp) == nothing()) by {
        reveal_with_fuel(body_paras_out, 1);
    }
    while idx < section.paragraphs.len()
        invariant
            idx <= section.paragraphs.len(),
            ps == section.paragraphs@,
            ps.len() > 0,
            v as nat == cursor(ps, idx as int),
            body_paras_out(ps, idx as int, sp).fits,
            section_out(*section).fits == body_paras_out(ps, ps.len() as int, sp).fits,
        decreases section.paragraphs.len() - idx,
    {
        let p = &section.paragraphs[idx];
        let ghost e = para_out(
            ps[idx as int],
            idx as nat,
            cursor(ps, idx as int),
            if idx == 0 {
                sp
            } else {
                seq![]
            },
        );
        proof {
            let id = first_shape_id(p.char_shapes@);
            let parts = para_parts(*p, v as nat);
            let h = Emitted {
                fits: para_parts_fit(*p, v as nat),
                xml: p_open_text(*p, idx as nat) + (if idx == 0 {
                    sp
                } else {
                    seq![]
                }) + parts.0,
                border_fills: seq![],
                para_shapes: seq![],
                styles: seq![],
                char_shapes: seq![],
            };
            let ctl = body_controls_out(p.controls@, p.controls@.len() as int, id);
            let z = xml_only("<hp:linesegarray>"@ + parts.1 + "</hp:linesegarray></hp:p>"@);
            lemma_then(ctl, z);
            lemma_then(h, then(ctl, z));
            reveal_with_fuel(body_paras_out, 1);
            lemma_then(body_paras_out(ps, idx as int, sp), e);
            if !e.fits {
                if idx + 1 < ps.len() {
                    lemma_body_paras_fit_rev(ps, ps.len() as int, idx as int + 1, sp);
                }
            }
        }
        let text_ok = p.text.as_str().is_empty() || text_positions_fit(
            p.text.as_str(),
            p.char_offsets.as_slice(),
        );
        if !text_ok {
            return false;
        }
        let next = if p.line_segs.len() > 0 {
            ir_next_cursor(p.line_segs.as_slice(), v)
        } else {
            fallback_cursor(p.text.as_str(), v)
        };
        let next = match next {
            Some(n) => n,
            None => {
                return false;
            },
        };
        if !body_controls_fit(p) {
            return false;
        }
        v = next;
        idx += 1;
    }
    true
}

proof fn lemma_body_paras_fit_rev(ps: Seq<Paragraph>, n: int, k: int, sec_pr: Seq<char>)
    requires
        1 <= k <= n <= ps.len(),
        !body_paras_out(ps, k, sec_pr).fits,
    ensures
        !body_paras_out(ps, n, sec_pr).fits,
{
    if body_paras_out(ps, n, sec_pr).fits {
        lemma_body_paras_fit(ps, n, k, sec_pr);
    }
}

// ---- laws ----

/// The paper size is written in rendered orientation: a landscape page is written as the
/// portrait page with width and height exchanged.
pub proof fn lemma_landscape_written_as_swapped(pd: PageDef)
    requires
        pd.landscape,
    ensures
        page_pr_text(pd) == page_pr_text(
            (PageDef { width: pd.height, height: pd.width, landscape: false, ..pd }),
        ),
{
}

/// Each `hide*` attribute of the page hiding element is the flag of the field of the same
/// name: `1` when it is set, `0` when not.
pub proof fn lemma_page_hide_flags(ph: PageHide)
    ensures
        page_hide_xml(ph) == "<hp:ctrl><hp:pageHiding hideHeader=\""@ + (if ph.hide_header {
            "1"@
        } else {
            "0"@
        }) + "\" hideFooter=\""@ + (if ph.hide_footer {
            "1"@
        } else {
            "0"@
        }) + "\" hideMasterPage=\""@ + (if ph.hide_master_page {
            "1"@
        } else {
            "0"@
        }) + "\" hideBorder=\""@ + (if ph.hide_border {
            "1"@
        } else {
            "0"@
        }) + "\" hideFill=\""@ + (if ph.hide_fill {
            "1"@
        } else {
            "0"@
        }) + "\" hidePageNum=\""@ + (if ph.hide_page_num {
            "1"@
        } else {
            "0"@
        }) + "\"/></hp:ctrl>"@,
{
    lemma_page_hide_literals();
    assert(escape_text("1"@) == "1"@ && escape_text("0"@) == "0"@) by {
        reveal_strlit("1");
        reveal_strlit("0");
        reveal_with_fuel(escape_text, 2);
    }
    let b0 = bool01_text(ph.hide_header);
    let b1 = bool01_text(ph.hide_footer);
    let b2 = bool01_text(ph.hide_master_page);
    let b3 = bool01_text(ph.hide_border);
    let b4 = bool01_text(ph.hide_fill);
    let b5 = bool01_text(ph.hide_page_num);
    let a0 = attr_text("hideHeader"@, b0);
    let a1 = attr_text("hideFooter"@, b1);
    let a2 = attr_text("hideMasterPage"@, b2);
    let a3 = attr_text("hideBorder"@, b3);
    let a4 = attr_text("hideFill"@, b4);
    let a5 = attr_text("hidePageNum"@, b5);
    let x0 = open_tag_text("hp:ctrl"@, seq![]);
    let nm = seq!['<'] + "hp:pageHiding"@;
    let z = seq!['/', '>'] + end_tag_text("hp:ctrl"@);
    lemma_regroup_eight(x0, nm, a0, a1, a2, a3, a4, a5, z);
    lemma_page_hide_first_attr("<hp:ctrl><hp:pageHiding hideHeader=\""@, b0);
    let p0 = "<hp:ctrl><hp:pageHiding hideHeader=\""@ + b0;
    lemma_next_attr(p0, "\" hideFooter=\""@, "hideFooter"@, b1);
    let p1 = p0 + "\" hideFooter=\""@ + b1;
    lemma_next_attr(p1, "\" hideMasterPage=\""@, "hideMasterPage"@, b2);
    let p2 = p1 + "\" hideMasterPage=\""@ + b2;
    lemma_next_attr(p2, "\" hideBorder=\""@, "hideBorder"@, b3);
    let p3 = p2 + "\" hideBorder=\""@ + b3;
    lemma_next_attr(p3, "\" hideFill=\""@, "hideFill"@, b4);
    let p4 = p3 + "\" hideFill=\""@ + b4;
    lemma_next_attr(p4, "\" hidePageNum=\""@, "hidePageNum"@, b5);
    let p5 = p4 + "\" hidePageNum=\""@ + b5;
    lemma_last_attr(p5, "\"/></hp:ctrl>"@);
}

/// The page hiding element regrouped: its attributes one after the other.
proof fn lemma_regroup_eight(
    x0: Seq<char>,
    nm: Seq<char>,
    a0: Seq<char>,
    a1: Seq<char>,
    a2: Seq<char>,
    a3: Seq<char>,
    a4: Seq<char>,
    a5: Seq<char>,
    z: Seq<char>,
)
    ensures
        x0 + (nm + (a0 + a1 + a2 + a3 + a4 + a5) + seq!['/', '>']) + end_tag_text("hp:ctrl"@) == x0
            + nm + a0 + a1 + a2 + a3 + a4 + a5 + (seq!['/', '>'] + end_tag_text("hp:ctrl"@)),
{
    assert(x0 + (nm + (a0 + a1 + a2 + a3 + a4 + a5) + seq!['/', '>']) + end_tag_text("hp:ctrl"@)
        =~= x0 + nm + a0 + a1 + a2 + a3 + a4 + a5 + (seq!['/', '>'] + end_tag_text("hp:ctrl"@)));
}

/// The start of the page hiding element, up to its first value.
proof fn lemma_page_hide_first_attr(lit: Seq<char>, v: Seq<char>)
    requires
        escape_text(v) == v,
        lit == seq!['<'] + "hp:ctrl"@ + seq!['>', '<'] + "hp:pageHiding"@ + seq![' ']
            + "hideHeader"@ + seq!['=', '"'],
    ensures
        open_tag_text("hp:ctrl"@, seq![]) + (seq!['<'] + "hp:pageHiding"@) + attr_text(
            "hideHeader"@,
            v,
        ) == lit + v + seq!['"'],
{
    assert(open_tag_text("hp:ctrl"@, seq![]) + (seq!['<'] + "hp:pageHiding"@) + attr_text(
        "hideHeader"@,
        v,
    ) =~= lit + v + seq!['"']);
}

/// The end of the page hiding element, after its last value.
proof fn lemma_last_attr(p: Seq<char>, lit: Seq<char>)
    requires
        lit == seq!['"', '/', '>', '<', '/'] + "hp:ctrl"@ + seq!['>'],
    ensures
        p + seq!['"'] + (seq!['/', '>'] + end_tag_text("hp:ctrl"@)) == p + lit,
{
    assert(p + seq!['"'] + (seq!['/', '>'] + end_tag_text("hp:ctrl"@)) =~= p + lit);
}

proof fn lemma_page_hide_literals()
    ensures
        "<hp:ctrl><hp:pageHiding hideHeader=\""@ == seq!['<'] + "hp:ctrl"@ + seq!['>', '<'] + "hp:pageHiding"@ + seq![' '] + "hideHeader"@ + seq!['=', '"'],
        "\" hideFooter=\""@ == seq!['"', ' '] + "hideFooter"@ + seq!['=', '"'],
        "\" hideMasterPage=\""@ == seq!['"', ' '] + "hideMasterPage"@ + seq!['=', '"'],
        "\" hideBorder=\""@ == seq!['"', ' '] + "hideBorder"@ + seq!['=', '"'],
        "\" hideFill=\""@ == seq!['"', ' '] + "hideFill"@ + seq!['=', '"'],
        "\" hidePageNum=\""@ == seq!['"', ' '] + "hidePageNum"@ + seq!['=', '"'],
        "\"/></hp:ctrl>"@ == seq!['"', '/', '>', '<', '/'] + "hp:ctrl"@ + seq!['>'],
{
    reveal_strlit("<hp:ctrl><hp:pageHiding hideHeader=\"");
    reveal_strlit("\" hideFooter=\"");
    reveal_strlit("\" hideMasterPage=\"");
    reveal_strlit("\" hideBorder=\"");
    reveal_strlit("\" hideFill=\"");
    reveal_strlit("\" hidePageNum=\"");
    reveal_strlit("\"/></hp:ctrl>");
    reveal_strlit("hp:ctrl");
    reveal_strlit("hp:pageHiding");
    reveal_strlit("hideHeader");
    reveal_strlit("hideFooter");
    reveal_strlit("hideMasterPage");
    reveal_strlit("hideBorder");
    reveal_strlit("hideFill");
    reveal_strlit("hidePageNum");
    assert("<hp:ctrl><hp:pageHiding hideHeader=\""@ =~= seq!['<'] + "hp:ctrl"@ + seq!['>', '<'] + "hp:pageHiding"@ + seq![' '] + "hideHeader"@ + seq!['=', '"']);
    assert("\" hideFooter=\""@ =~= seq!['"', ' '] + "hideFooter"@ + seq!['=', '"']);
    assert("\" hideMasterPage=\""@ =~= seq!['"', ' '] + "hideMasterPage"@ + seq!['=', '"']);
    assert("\" hideBorder=\""@ =~= seq!['"', ' '] + "hideBorder"@ + seq!['=', '"']);
    assert("\" hideFill=\""@ =~= seq!['"', ' '] + "hideFill"@ + seq!['=', '"']);
    assert("\" hidePageNum=\""@ =~= seq!['"', ' '] + "hidePageNum"@ + seq!['=', '"']);
    assert("\"/></hp:ctrl>"@ =~= seq!['"', '/', '>', '<', '/'] + "hp:ctrl"@ + seq!['>']);
}

/// Table cells write a model line segment exactly as body paragraphs do: the nine fields
/// of the segment, each in the attribute of its own name.
pub proof fn lemma_cell_lineseg_as_body(s: LineSeg)
    ensures
        lineseg_xml(s) == ir_lineseg_text(s),
{
    lemma_lineseg_literals();
    lemma_escape_nat_text(s.text_start as nat);
    lemma_escape_nat_text(s.tag as nat);
    lemma_escape_int_text(s.vertical_pos as int);
    lemma_escape_int_text(s.line_height as int);
    lemma_escape_int_text(s.text_height as int);
    lemma_escape_int_text(s.baseline_distance as int);
    lemma_escape_int_text(s.line_spacing as int);
    lemma_escape_int_text(s.column_start as int);
    lemma_escape_int_text(s.segment_width as int);
    let head = seq!['<'] + "hp:lineseg"@;
    let a0 = attr_text("textpos"@, nat_text(s.text_start as nat));
    let a1 = attr_text("vertpos"@, int_text(s.vertical_pos as int));
    let a2 = attr_text("vertsize"@, int_text(s.line_height as int));
    let a3 = attr_text("textheight"@, int_text(s.text_height as int));
    let a4 = attr_text("baseline"@, int_text(s.baseline_distance as int));
    let a5 = attr_text("spacing"@, int_text(s.line_spacing as int));
    let a6 = attr_text("horzpos"@, int_text(s.column_start as int));
    let a7 = attr_text("horzsize"@, int_text(s.segment_width as int));
    let a8 = attr_text("flags"@, nat_text(s.tag as nat));
    lemma_regroup_nine(a0, a1, a2, a3, a4, a5, a6, a7, a8);
    lemma_first_attr(head, "<hp:lineseg textpos=\""@, "textpos"@, nat_text(s.text_start as nat));
    let p0 = "<hp:lineseg textpos=\""@ + nat_text(s.text_start as nat);
    lemma_next_attr(p0, "\" vertpos=\""@, "vertpos"@, int_text(s.vertical_pos as int));
    let p1 = p0 + "\" vertpos=\""@ + int_text(s.vertical_pos as int);
    lemma_next_attr(p1, "\" vertsize=\""@, "vertsize"@, int_text(s.line_height as int));
    let p2 = p1 + "\" vertsize=\""@ + int_text(s.line_height as int);
    lemma_next_attr(p2, "\" textheight=\""@, "textheight"@, int_text(s.text_height as int));
    let p3 = p2 + "\" textheight=\""@ + int_text(s.text_height as int);
    lemma_next_attr(p3, "\" baseline=\""@, "baseline"@, int_text(s.baseline_distance as int));
    let p4 = p3 + "\" baseline=\""@ + int_text(s.baseline_distance as int);
    lemma_next_attr(p4, "\" spacing=\""@, "spacing"@, int_text(s.line_spacing as int));
    let p5 = p4 + "\" spacing=\""@ + int_text(s.line_spacing as int);
    lemma_next_attr(p5, "\" horzpos=\""@, "horzpos"@, int_text(s.column_start as int));
    let p6 = p5 + "\" horzpos=\""@ + int_text(s.column_start as int);
    lemma_next_attr(p6, "\" horzsize=\""@, "horzsize"@, int_text(s.segment_width as int));
    let p7 = p6 + "\" horzsize=\""@ + int_text(s.segment_width as int);
    lemma_next_attr(p7, "\" flags=\""@, "flags"@, nat_text(s.tag as nat));
    let p8 = p7 + "\" flags=\""@ + nat_text(s.tag as nat);
    assert(p8 + seq!['"'] + seq!['/', '>'] == p8 + "\"/>"@) by {
        assert(p8 + seq!['"'] + seq!['/', '>'] =~= p8 + "\"/>"@);
    }
}

proof fn lemma_regroup_nine(
    a0: Seq<char>,
    a1: Seq<char>,
    a2: Seq<char>,
    a3: Seq<char>,
    a4: Seq<char>,
    a5: Seq<char>,
    a6: Seq<char>,
    a7: Seq<char>,
    a8: Seq<char>,
)
    ensures
        empty_tag_text("hp:lineseg"@, a0 + a1 + a2 + a3 + a4 + a5 + a6 + a7 + a8) == seq!['<']
            + "hp:lineseg"@ + a0 + a1 + a2 + a3 + a4 + a5 + a6 + a7 + a8 + seq!['/', '>'],
{
    assert(empty_tag_text("hp:lineseg"@, a0 + a1 + a2 + a3 + a4 + a5 + a6 + a7 + a8) =~= seq!['<']
        + "hp:lineseg"@ + a0 + a1 + a2 + a3 + a4 + a5 + a6 + a7 + a8 + seq!['/', '>']);
}

proof fn lemma_lineseg_literals()
    ensures
        "<hp:lineseg textpos=\""@ == seq!['<'] + "hp:lineseg"@ + seq![' '] + "textpos"@ + seq!['=', '"'],
        "\" vertpos=\""@ == seq!['"', ' '] + "vertpos"@ + seq!['=', '"'],
        "\" vertsize=\""@ == seq!['"', ' '] + "vertsize"@ + seq!['=', '"'],
        "\" textheight=\""@ == seq!['"', ' '] + "textheight"@ + seq!['=', '"'],
        "\" baseline=\""@ == seq!['"', ' '] + "baseline"@ + seq!['=', '"'],
        "\" spacing=\""@ == seq!['"', ' '] + "spacing"@ + seq!['=', '"'],
        "\" horzpos=\""@ == seq!['"', ' '] + "horzpos"@ + seq!['=', '"'],
        "\" horzsize=\""@ == seq!['"', ' '] + "horzsize"@ + seq!['=', '"'],
        "\" flags=\""@ == seq!['"', ' '] + "flags"@ + seq!['=', '"'],
        "\"/>"@ == seq!['"', '/', '>'],
{
    reveal_strlit("<hp:lineseg textpos=\"");
    reveal_strlit("\" vertpos=\"");
    reveal_strlit("\" vertsize=\"");
    reveal_strlit("\" textheight=\"");
    reveal_strlit("\" baseline=\"");
    reveal_strlit("\" spacing=\"");
    reveal_strlit("\" horzpos=\"");
    reveal_strlit("\" horzsize=\"");
    reveal_strlit("\" flags=\"");
    reveal_strlit("\"/>");
    reveal_strlit("hp:lineseg");
    reveal_strlit("textpos");
    reveal_strlit("vertpos");
    reveal_strlit("vertsize");
    reveal_strlit("textheight");
    reveal_strlit("baseline");
    reveal_strlit("spacing");
    reveal_strlit("horzpos");
    reveal_strlit("horzsize");
    reveal_strlit("flags");
    assert("<hp:lineseg textpos=\""@ =~= seq!['<'] + "hp:lineseg"@ + seq![' '] + "textpos"@ + seq!['=', '"']);
    assert("\" vertpos=\""@ =~= seq!['"', ' '] + "vertpos"@ + seq!['=', '"']);
    assert("\" vertsize=\""@ =~= seq!['"', ' '] + "vertsize"@ + seq!['=', '"']);
    assert("\" textheight=\""@ =~= seq!['"', ' '] + "textheight"@ + seq!['=', '"']);
    assert("\" baseline=\""@ =~= seq!['"', ' '] + "baseline"@ + seq!['=', '"']);
    assert("\" spacing=\""@ =~= seq!['"', ' '] + "spacing"@ + seq!['=', '"']);
    assert("\" horzpos=\""@ =~= seq!['"', ' '] + "horzpos"@ + seq!['=', '"']);
    assert("\" horzsize=\""@ =~= seq!['"', ' '] + "horzsize"@ + seq!['=', '"']);
    assert("\" flags=\""@ =~= seq!['"', ' '] + "flags"@ + seq!['=', '"']);
    assert("\"/>"@ =~= seq!['"', '/', '>']);
}

/// A table cell opens a paragraph as the body does, for paragraphs that start no page and no
/// column: the same id, `paraPrIDRef` from the paragraph shape, `styleIDRef` from the style.
pub proof fn lemma_cell_paragraph_tag_as_body(p: Paragraph, i: nat)
    requires
        p.column_type != ColumnBreakType::Page,
        p.column_type != ColumnBreakType::Column,
    ensures
        open_tag_text("hp:p"@, cell_p_attrs(p, i as int)) == p_open_text(p, i),
{
    lemma_p_tag_literals();
    let v0 = nat_text(i);
    let v1 = nat_text(p.para_shape_id as nat);
    let v2 = nat_text(p.style_id as nat);
    let zero = "0"@;
    assert(nat_text(0) == zero) by {
        reveal_strlit("0");
    }
    assert(escape_text(zero) == zero) by {
        reveal_strlit("0");
        reveal_with_fuel(escape_text, 2);
    }
    lemma_escape_nat_text(i);
    lemma_escape_nat_text(p.para_shape_id as nat);
    lemma_escape_nat_text(p.style_id as nat);
    let a0 = attr_text("id"@, v0);
    let a1 = attr_text("paraPrIDRef"@, v1);
    let a2 = attr_text("styleIDRef"@, v2);
    let a3 = attr_text("pageBreak"@, zero);
    let a4 = attr_text("columnBreak"@, zero);
    let a5 = attr_text("merged"@, zero);
    let h = seq!['<'] + "hp:p"@;
    assert(open_tag_text("hp:p"@, cell_p_attrs(p, i as int)) == h + a0 + a1 + a2 + a3 + a4 + a5
        + seq!['>']) by {
        reveal(cell_p_attrs);
        assert(open_tag_text("hp:p"@, cell_p_attrs(p, i as int)) =~= h + a0 + a1 + a2 + a3 + a4 + a5
            + seq!['>']);
    }
    lemma_first_attr(h, "<hp:p id=\""@, "id"@, v0);
    let p0 = "<hp:p id=\""@ + v0;
    lemma_next_attr(p0, "\" paraPrIDRef=\""@, "paraPrIDRef"@, v1);
    let p1 = p0 + "\" paraPrIDRef=\""@ + v1;
    lemma_next_attr(p1, "\" styleIDRef=\""@, "styleIDRef"@, v2);
    let p2 = p1 + "\" styleIDRef=\""@ + v2;
    lemma_next_attr(p2, "\" pageBreak=\""@, "pageBreak"@, zero);
    let p3 = p2 + "\" pageBreak=\""@ + zero;
    lemma_next_attr(p3, "\" columnBreak=\""@, "columnBreak"@, zero);
    let p4 = p3 + "\" columnBreak=\""@ + zero;
    lemma_next_attr(p4, "\" merged=\""@, "merged"@, zero);
    let p5 = p4 + "\" merged=\""@ + zero;
    assert(p5 + seq!['"'] + seq!['>'] == p4 + "\" merged=\"0\">"@) by {
        assert(p5 + seq!['"'] + seq!['>'] =~= p4 + ("\" merged=\""@ + zero + seq!['"', '>']));
    }
    assert(break_flag(p, ColumnBreakType::Page) == 0);
    assert(break_flag(p, ColumnBreakType::Column) == 0);
}

proof fn lemma_p_tag_literals()
    ensures
        "<hp:p id=\""@ == seq!['<'] + "hp:p"@ + seq![' '] + "id"@ + seq!['=', '"'],
        "\" paraPrIDRef=\""@ == seq!['"', ' '] + "paraPrIDRef"@ + seq!['=', '"'],
        "\" styleIDRef=\""@ == seq!['"', ' '] + "styleIDRef"@ + seq!['=', '"'],
        "\" pageBreak=\""@ == seq!['"', ' '] + "pageBreak"@ + seq!['=', '"'],
        "\" columnBreak=\""@ == seq!['"', ' '] + "columnBreak"@ + seq!['=', '"'],
        "\" merged=\""@ == seq!['"', ' '] + "merged"@ + seq!['=', '"'],
        "\" merged=\"0\">"@ == "\" merged=\""@ + "0"@ + seq!['"', '>'],
{
    reveal_strlit("<hp:p id=\"");
    reveal_strlit("\" paraPrIDRef=\"");
    reveal_strlit("\" styleIDRef=\"");
    reveal_strlit("\" pageBreak=\"");
    reveal_strlit("\" columnBreak=\"");
    reveal_strlit("\" merged=\"");
    reveal_strlit("\" merged=\"0\">");
    reveal_strlit("0");
    reveal_strlit("hp:p");
    reveal_strlit("id");
    reveal_strlit("paraPrIDRef");
    reveal_strlit("styleIDRef");
    reveal_strlit("pageBreak");
    reveal_strlit("columnBreak");
    reveal_strlit("merged");
    assert("<hp:p id=\""@ =~= seq!['<'] + "hp:p"@ + seq![' '] + "id"@ + seq!['=', '"']);
    assert("\" paraPrIDRef=\""@ =~= seq!['"', ' '] + "paraPrIDRef"@ + seq!['=', '"']);
    assert("\" styleIDRef=\""@ =~= seq!['"', ' '] + "styleIDRef"@ + seq!['=', '"']);
    assert("\" pageBreak=\""@ =~= seq!['"', ' '] + "pageBreak"@ + seq!['=', '"']);
    assert("\" columnBreak=\""@ =~= seq!['"', ' '] + "columnBreak"@ + seq!['=', '"']);
    assert("\" merged=\""@ =~= seq!['"', ' '] + "merged"@ + seq!['=', '"']);
    assert("\" merged=\"0\">"@ =~= "\" merged=\""@ + "0"@ + seq!['"', '>']);
}

/// Each paragraph of a section starts further down than the one before.
pub proof fn lemma_paragraphs_go_down(ps: Seq<Paragraph>, k: int)
    requires
        0 <= k < ps.len(),
    ensures
        cursor(ps, k) < cursor(ps, k + 1),
{
    lemma_para_end(ps[k], cursor(ps, k));
}

/// Body text holds no control character: tabs and line feeds become elements, the other
/// control characters are dropped.
pub proof fn lemma_body_text_clean(s: Seq<char>)
    ensures
        forall|i: int| 0 <= i < t_body_text(s).len() ==> (#[trigger] t_body_text(s)[i] as u32) >= 0x20,
    decreases s.len(),
{
    if s.len() > 0 {
        lemma_body_text_clean(s.drop_last());
        let a = t_body_text(s.drop_last());
        let b = t_char_text(s.last());
        reveal_strlit("<hp:tab width=\"");
        reveal_strlit("\" leader=\"0\" type=\"1\"/>");
        reveal_strlit("<hp:lineBreak/>");
        assert(nat_text(TAB_DEFAULT_WIDTH as nat) == seq!['4', '0', '0', '0']) by {
            reveal_with_fuel(nat_text, 5);
        }
        assert forall|i: int| 0 <= i < b.len() implies (#[trigger] b[i] as u32) >= 0x20 by {
        }
        assert forall|i: int| 0 <= i < t_body_text(s).len() implies (#[trigger] t_body_text(s)[i] as u32)
            >= 0x20 by {
            if i < a.len() {
                assert(t_body_text(s)[i] == a[i]);
            } else {
                assert(t_body_text(s)[i] == b[i - a.len()]);
            }
        }
    }
}

} // verus!

//! Which controls an HWPX save loses, in one place.
//!
//! The section body and table cells write six kinds of control (tables, pictures, drawing
//! objects, page hiding, page number positions, forms) and drop the others without a word.
//! The model keeps every control, so what a save will lose can be told before it writes:
//! `classify_hwpx_lossy` says it, and both places where controls are dropped (body
//! paragraphs and table cells) go by it.
//!
//! When it is not sure that a control is written again another way, the classification
//! says lossy: a warning too many is better than a silent loss. Only controls that the
//! serializers are shown to write, and the section definition (whose paper size and
//! margins the section writes), are lossless.
use vstd::prelude::*;

use crate::model::control::Control;
use crate::model::shape::ShapeObject;

use super::context::{then, xml_only};
use super::table::{cell_control_out, control_run_out, control_supported, run_open_xml};
use super::utils::end_tag_text;

verus! {

/// The kind of a control that an HWPX save loses, as shown to the user.
#[derive(Debug, Clone, Copy, PartialEq, Eq, Structural)]
pub enum LossyKind {
    /// A field (click-here, mail merge, cross reference, ...).
    Field,
    Bookmark,
    Equation,
    AutoNumber,
    NewNumber,
    Footnote,
    Endnote,
    /// A hyperlink control.
    Hyperlink,
    Ruby,
    CharOverlap,
    HiddenComment,
    /// A column definition.
    ColumnDef,
    Header,
    Footer,
    /// A drawing object of a kind that is not written (ellipse, arc, polygon, curve).
    Shape,
    Unknown,
}

/// The machine-stable name of a kind: the name of its variant.
pub open spec fn kind_name(k: LossyKind) -> Seq<char> {
    match k {
        LossyKind::Field => "Field"@,
        LossyKind::Bookmark => "Bookmark"@,
        LossyKind::Equation => "Equation"@,
        LossyKind::AutoNumber => "AutoNumber"@,
        LossyKind::NewNumber => "NewNumber"@,
        LossyKind::Footnote => "Footnote"@,
        LossyKind::Endnote => "Endnote"@,
        LossyKind::Hyperlink => "Hyperlink"@,
        LossyKind::Ruby => "Ruby"@,
        LossyKind::CharOverlap => "CharOverlap"@,
        LossyKind::HiddenComment => "HiddenComment"@,
        LossyKind::ColumnDef => "ColumnDef"@,
        LossyKind::Header => "Header"@,
        LossyKind::Footer => "Footer"@,
        LossyKind::Shape => "Shape"@,
        LossyKind::Unknown => "Unknown"@,
    }
}

impl LossyKind {
    /// The machine-stable name (the key of the user-facing label): the variant's name.
    pub fn as_str(&self) -> (s: &'static str)
        ensures
            s@ == kind_name(*self),
    {
        match self {
            LossyKind::Field => "Field",
            LossyKind::Bookmark => "Bookmark",
            LossyKind::Equation => "Equation",
            LossyKind::AutoNumber => "AutoNumber",
            LossyKind::NewNumber => "NewNumber",
            LossyKind::Footnote => "Footnote",
            LossyKind::Endnote => "Endnote",
            LossyKind::Hyperlink => "Hyperlink",
            LossyKind::Ruby => "Ruby",
            LossyKind::CharOverlap => "CharOverlap",
            LossyKind::HiddenComment => "HiddenComment",
            LossyKind::ColumnDef => "ColumnDef",
            LossyKind::Header => "Header",
            LossyKind::Footer => "Footer",
            LossyKind::Shape => "Shape",
            LossyKind::Unknown => "Unknown",
        }
    }
}

/// Where a save loses a control, and what kind it is. The indices are a best effort for
/// navigation: in a table cell, `para_index` may be the paragraph's index in the cell.
#[derive(Debug, Clone, Copy, PartialEq, Eq, Structural)]
pub struct LossyDrop {
    pub kind: LossyKind,
    pub section_index: usize,
    pub para_index: usize,
}

/// Whether a drawing object, or a member of a group at any depth, is of a kind that is not
/// written: ellipses, arcs, polygons, curves. Lines, rectangles and pictures are written;
/// a group writes its container, and drops its members that are not written.
pub open spec fn shape_unemittable(s: ShapeObject) -> bool
    decreases s, 0int,
{
    match s {
        ShapeObject::Line(_) | ShapeObject::Rectangle(_) | ShapeObject::Picture(_) => false,
        ShapeObject::Group(g) => any_unemittable(g.children@, g.children@.len() as int),
        ShapeObject::Ellipse(_)
        | ShapeObject::Arc(_)
        | ShapeObject::Polygon(_)
        | ShapeObject::Curve(_) => true,
    }
}

/// Whether one of the first `k` drawing objects of `s` has an unwritten part.
pub open spec fn any_unemittable(s: Seq<ShapeObject>, k: int) -> bool
    decreases s, k,
{
    if k <= 0 || k > s.len() {
        false
    } else {
        any_unemittable(s, k - 1) || shape_unemittable(s[k - 1])
    }
}

/// What a save loses of a control: nothing for the kinds that are written (tables,
/// pictures, page hiding, page number positions, forms), for drawing objects without an
/// unwritten part, and for the section definition (its paper size and margins are written
/// with the section); the control's kind otherwise.
pub open spec fn lossy_kind(c: Control) -> Option<LossyKind> {
    match c {
        Control::Table(_)
        | Control::Picture(_)
        | Control::PageHide(_)
        | Control::PageNumberPos(_)
        | Control::Form(_) => None,
        Control::Shape(s) => if shape_unemittable(*s) {
            Some(LossyKind::Shape)
        } else {
            None
        },
        Control::SectionDef(_) => None,
        Control::ColumnDef(_) => Some(LossyKind::ColumnDef),
        Control::Header(_) => Some(LossyKind::Header),
        Control::Footer(_) => Some(LossyKind::Footer),
        Control::Footnote(_) => Some(LossyKind::Footnote),
        Control::Endnote(_) => Some(LossyKind::Endnote),
        Control::AutoNumber(_) => Some(LossyKind::AutoNumber),
        Control::NewNumber(_) => Some(LossyKind::NewNumber),
        Control::Bookmark(_) => Some(LossyKind::Bookmark),
        Control::Hyperlink(_) => Some(LossyKind::Hyperlink),
        Control::Ruby(_) => Some(LossyKind::Ruby),
        Control::CharOverlap(_) => Some(LossyKind::CharOverlap),
        Control::HiddenComment(_) => Some(LossyKind::HiddenComment),
        Control::Equation(_) => Some(LossyKind::Equation),
        Control::Field(_) => Some(LossyKind::Field),
        Control::Unknown(_) => Some(LossyKind::Unknown),
    }
}

/// `Some(kind)` when an HWPX save loses the control, `None` when it does not.
///
/// The match names every variant, so that a new kind of control cannot be dropped without
/// a classification.
pub fn classify_hwpx_lossy(ctrl: &Control) -> (r: Option<LossyKind>)
    ensures
        r == lossy_kind(*ctrl),
{
    match ctrl {
        Control::Table(_)
        | Control::Picture(_)
        | Control::PageHide(_)
        | Control::PageNumberPos(_)
        | Control::Form(_) => None,
        Control::Shape(shape) => {
            if shape_has_unemittable(shape) {
                Some(LossyKind::Shape)
            } else {
                None
            }
        },
        Control::SectionDef(_) => None,
        Control::ColumnDef(_) => Some(LossyKind::ColumnDef),
        Control::Header(_) => Some(LossyKind::Header),
        Control::Footer(_) => Some(LossyKind::Footer),
        Control::Footnote(_) => Some(LossyKind::Footnote),
        Control::Endnote(_) => Some(LossyKind::Endnote),
        Control::AutoNumber(_) => Some(LossyKind::AutoNumber),
        Control::NewNumber(_) => Some(LossyKind::NewNumber),
        Control::Bookmark(_) => Some(LossyKind::Bookmark),
        Control::Hyperlink(_) => Some(LossyKind::Hyperlink),
        Control::Ruby(_) => Some(LossyKind::Ruby),
        Control::CharOverlap(_) => Some(LossyKind::CharOverlap),
        Control::HiddenComment(_) => Some(LossyKind::HiddenComment),
        Control::Equation(_) => Some(LossyKind::Equation),
        Control::Field(_) => Some(LossyKind::Field),
        Control::Unknown(_) => Some(LossyKind::Unknown),
    }
}

/// Whether a drawing object, or a member of a group at any depth, is of a kind that the
/// serializers do not write.
///
/// The match names every variant, so that a new kind of drawing object cannot be dropped
/// without a classification.
pub fn shape_has_unemittable(shape: &ShapeObject) -> (b: bool)
    ensures
        b == shape_unemittable(*shape),
    decreases shape,
{
    match shape {
        ShapeObject::Line(_) | ShapeObject::Rectangle(_) | ShapeObject::Picture(_) => false,
        ShapeObject::Group(group) => {
            let mut i: usize = 0;
            let mut any = false;
            while i < group.children.len()
                invariant
                    i <= group.children.len(),
                    *shape == ShapeObject::Group(*group),
                    any == any_unemittable(group.children@, i as int),
                decreases group.children.len() - i,
            {
                proof {
                    assert(shape->Group_0 == *group);
                    assert(decreases_to!(*shape => shape->Group_0));
                    assert(decreases_to!(*group => group.children));
                    assert(decreases_to!(group.children => group.children@));
                    assert(decreases_to!(group.children@ => group.children@[i as int]));
                }
                let b = shape_has_unemittable(&group.children[i]);
                any = any || b;
                i += 1;
            }
            any
        },
        ShapeObject::Ellipse(_)
        | ShapeObject::Arc(_)
        | ShapeObject::Polygon(_)
        | ShapeObject::Curve(_) => true,
    }
}

// ---- laws ----

/// Length and first character of a kind's name.
spec fn name_key(k: LossyKind) -> (nat, char) {
    match k {
        LossyKind::Field => (5, 'F'),
        LossyKind::Bookmark => (8, 'B'),
        LossyKind::Equation => (8, 'E'),
        LossyKind::AutoNumber => (10, 'A'),
        LossyKind::NewNumber => (9, 'N'),
        LossyKind::Footnote => (8, 'F'),
        LossyKind::Endnote => (7, 'E'),
        LossyKind::Hyperlink => (9, 'H'),
        LossyKind::Ruby => (4, 'R'),
        LossyKind::CharOverlap => (11, 'C'),
        LossyKind::HiddenComment => (13, 'H'),
        LossyKind::ColumnDef => (9, 'C'),
        LossyKind::Header => (6, 'H'),
        LossyKind::Footer => (6, 'F'),
        LossyKind::Shape => (5, 'S'),
        LossyKind::Unknown => (7, 'U'),
    }
}

proof fn lemma_name_key(k: LossyKind)
    ensures
        kind_name(k).len() == name_key(k).0,
        kind_name(k)[0] == name_key(k).1,
{
    match k {
        LossyKind::Field => reveal_strlit("Field"),
        LossyKind::Bookmark => reveal_strlit("Bookmark"),
        LossyKind::Equation => reveal_strlit("Equation"),
        LossyKind::AutoNumber => reveal_strlit("AutoNumber"),
        LossyKind::NewNumber => reveal_strlit("NewNumber"),
        LossyKind::Footnote => reveal_strlit("Footnote"),
        LossyKind::Endnote => reveal_strlit("Endnote"),
        LossyKind::Hyperlink => reveal_strlit("Hyperlink"),
        LossyKind::Ruby => reveal_strlit("Ruby"),
        LossyKind::CharOverlap => reveal_strlit("CharOverlap"),
        LossyKind::HiddenComment => reveal_strlit("HiddenComment"),
        LossyKind::ColumnDef => reveal_strlit("ColumnDef"),
        LossyKind::Header => reveal_strlit("Header"),
        LossyKind::Footer => reveal_strlit("Footer"),
        LossyKind::Shape => reveal_strlit("Shape"),
        LossyKind::Unknown => reveal_strlit("Unknown"),
    }
}

/// Distinct kinds have distinct names: a name tells its kind.
pub proof fn lemma_kind_name_injective(a: LossyKind, b: LossyKind)
    requires
        kind_name(a) == kind_name(b),
    ensures
        a == b,
{
    lemma_name_key(a);
    lemma_name_key(b);
}

/// Body paragraphs and table cells go by the classification: a control that it calls
/// lossless, other than the section definition, is one they write; a control that it calls
/// lossy is one they drop, unless it is a drawing object (whose unwritten members are
/// dropped from inside it).
pub proof fn lemma_writers_agree_with_classification(c: Control)
    ensures
        lossy_kind(c) is None && !(c is SectionDef) ==> control_supported(c),
        lossy_kind(c) matches Some(k) ==> k == LossyKind::Shape || !control_supported(c),
{
}

/// A table cell never drops a control classified as lossless: what a cell writes for such a
/// control (other than the section definition) is a run around the control's XML.
pub proof fn lemma_cells_keep_lossless_controls(c: Control, id: u32)
    requires
        lossy_kind(c) is None,
        !(c is SectionDef),
    ensures
        control_run_out(c, id) == then(
            xml_only(run_open_xml(id)),
            then(cell_control_out(c), xml_only(end_tag_text("hp:run"@))),
        ),
{
    reveal_with_fuel(control_run_out, 1);
    reveal_with_fuel(cell_control_out, 1);
    reveal_with_fuel(super::table::table_out, 1);
}

/// The name of a control's variant.
pub open spec fn control_name(c: Control) -> Seq<char> {
    match c {
        Control::SectionDef(_) => "SectionDef"@,
        Control::ColumnDef(_) => "ColumnDef"@,
        Control::Table(_) => "Table"@,
        Control::Shape(_) => "Shape"@,
        Control::Picture(_) => "Picture"@,
        Control::Header(_) => "Header"@,
        Control::Footer(_) => "Footer"@,
        Control::Footnote(_) => "Footnote"@,
        Control::Endnote(_) => "Endnote"@,
        Control::AutoNumber(_) => "AutoNumber"@,
        Control::NewNumber(_) => "NewNumber"@,
        Control::PageNumberPos(_) => "PageNumberPos"@,
        Control::PageHide(_) => "PageHide"@,
        Control::Bookmark(_) => "Bookmark"@,
        Control::Hyperlink(_) => "Hyperlink"@,
        Control::Ruby(_) => "Ruby"@,
        Control::CharOverlap(_) => "CharOverlap"@,
        Control::HiddenComment(_) => "HiddenComment"@,
        Control::Equation(_) => "Equation"@,
        Control::Field(_) => "Field"@,
        Control::Form(_) => "Form"@,
        Control::Unknown(_) => "Unknown"@,
    }
}

/// A lost control is reported under the kind named after its own variant: a footnote as
/// `Footnote`, an endnote as `Endnote`, a header as `Header`, and so on.
pub proof fn lemma_lossy_kind_names_the_control(c: Control)
    ensures
        lossy_kind(c) matches Some(k) ==> kind_name(k) == control_name(c),
{
}

} // verus!

use vstd::prelude::*;

use super::image::Picture;

verus! {

#[derive(Debug, Clone, Copy, Default)]
pub enum TextWrap {
    #[default]
    Square,
    Tight,
    Through,
    TopAndBottom,
    BehindText,
    InFrontOfText,
}

#[derive(Debug, Clone, Copy, Default)]
pub enum VertRelTo {
    #[default]
    Paper,
    Page,
    Para,
}

#[derive(Debug, Clone, Copy, Default)]
pub enum HorzRelTo {
    #[default]
    Paper,
    Page,
    Column,
    Para,
}

#[derive(Debug, Clone, Copy, Default)]
pub enum VertAlign {
    #[default]
    Top,
    Center,
    Bottom,
    Inside,
    Outside,
}

#[derive(Debug, Clone, Copy, Default)]
pub enum HorzAlign {
    #[default]
    Left,
    Center,
    Right,
    Inside,
    Outside,
}

/// Attributes shared by drawing objects and tables.
#[derive(Debug, Clone, Copy, Default)]
pub struct CommonObjAttr {
    pub instance_id: u32,
    pub z_order: i32,
    pub text_wrap: TextWrap,
    pub width: u32,
    pub height: u32,
    pub treat_as_char: bool,
    pub vertical_offset: u32,
    pub horizontal_offset: u32,
    pub vert_rel_to: VertRelTo,
    pub horz_rel_to: HorzRelTo,
    pub vert_align: VertAlign,
    pub horz_align: HorzAlign,
}

/// A line. `xml` is its element as the drawing-object writer renders it.
#[derive(Debug, Clone, Default)]
pub struct LineShape {
    pub xml: String,
}

/// A rectangle. `xml` is its element as the drawing-object writer renders it.
#[derive(Debug, Clone, Default)]
pub struct RectangleShape {
    pub xml: String,
}

#[derive(Debug, Clone, Default)]
pub struct EllipseShape {}

#[derive(Debug, Clone, Default)]
pub struct ArcShape {}

#[derive(Debug, Clone, Default)]
pub struct PolygonShape {}

#[derive(Debug, Clone, Default)]
pub struct CurveShape {}

/// A group of drawing objects. `container_open` and `container_close` are the container's
/// opening and closing markup as the drawing-object writer renders it.
#[derive(Debug, Default)]
pub struct GroupShape {
    pub container_open: String,
    pub container_close: String,
    pub children: Vec<ShapeObject>,
}

#[derive(Debug)]
pub enum ShapeObject {
    Line(LineShape),
    Rectangle(RectangleShape),
    Ellipse(EllipseShape),
    Arc(ArcShape),
    Polygon(PolygonShape),
    Curve(CurveShape),
    Group(GroupShape),
    Picture(Box<Picture>),
}

} // verus!

use vstd::prelude::*;

use super::document::SectionDef;
use super::image::Picture;
use super::shape::ShapeObject;
use super::table::Table;

verus! {

/// Page hiding flags of a page.
#[derive(Debug, Clone, Copy, Default)]
pub struct PageHide {
    pub hide_header: bool,
    pub hide_footer: bool,
    pub hide_master_page: bool,
    pub hide_border: bool,
    pub hide_fill: bool,
    pub hide_page_num: bool,
}

/// Page number position control.
#[derive(Debug, Clone, Copy, Default)]
pub struct PageNumberPos {
    /// 0..=10, see the position table of the section serializer.
    pub position: u8,
    /// 0..=7, see the number format table of the section serializer.
    pub format: u8,
    /// Decoration character; `'\0'` means the default `-`.
    pub dash_char: char,
}

#[derive(Debug, Clone, Copy, Default)]
pub enum FormType {
    #[default]
    PushButton,
    CheckBox,
    ComboBox,
    RadioButton,
    Edit,
}

/// A form object (button, check box, radio button, combo box, edit box).
#[derive(Debug, Clone, Default)]
pub struct FormObject {
    pub form_type: FormType,
    pub name: String,
    /// 0x00BBGGRR, or 0xFFFFFFFF for none.
    pub fore_color: u32,
    pub back_color: u32,
    pub enabled: bool,
    pub value: i32,
    pub caption: String,
    pub text: String,
    pub width: u32,
    pub height: u32,
    /// Extra properties in document order (such as `listItem0`, `listItem1`, ...).
    pub properties: Vec<(String, String)>,
}

#[derive(Debug, Clone, Default)]
pub struct ColumnDef {}

#[derive(Debug, Clone, Default)]
pub struct Header {}

#[derive(Debug, Clone, Default)]
pub struct Footer {}

#[derive(Debug, Clone, Default)]
pub struct Footnote {}

#[derive(Debug, Clone, Default)]
pub struct Endnote {}

#[derive(Debug, Clone, Default)]
pub struct AutoNumber {}

#[derive(Debug, Clone, Default)]
pub struct NewNumber {}

#[derive(Debug, Clone, Default)]
pub struct Bookmark {}

#[derive(Debug, Clone, Default)]
pub struct Hyperlink {}

#[derive(Debug, Clone, Default)]
pub struct Ruby {}

#[derive(Debug, Clone, Default)]
pub struct CharOverlap {}

#[derive(Debug, Clone, Default)]
pub struct HiddenComment {}

#[derive(Debug, Clone, Default)]
pub struct Equation {}

#[derive(Debug, Clone, Default)]
pub struct Field {}

#[derive(Debug, Clone, Default)]
pub struct UnknownControl {}

/// An inline control of a paragraph.
#[derive(Debug)]
pub enum Control {
    SectionDef(Box<SectionDef>),
    ColumnDef(ColumnDef),
    Table(Box<Table>),
    Shape(Box<ShapeObject>),
    Picture(Box<Picture>),
    Header(Box<Header>),
    Footer(Box<Footer>),
    Footnote(Box<Footnote>),
    Endnote(Box<Endnote>),
    AutoNumber(AutoNumber),
    NewNumber(NewNumber),
    PageNumberPos(PageNumberPos),
    PageHide(PageHide),
    Bookmark(Bookmark),
    Hyperlink(Hyperlink),
    Ruby(Ruby),
    CharOverlap(CharOverlap),
    HiddenComment(Box<HiddenComment>),
    Equation(Box<Equation>),
    Field(Field),
    Form(Box<FormObject>),
    Unknown(UnknownControl),
}

} // verus!

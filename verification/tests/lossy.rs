use rhwp::model::control::{Bookmark, Control, Equation, Field, FormObject, PageHide, PageNumberPos};
use rhwp::model::image::Picture;
use rhwp::model::shape::{EllipseShape, GroupShape, LineShape, RectangleShape, ShapeObject};
use rhwp::model::table::Table;
use rhwp::serializer::hwpx::lossy::{classify_hwpx_lossy, shape_has_unemittable, LossyDrop, LossyKind};

#[test]
fn content_controls_classified_lossy() {
    assert_eq!(
        classify_hwpx_lossy(&Control::Field(Field::default())),
        Some(LossyKind::Field)
    );
    assert_eq!(
        classify_hwpx_lossy(&Control::Bookmark(Bookmark::default())),
        Some(LossyKind::Bookmark)
    );
    assert_eq!(
        classify_hwpx_lossy(&Control::Equation(Box::new(Equation::default()))),
        Some(LossyKind::Equation)
    );
}

#[test]
fn emit_six_classified_none() {
    assert_eq!(
        classify_hwpx_lossy(&Control::Table(Box::new(Table::default()))),
        None
    );
    assert_eq!(
        classify_hwpx_lossy(&Control::Picture(Box::new(Picture::default()))),
        None
    );
    assert_eq!(
        classify_hwpx_lossy(&Control::Shape(Box::new(ShapeObject::Line(
            LineShape::default()
        )))),
        None
    );
    assert_eq!(
        classify_hwpx_lossy(&Control::Shape(Box::new(ShapeObject::Rectangle(
            RectangleShape::default()
        )))),
        None
    );
}

#[test]
fn unsupported_shape_subtype_classified_lossy() {
    assert_eq!(
        classify_hwpx_lossy(&Control::Shape(Box::new(ShapeObject::Ellipse(
            EllipseShape::default()
        )))),
        Some(LossyKind::Shape)
    );
}

#[test]
fn group_with_unemittable_child_is_lossy() {
    let group = GroupShape {
        children: vec![
            ShapeObject::Line(LineShape::default()),
            ShapeObject::Ellipse(EllipseShape::default()),
        ],
        ..Default::default()
    };
    assert!(shape_has_unemittable(&ShapeObject::Group(group)));

    let safe_group = GroupShape {
        children: vec![
            ShapeObject::Line(LineShape::default()),
            ShapeObject::Rectangle(RectangleShape::default()),
        ],
        ..Default::default()
    };
    assert!(!shape_has_unemittable(&ShapeObject::Group(safe_group)));
}

#[test]
fn as_str_matches_variant_name() {
    assert_eq!(LossyKind::Field.as_str(), "Field");
    assert_eq!(LossyKind::Equation.as_str(), "Equation");
    assert_eq!(LossyKind::Shape.as_str(), "Shape");
    assert_eq!(LossyKind::Unknown.as_str(), "Unknown");
}

// ---- further cases ----

fn all_kinds() -> Vec<LossyKind> {
    vec![
        LossyKind::Field,
        LossyKind::Bookmark,
        LossyKind::Equation,
        LossyKind::AutoNumber,
        LossyKind::NewNumber,
        LossyKind::Footnote,
        LossyKind::Endnote,
        LossyKind::Hyperlink,
        LossyKind::Ruby,
        LossyKind::CharOverlap,
        LossyKind::HiddenComment,
        LossyKind::ColumnDef,
        LossyKind::Header,
        LossyKind::Footer,
        LossyKind::Shape,
        LossyKind::Unknown,
    ]
}

#[test]
fn kind_names_are_distinct_and_match_variants() {
    let kinds = all_kinds();
    for (i, a) in kinds.iter().enumerate() {
        assert_eq!(a.as_str(), format!("{:?}", a));
        for (j, b) in kinds.iter().enumerate() {
            assert_eq!(i == j, a.as_str() == b.as_str());
        }
    }
}

#[test]
fn page_controls_and_forms_and_section_definition_are_lossless() {
    assert_eq!(classify_hwpx_lossy(&Control::PageHide(PageHide::default())), None);
    assert_eq!(
        classify_hwpx_lossy(&Control::PageNumberPos(PageNumberPos::default())),
        None
    );
    assert_eq!(
        classify_hwpx_lossy(&Control::Form(Box::new(FormObject::default()))),
        None
    );
    assert_eq!(
        classify_hwpx_lossy(&Control::SectionDef(Box::new(Default::default()))),
        None
    );
}

#[test]
fn nested_group_with_deep_ellipse_is_lossy() {
    let inner = GroupShape {
        children: vec![ShapeObject::Ellipse(EllipseShape::default())],
        ..Default::default()
    };
    let outer = GroupShape {
        children: vec![
            ShapeObject::Line(LineShape::default()),
            ShapeObject::Group(inner),
        ],
        ..Default::default()
    };
    assert_eq!(
        classify_hwpx_lossy(&Control::Shape(Box::new(ShapeObject::Group(outer)))),
        Some(LossyKind::Shape)
    );
}

#[test]
fn header_footer_and_unknown_are_lossy() {
    assert_eq!(
        classify_hwpx_lossy(&Control::Header(Box::new(Default::default()))),
        Some(LossyKind::Header)
    );
    assert_eq!(
        classify_hwpx_lossy(&Control::Footer(Box::new(Default::default()))),
        Some(LossyKind::Footer)
    );
    assert_eq!(
        classify_hwpx_lossy(&Control::Unknown(Default::default())),
        Some(LossyKind::Unknown)
    );
    assert_eq!(
        classify_hwpx_lossy(&Control::ColumnDef(Default::default())),
        Some(LossyKind::ColumnDef)
    );
}

#[test]
fn lossy_drop_compares_by_fields() {
    let a = LossyDrop {
        kind: LossyKind::Ruby,
        section_index: 1,
        para_index: 2,
    };
    let b = a;
    assert_eq!(a, b);
    assert_ne!(
        a,
        LossyDrop {
            kind: LossyKind::Ruby,
            section_index: 1,
            para_index: 3
        }
    );
}

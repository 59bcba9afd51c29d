use rhwp::model::control::{Control, FormObject, PageHide, PageNumberPos};
use rhwp::model::document::{Document, Section};
use rhwp::model::image::Picture;
use rhwp::model::page::PageDef;
use rhwp::model::paragraph::{CharShapeRef, ColumnBreakType, LineSeg, Paragraph};
use rhwp::model::shape::{EllipseShape, GroupShape, LineShape, ShapeObject};
use rhwp::model::table::{Cell, Table};
use rhwp::serializer::hwpx::context::SerializeContext;
use rhwp::serializer::hwpx::lossy::classify_hwpx_lossy;
use rhwp::serializer::hwpx::section::{render_page_pr, write_section};

/// A copy of a paragraph without controls (the model types are not `Clone`).
fn copy_paragraph(p: &Paragraph) -> Paragraph {
    assert!(p.controls.is_empty());
    Paragraph {
        text: p.text.clone(),
        char_offsets: p.char_offsets.clone(),
        char_shapes: p.char_shapes.clone(),
        line_segs: p.line_segs.clone(),
        para_shape_id: p.para_shape_id,
        style_id: p.style_id,
        column_type: p.column_type,
        controls: Vec::new(),
    }
}

fn copy_section(s: &Section) -> Section {
    Section {
        section_def: s.section_def.clone(),
        paragraphs: s.paragraphs.iter().map(copy_paragraph).collect(),
    }
}

fn make_doc_with_paragraph(para: Paragraph) -> (Document, Section) {
    let mut section = Section::default();
    section.paragraphs.push(para);
    let mut doc = Document::default();
    doc.sections.push(copy_section(&section));
    (doc, section)
}

#[test]
fn render_page_pr_portrait_writes_raw_dims() {
    let pd = PageDef {
        width: 59528,
        height: 84186,
        margin_top: 2835,
        margin_bottom: 2835,
        margin_header: 4252,
        margin_footer: 4252,
        margin_left: 8504,
        margin_right: 8504,
        margin_gutter: 0,
        landscape: false,
        ..Default::default()
    };
    let xml = render_page_pr(&pd);
    assert!(xml.contains(r#"width="59528""#), "portrait width: {xml}");
    assert!(xml.contains(r#"height="84186""#), "portrait height: {xml}");
    assert!(xml.contains(r#"top="2835""#) && xml.contains(r#"gutter="0""#));
}

#[test]
fn render_page_pr_landscape_writes_effective_swapped_dims() {
    let pd = PageDef {
        width: 59528,
        height: 84186,
        landscape: true,
        ..Default::default()
    };
    let xml = render_page_pr(&pd);
    assert!(
        xml.contains(r#"width="84186""#),
        "landscape effective width(긴변): {xml}"
    );
    assert!(
        xml.contains(r#"height="59528""#),
        "landscape effective height(짧은변): {xml}"
    );
}

#[test]
fn hp_p_attrs_reflect_para_shape_id_and_style_id() {
    let mut para = Paragraph::default();
    para.para_shape_id = 7;
    para.style_id = 3;
    para.text = "hi".to_string();
    let (doc, section) = make_doc_with_paragraph(para);
    let mut ctx = SerializeContext::collect_from_document(&doc);
    let bytes = write_section(&section, &doc, 0, &mut ctx).unwrap();
    let xml = std::str::from_utf8(&bytes).unwrap();
    assert!(
        xml.contains(r#"paraPrIDRef="7""#),
        "<hp:p> must reflect para_shape_id=7: {}",
        &xml[..200.min(xml.len())]
    );
    assert!(
        xml.contains(r#"styleIDRef="3""#),
        "<hp:p> must reflect style_id=3"
    );
}

#[test]
fn hp_run_reflects_first_char_shape_id() {
    let mut para = Paragraph::default();
    para.text = "hello".to_string();
    para.char_shapes.push(CharShapeRef {
        start_pos: 0,
        char_shape_id: 42,
    });
    let (doc, section) = make_doc_with_paragraph(para);
    let mut ctx = SerializeContext::collect_from_document(&doc);
    let bytes = write_section(&section, &doc, 0, &mut ctx).unwrap();
    let xml = std::str::from_utf8(&bytes).unwrap();
    assert!(
        xml.contains(r#"<hp:run charPrIDRef="42"><hp:t>hello</hp:t>"#),
        "first run must use char_shape_id 42, xml excerpt around <hp:t>: {:?}",
        xml.find("<hp:t>")
            .map(|i| &xml[i.saturating_sub(50)..(i + 50).min(xml.len())])
    );
}

#[test]
fn page_break_paragraph_emits_attr() {
    let mut para = Paragraph::default();
    para.text = "p1".to_string();
    para.column_type = ColumnBreakType::Page;
    let (doc, section) = make_doc_with_paragraph(para);
    let mut ctx = SerializeContext::collect_from_document(&doc);
    let bytes = write_section(&section, &doc, 0, &mut ctx).unwrap();
    let xml = std::str::from_utf8(&bytes).unwrap();
    assert!(
        xml.contains(r#"pageBreak="1""#),
        "pageBreak must be 1 for Page column_type"
    );
    assert!(xml.contains(r#"columnBreak="0""#));
}

#[test]
fn default_paragraph_keeps_zero_attrs() {
    let mut para = Paragraph::default();
    para.text = "x".to_string();
    let (doc, section) = make_doc_with_paragraph(para);
    let mut ctx = SerializeContext::collect_from_document(&doc);
    let bytes = write_section(&section, &doc, 0, &mut ctx).unwrap();
    let xml = std::str::from_utf8(&bytes).unwrap();
    assert!(xml.contains(r#"paraPrIDRef="0""#));
    assert!(xml.contains(r#"styleIDRef="0""#));
    assert!(xml.contains(r#"<hp:run charPrIDRef="0">"#));
}

#[test]
fn additional_paragraphs_use_their_own_char_shape() {
    let mut p1 = Paragraph::default();
    p1.text = "first".to_string();
    p1.char_shapes.push(CharShapeRef {
        start_pos: 0,
        char_shape_id: 5,
    });
    let mut p2 = Paragraph::default();
    p2.text = "second".to_string();
    p2.para_shape_id = 2;
    p2.char_shapes.push(CharShapeRef {
        start_pos: 0,
        char_shape_id: 6,
    });
    let mut section = Section::default();
    section.paragraphs.push(p1);
    section.paragraphs.push(p2);
    let mut doc = Document::default();
    doc.sections.push(copy_section(&section));
    let mut ctx = SerializeContext::collect_from_document(&doc);
    let xml = String::from_utf8(write_section(&section, &doc, 0, &mut ctx).unwrap()).unwrap();
    assert!(xml.contains(r#"paraPrIDRef="2""#));
    assert!(
        xml.matches(r#"charPrIDRef="6""#).count() >= 1,
        "second paragraph must emit charPrIDRef=6"
    );
}

#[test]
fn task177_lineseg_reflects_ir_values() {
    let mut para = Paragraph::default();
    para.text = "hello".to_string();
    para.line_segs.push(LineSeg {
        text_start: 0,
        vertical_pos: 5000,
        line_height: 1200,
        text_height: 1100,
        baseline_distance: 900,
        line_spacing: 700,
        column_start: 100,
        segment_width: 50000,
        tag: 999,
    });
    let (doc, section) = make_doc_with_paragraph(para);
    let mut ctx = SerializeContext::collect_from_document(&doc);
    let xml = String::from_utf8(write_section(&section, &doc, 0, &mut ctx).unwrap()).unwrap();
    assert!(xml.contains(r#"<hp:lineseg textpos="0" vertpos="5000" vertsize="1200" textheight="1100" baseline="900" spacing="700" horzpos="100" horzsize="50000" flags="999"/>"#),
        "lineseg must reflect IR values exactly, got XML: {}",
        &xml[xml.find("<hp:lineseg").unwrap_or(0)..(xml.find("<hp:lineseg").unwrap_or(0) + 200).min(xml.len())]);
}

#[test]
fn task177_multiple_linesegs_preserved_in_order() {
    let mut para = Paragraph::default();
    para.text = "three\nlines\nhere".to_string();
    for (i, (tp, vp, lh)) in [(0u32, 0i32, 1000), (6, 1500, 1200), (12, 3100, 1100)]
        .iter()
        .enumerate()
    {
        let _ = i;
        para.line_segs.push(LineSeg {
            text_start: *tp,
            vertical_pos: *vp,
            line_height: *lh,
            text_height: *lh,
            baseline_distance: 850,
            line_spacing: 600,
            column_start: 0,
            segment_width: 42520,
            tag: 393216,
        });
    }
    let (doc, section) = make_doc_with_paragraph(para);
    let mut ctx = SerializeContext::collect_from_document(&doc);
    let xml = String::from_utf8(write_section(&section, &doc, 0, &mut ctx).unwrap()).unwrap();
    assert_eq!(xml.matches("<hp:lineseg ").count(), 3);
    assert!(xml.contains(r#"textpos="0" vertpos="0" vertsize="1000""#));
    assert!(xml.contains(r#"textpos="6" vertpos="1500" vertsize="1200""#));
    assert!(xml.contains(r#"textpos="12" vertpos="3100" vertsize="1100""#));
}

#[test]
fn task177_fallback_used_when_ir_empty() {
    let mut para = Paragraph::default();
    para.text = "a\nb".to_string();
    let (doc, section) = make_doc_with_paragraph(para);
    let mut ctx = SerializeContext::collect_from_document(&doc);
    let xml = String::from_utf8(write_section(&section, &doc, 0, &mut ctx).unwrap()).unwrap();
    assert!(xml.contains(r#"vertsize="1000""#));
    assert!(xml.contains(r#"baseline="850""#));
}

#[test]
fn task177_ir_lineseg_takes_precedence_over_text() {
    let mut para = Paragraph::default();
    para.text = "a\nb\nc".to_string();
    para.line_segs.push(LineSeg {
        text_start: 0,
        vertical_pos: 0,
        line_height: 2000,
        text_height: 2000,
        baseline_distance: 1700,
        line_spacing: 300,
        column_start: 0,
        segment_width: 40000,
        tag: 0,
    });
    let (doc, section) = make_doc_with_paragraph(para);
    let mut ctx = SerializeContext::collect_from_document(&doc);
    let xml = String::from_utf8(write_section(&section, &doc, 0, &mut ctx).unwrap()).unwrap();
    assert_eq!(xml.matches("<hp:lineseg ").count(), 1);
    assert!(
        xml.contains(r#"vertsize="2000""#),
        "IR value 2000 must be used, not fallback 1000"
    );
}

// ---- further cases ----

fn section_xml(section: &Section) -> (String, SerializeContext) {
    let doc = Document::default();
    let mut ctx = SerializeContext::collect_from_document(&doc);
    let bytes = write_section(section, &doc, 0, &mut ctx).unwrap();
    (String::from_utf8(bytes).unwrap(), ctx)
}

fn section_of(paras: Vec<Paragraph>) -> Section {
    let mut section = Section::default();
    section.paragraphs = paras;
    section
}

fn para_with(text: &str, controls: Vec<Control>) -> Paragraph {
    let mut p = Paragraph::default();
    p.text = text.to_string();
    p.controls = controls;
    p
}

#[test]
fn empty_section_keeps_template_paragraph() {
    let (xml, _) = section_xml(&Section::default());
    assert!(xml.starts_with(r#"<?xml version="1.0" encoding="UTF-8" standalone="yes" ?><hs:sec "#));
    assert!(xml.contains(r#"<hp:p id="3121190098" paraPrIDRef="0" styleIDRef="0" pageBreak="0" columnBreak="0" merged="0">"#));
    assert!(xml.contains(r#"<hp:run charPrIDRef="0"><hp:t></hp:t></hp:run><hp:linesegarray><hp:lineseg textpos="0" vertpos="0" vertsize="1000" textheight="1000" baseline="850" spacing="600" horzpos="0" horzsize="42520" flags="393216"/></hp:linesegarray></hp:p></hs:sec>"#));
    assert!(xml.ends_with("</hs:sec>"));
    // the model's page, even without a size
    assert!(xml.contains(r#"<hp:pagePr landscape="WIDELY" width="0" height="0" gutterType="LEFT_ONLY"><hp:margin header="0" footer="0" gutter="0" left="0" right="0" top="0" bottom="0"/></hp:pagePr>"#));
}

#[test]
fn page_def_replaces_template_page_size() {
    let mut section = section_of(vec![para_with("x", vec![])]);
    section.section_def.page_def = PageDef {
        width: 100,
        height: 200,
        margin_left: 1,
        margin_right: 2,
        margin_top: 3,
        margin_bottom: 4,
        margin_header: 5,
        margin_footer: 6,
        margin_gutter: 7,
        landscape: false,
    };
    let (xml, _) = section_xml(&section);
    assert!(xml.contains(r#"<hp:pagePr landscape="WIDELY" width="100" height="200" gutterType="LEFT_ONLY"><hp:margin header="5" footer="6" gutter="7" left="1" right="2" top="3" bottom="4"/></hp:pagePr>"#));
    assert!(!xml.contains(r#"top="5668""#));
}

#[test]
fn landscape_page_is_written_as_swapped_portrait() {
    let landscape = PageDef {
        width: 10,
        height: 20,
        margin_top: 9,
        landscape: true,
        ..Default::default()
    };
    let portrait = PageDef {
        width: 20,
        height: 10,
        margin_top: 9,
        landscape: false,
        ..Default::default()
    };
    assert_eq!(render_page_pr(&landscape), render_page_pr(&portrait));
}

#[test]
fn first_paragraph_is_written_in_template_order() {
    let mut p = para_with("hi", vec![]);
    p.para_shape_id = 4;
    p.style_id = 2;
    p.column_type = ColumnBreakType::Column;
    let (xml, _) = section_xml(&section_of(vec![p]));
    let p_tag = r#"<hp:p id="0" paraPrIDRef="4" styleIDRef="2" pageBreak="0" columnBreak="1" merged="0"><hp:run charPrIDRef="0"><hp:secPr "#;
    assert!(xml.contains(p_tag), "{}", xml);
    assert!(xml.contains(r#"</hp:ctrl></hp:run><hp:run charPrIDRef="0"><hp:t>hi</hp:t></hp:run><hp:linesegarray>"#));
}

#[test]
fn body_text_tabs_breaks_and_escapes() {
    let (xml, _) = section_xml(&section_of(vec![para_with("a\tb\nc<&\u{1}d", vec![])]));
    assert!(xml.contains(r#"<hp:t>a<hp:tab width="4000" leader="0" type="1"/>b<hp:lineBreak/>c&lt;&amp;d</hp:t>"#), "{}", xml);
    assert!(!xml.contains('\u{1}'));
}

#[test]
fn paragraphs_go_down_with_placeholder_segments() {
    // first paragraph: two lines (1600 each), so the second starts at 3200
    let (xml, _) = section_xml(&section_of(vec![para_with("a\nb", vec![]), para_with("c", vec![])]));
    assert!(xml.contains(r#"<hp:lineseg textpos="0" vertpos="0" "#));
    assert!(xml.contains(r#"<hp:lineseg textpos="2" vertpos="1600" "#));
    assert!(xml.contains(r#"<hp:lineseg textpos="0" vertpos="3200" "#));
    assert!(xml.contains(r#"<hp:p id="1" "#));
}

#[test]
fn next_paragraph_starts_below_model_segments() {
    let mut p1 = para_with("a", vec![]);
    p1.line_segs.push(LineSeg {
        vertical_pos: 5000,
        line_height: 700,
        ..Default::default()
    });
    let (xml, _) = section_xml(&section_of(vec![p1, para_with("b", vec![])]));
    assert!(xml.contains(r#"<hp:lineseg textpos="0" vertpos="5700" "#), "{}", xml);
}

#[test]
fn model_segment_above_start_moves_one_step() {
    let mut p2 = para_with("b", vec![]);
    p2.line_segs.push(LineSeg {
        vertical_pos: 0,
        line_height: -5,
        ..Default::default()
    });
    // p1 ends at 1600; p2's segment ends at 0, not below 1600: p3 starts at 3200
    let (xml, _) = section_xml(&section_of(vec![
        para_with("a", vec![]),
        p2,
        para_with("c", vec![]),
    ]));
    assert!(xml.contains(r#"vertsize="-5""#));
    assert!(xml.contains(r#"<hp:lineseg textpos="0" vertpos="3200" "#), "{}", xml);
}

#[test]
fn page_hide_control_is_written_in_its_own_run() {
    let ph = PageHide {
        hide_header: true,
        hide_page_num: true,
        ..Default::default()
    };
    let mut p = para_with("x", vec![Control::PageHide(ph)]);
    p.char_shapes.push(CharShapeRef {
        start_pos: 0,
        char_shape_id: 3,
    });
    let (xml, _) = section_xml(&section_of(vec![p]));
    assert!(xml.contains(r#"<hp:t>x</hp:t></hp:run><hp:run charPrIDRef="3"><hp:ctrl><hp:pageHiding hideHeader="1" hideFooter="0" hideMasterPage="0" hideBorder="0" hideFill="0" hidePageNum="1"/></hp:ctrl></hp:run><hp:linesegarray>"#), "{}", xml);
}

#[test]
fn page_number_position_uses_names_and_default_side_char() {
    let pn = PageNumberPos {
        position: 5,
        format: 1,
        dash_char: '\0',
    };
    let (xml, _) = section_xml(&section_of(vec![para_with("", vec![Control::PageNumberPos(pn)])]));
    assert!(xml.contains(r#"<hp:ctrl><hp:pageNum pos="BOTTOM_CENTER" formatType="CIRCLE_DIGIT" sideChar="-"/></hp:ctrl>"#), "{}", xml);
    let pn2 = PageNumberPos {
        position: 42,
        format: 99,
        dash_char: '*',
    };
    let (xml2, _) = section_xml(&section_of(vec![para_with("", vec![Control::PageNumberPos(pn2)])]));
    assert!(xml2.contains(r#"<hp:pageNum pos="BOTTOM_CENTER" formatType="DIGIT" sideChar="*"/>"#), "{}", xml2);
}

#[test]
fn picture_and_line_markup_are_placed_verbatim() {
    let pic = Picture {
        xml: "<hp:pic id=\"9\"/>".to_string(),
    };
    let line = ShapeObject::Line(LineShape {
        xml: "<hp:line/>".to_string(),
    });
    let p = para_with(
        "",
        vec![Control::Picture(Box::new(pic)), Control::Shape(Box::new(line))],
    );
    let (xml, _) = section_xml(&section_of(vec![p]));
    assert!(xml.contains(r#"<hp:run charPrIDRef="0"><hp:pic id="9"/></hp:run><hp:run charPrIDRef="0"><hp:line/></hp:run><hp:linesegarray>"#), "{}", xml);
}

#[test]
fn unwritten_controls_leave_no_run() {
    let p = para_with(
        "z",
        vec![
            Control::Shape(Box::new(ShapeObject::Ellipse(EllipseShape::default()))),
            Control::Bookmark(Default::default()),
        ],
    );
    let (xml, _) = section_xml(&section_of(vec![p]));
    assert!(xml.contains(r#"<hp:t>z</hp:t></hp:run><hp:linesegarray>"#), "{}", xml);
}

#[test]
fn group_writes_container_around_written_members() {
    let group = GroupShape {
        container_open: "<hp:container>".to_string(),
        container_close: "</hp:container>".to_string(),
        children: vec![
            ShapeObject::Line(LineShape {
                xml: "<hp:line/>".to_string(),
            }),
            ShapeObject::Ellipse(EllipseShape::default()),
        ],
    };
    let p = para_with("", vec![Control::Shape(Box::new(ShapeObject::Group(group)))]);
    let (xml, _) = section_xml(&section_of(vec![p]));
    assert!(xml.contains(r#"<hp:run charPrIDRef="0"><hp:container><hp:line/></hp:container></hp:run>"#), "{}", xml);
}

#[test]
fn table_in_body_paragraph_is_written_and_recorded() {
    let mut t = Table::default();
    t.row_count = 1;
    t.col_count = 1;
    t.border_fill_id = 7;
    let mut cell = Cell::default();
    cell.col_span = 1;
    cell.row_span = 1;
    cell.border_fill_id = 8;
    cell.paragraphs.push(Paragraph::default());
    t.cells.push(cell);
    let p = para_with("", vec![Control::Table(Box::new(t))]);
    let (xml, ctx) = section_xml(&section_of(vec![p]));
    assert!(xml.contains(r#"</hp:run><hp:run charPrIDRef="0"><hp:tbl id="0" "#), "{}", xml);
    assert!(xml.contains("</hp:tbl></hp:run><hp:linesegarray>"));
    assert_eq!(ctx.border_fill_ids.referenced, vec![7u16, 8u16]);
    assert_eq!(ctx.border_fill_ids.unresolved(), vec![7u16, 8u16]);
}

#[test]
fn controls_classified_lossless_are_written_by_the_body() {
    let make = || -> Vec<Control> {
        vec![
            Control::PageHide(PageHide::default()),
            Control::PageNumberPos(PageNumberPos::default()),
            Control::Form(Box::new(FormObject::default())),
            Control::Picture(Box::new(Picture {
                xml: "<hp:pic/>".to_string(),
            })),
            Control::Shape(Box::new(ShapeObject::Line(LineShape {
                xml: "<hp:line/>".to_string(),
            }))),
            Control::Bookmark(Default::default()),
            Control::Shape(Box::new(ShapeObject::Ellipse(EllipseShape::default()))),
        ]
    };
    let controls = make();
    let lossless = controls
        .iter()
        .filter(|c| classify_hwpx_lossy(c).is_none())
        .count();
    assert_eq!(lossless, 5);
    let (xml, _) = section_xml(&section_of(vec![para_with("", make())]));
    // one run for the text, one for each lossless control, and the section properties run
    assert_eq!(xml.matches("<hp:run ").count(), 2 + lossless);
}

#[test]
fn zero_size_page_keeps_its_margins() {
    let mut section = section_of(vec![para_with("x", vec![])]);
    section.section_def.page_def = PageDef {
        margin_left: 11,
        margin_top: 22,
        margin_header: 33,
        ..Default::default()
    };
    let (xml, _) = section_xml(&section);
    assert!(xml.contains(r#"<hp:pagePr landscape="WIDELY" width="0" height="0" gutterType="LEFT_ONLY"><hp:margin header="33" footer="0" gutter="0" left="11" right="0" top="22" bottom="0"/></hp:pagePr>"#), "{}", xml);
}

#[test]
fn body_text_is_split_into_character_shape_runs() {
    let mut p = para_with("ab", vec![]);
    p.char_offsets = vec![0, 1];
    p.char_shapes = vec![
        CharShapeRef {
            start_pos: 0,
            char_shape_id: 5,
        },
        CharShapeRef {
            start_pos: 1,
            char_shape_id: 9,
        },
    ];
    let (xml, _) = section_xml(&section_of(vec![p]));
    assert!(xml.contains(r#"<hp:run charPrIDRef="5"><hp:t>a</hp:t></hp:run><hp:run charPrIDRef="9"><hp:t>b</hp:t></hp:run><hp:linesegarray>"#), "{}", xml);
}

#[test]
fn trailing_character_shapes_become_empty_runs() {
    let mut p = para_with("a\tb", vec![]);
    p.char_shapes = vec![
        CharShapeRef {
            start_pos: 0,
            char_shape_id: 5,
        },
        CharShapeRef {
            start_pos: 10,
            char_shape_id: 9,
        },
    ];
    // 'a' at 0, tab at 1..9, 'b' at 9: the text ends at 10
    let (xml, _) = section_xml(&section_of(vec![p]));
    assert!(xml.contains(r#"<hp:run charPrIDRef="5"><hp:t>a<hp:tab width="4000" leader="0" type="1"/>b</hp:t></hp:run><hp:run charPrIDRef="9"/><hp:linesegarray>"#), "{}", xml);

    // with a control, trailing shapes are not written as runs
    let mut q = para_with("ab", vec![Control::PageHide(PageHide::default())]);
    q.char_shapes = vec![
        CharShapeRef {
            start_pos: 0,
            char_shape_id: 5,
        },
        CharShapeRef {
            start_pos: 2,
            char_shape_id: 9,
        },
    ];
    let (xml2, _) = section_xml(&section_of(vec![q]));
    assert!(!xml2.contains(r#"<hp:run charPrIDRef="9"/>"#), "{}", xml2);
}

#[test]
fn section_fits_tells_when_positions_overflow() {
    assert!(rhwp::serializer::hwpx::section::section_fits(&Section::default()));
    assert!(rhwp::serializer::hwpx::section::section_fits(&section_of(vec![para_with("ab", vec![]), para_with("c", vec![])])));

    // a character whose end passes u32::MAX
    let mut p = para_with("a", vec![]);
    p.char_offsets = vec![u32::MAX];
    assert!(!rhwp::serializer::hwpx::section::section_fits(&section_of(vec![p])));

    // a paragraph that ends at 2^32 - 2, then a placeholder line one step further
    let mut high = para_with("x", vec![]);
    high.line_segs.push(LineSeg {
        vertical_pos: i32::MAX,
        line_height: i32::MAX,
        ..Default::default()
    });
    assert!(rhwp::serializer::hwpx::section::section_fits(&section_of(vec![high])));
    let mut high2 = para_with("x", vec![]);
    high2.line_segs.push(LineSeg {
        vertical_pos: i32::MAX,
        line_height: i32::MAX,
        ..Default::default()
    });
    assert!(!rhwp::serializer::hwpx::section::section_fits(&section_of(vec![high2, para_with("y", vec![])])));

    // a table in the body whose cell text overflows
    let mut t = Table::default();
    t.row_count = 1;
    let mut cell = Cell::default();
    let mut cp = Paragraph::default();
    cp.text = "z".to_string();
    cp.char_offsets = vec![u32::MAX];
    cell.paragraphs.push(cp);
    t.cells.push(cell);
    assert!(!rhwp::serializer::hwpx::section::section_fits(&section_of(vec![para_with("", vec![Control::Table(Box::new(t))])])));
}

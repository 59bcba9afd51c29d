use quick_xml::Writer;
use rhwp::model::control::{Control, FormObject, FormType, PageHide};
use rhwp::model::document::Document;
use rhwp::model::paragraph::{CharShapeRef, LineSeg, Paragraph};
use rhwp::model::shape::{GroupShape, ShapeObject};
use rhwp::model::table::{Cell, Table};
use rhwp::serializer::hwpx::context::SerializeContext;
use rhwp::serializer::hwpx::table::write_table;

fn empty_table(rows: u16, cols: u16) -> Table {
    let mut t = Table::default();
    t.row_count = rows;
    t.col_count = cols;
    for r in 0..rows {
        for c in 0..cols {
            let mut cell = Cell::default();
            cell.col = c;
            cell.row = r;
            cell.col_span = 1;
            cell.row_span = 1;
            cell.width = 1000;
            cell.height = 300;
            cell.paragraphs.push(Paragraph::default());
            t.cells.push(cell);
        }
    }
    t
}

fn serialize(table: &Table) -> String {
    let doc = Document::default();
    let mut ctx = SerializeContext::collect_from_document(&doc);
    let mut w: Writer<Vec<u8>> = Writer::new(Vec::new());
    write_table(&mut w, table, &mut ctx).expect("write_table");
    String::from_utf8(w.into_inner()).unwrap()
}

#[test]
fn tbl_root_attrs_in_canonical_order() {
    let t = empty_table(2, 3);
    let xml = serialize(&t);
    assert!(xml.contains("<hp:tbl "), "should emit <hp:tbl>: {}", xml);
    let ip = xml.find("id=").unwrap();
    let zp = xml.find("zOrder=").unwrap();
    let nt = xml.find("numberingType=").unwrap();
    let tw = xml.find("textWrap=").unwrap();
    let tf = xml.find("textFlow=").unwrap();
    let rc = xml.find("rowCnt=").unwrap();
    let cc = xml.find("colCnt=").unwrap();
    let bf = xml.find("borderFillIDRef=").unwrap();
    let na = xml.find("noAdjust=").unwrap();
    assert!(
        ip < zp && zp < nt && nt < tw && tw < tf && tf < rc && rc < cc && cc < bf && bf < na
    );
}

#[test]
fn tr_count_matches_row_count() {
    let t = empty_table(4, 2);
    let xml = serialize(&t);
    assert_eq!(xml.matches("<hp:tr>").count(), 4);
}

#[test]
fn tc_count_matches_cell_count() {
    let t = empty_table(2, 3);
    let xml = serialize(&t);
    assert_eq!(xml.matches("<hp:tc ").count(), 6);
}

#[test]
fn cells_have_canonical_child_order() {
    let t = empty_table(1, 1);
    let xml = serialize(&t);
    let sl = xml.find("<hp:subList ").unwrap();
    let ca = xml.find("<hp:cellAddr ").unwrap();
    let cs = xml.find("<hp:cellSpan ").unwrap();
    let cz = xml.find("<hp:cellSz ").unwrap();
    let cm = xml.find("<hp:cellMargin ").unwrap();
    assert!(sl < ca && ca < cs && cs < cz && cz < cm);
}

#[test]
fn cell_addr_reflects_coordinates() {
    let t = empty_table(2, 2);
    let xml = serialize(&t);
    assert!(xml.contains(r#"<hp:cellAddr colAddr="0" rowAddr="0"/>"#));
    assert!(xml.contains(r#"<hp:cellAddr colAddr="1" rowAddr="0"/>"#));
    assert!(xml.contains(r#"<hp:cellAddr colAddr="0" rowAddr="1"/>"#));
    assert!(xml.contains(r#"<hp:cellAddr colAddr="1" rowAddr="1"/>"#));
}

#[test]
fn cell_span_defaults_to_one() {
    let t = empty_table(1, 1);
    let xml = serialize(&t);
    assert!(xml.contains(r#"<hp:cellSpan colSpan="1" rowSpan="1"/>"#));
}

#[test]
fn border_fill_id_ref_registered_in_ctx() {
    let doc = Document::default();
    let mut ctx = SerializeContext::collect_from_document(&doc);
    let mut t = empty_table(1, 1);
    t.border_fill_id = 99;
    t.cells[0].border_fill_id = 99;
    let mut w: Writer<Vec<u8>> = Writer::new(Vec::new());
    write_table(&mut w, &t, &mut ctx).unwrap();
    assert!(ctx.border_fill_ids.unresolved().contains(&99u16));
}

#[test]
fn cell_paragraph_linesegs_are_preserved() {
    let mut t = empty_table(1, 1);
    t.cells[0].paragraphs[0].text = "긴 셀 문단".to_string();
    t.cells[0].paragraphs[0].line_segs = vec![
        LineSeg {
            text_start: 0,
            vertical_pos: 123,
            line_height: 1400,
            text_height: 1100,
            baseline_distance: 900,
            line_spacing: 300,
            column_start: 77,
            segment_width: 8888,
            tag: 111,
        },
        LineSeg {
            text_start: 6,
            vertical_pos: 1523,
            line_height: 1300,
            text_height: 1000,
            baseline_distance: 820,
            line_spacing: 250,
            column_start: 99,
            segment_width: 7777,
            tag: 222,
        },
    ];

    let xml = serialize(&t);
    assert_eq!(xml.matches("<hp:lineseg ").count(), 2, "{}", xml);
    assert!(
        xml.contains(
            r#"<hp:lineseg textpos="0" vertpos="123" vertsize="1400" textheight="1100" baseline="900" spacing="300" horzpos="77" horzsize="8888" flags="111"/>"#
        ),
        "{}",
        xml,
    );
    assert!(
        xml.contains(
            r#"<hp:lineseg textpos="6" vertpos="1523" vertsize="1300" textheight="1000" baseline="820" spacing="250" horzpos="99" horzsize="7777" flags="222"/>"#
        ),
        "{}",
        xml,
    );
}

#[test]
fn cell_paragraph_char_shape_runs_are_preserved() {
    let mut t = empty_table(1, 1);
    t.cells[0].paragraphs[0].text = "가나다ABC".to_string();
    t.cells[0].paragraphs[0].char_offsets = vec![0, 1, 2, 3, 4, 5];
    t.cells[0].paragraphs[0].char_shapes = vec![
        CharShapeRef {
            start_pos: 0,
            char_shape_id: 28,
        },
        CharShapeRef {
            start_pos: 3,
            char_shape_id: 39,
        },
    ];

    let xml = serialize(&t);
    assert!(
        xml.contains(
            r#"<hp:run charPrIDRef="28"><hp:t>가나다</hp:t></hp:run><hp:run charPrIDRef="39"><hp:t>ABC</hp:t></hp:run>"#
        ),
        "{}",
        xml,
    );
}

#[test]
fn cell_text_control_chars_are_sanitized_for_xml() {
    let mut t = empty_table(1, 1);
    t.cells[0].paragraphs[0].text = "(\u{3}정부24\u{4})\t끝".to_string();

    let xml = serialize(&t);
    assert!(!xml.contains('\u{3}'), "U+0003 제거: {}", xml);
    assert!(!xml.contains('\u{4}'), "U+0004 제거: {}", xml);
    assert!(xml.contains("(정부24)\t끝"), "본문/탭 보존: {}", xml);
}

#[test]
fn cell_trailing_zero_length_char_run_is_preserved() {
    let mut t = empty_table(1, 1);
    t.cells[0].paragraphs[0].text = "ab".to_string();
    t.cells[0].paragraphs[0].char_offsets = vec![0, 1];
    t.cells[0].paragraphs[0].char_shapes = vec![
        CharShapeRef {
            start_pos: 0,
            char_shape_id: 5,
        },
        CharShapeRef {
            start_pos: 2,
            char_shape_id: 9,
        },
    ];

    let xml = serialize(&t);
    assert!(
        xml.contains(
            r#"<hp:run charPrIDRef="5"><hp:t>ab</hp:t></hp:run><hp:run charPrIDRef="9"/>"#
        ),
        "trailing zero-length run 보존: {}",
        xml,
    );
}

// ---- further cases ----

#[test]
fn cells_of_a_row_are_written_by_column() {
    let mut t = Table::default();
    t.row_count = 1;
    t.col_count = 3;
    for c in [2u16, 0, 1] {
        let mut cell = Cell::default();
        cell.col = c;
        cell.col_span = 1;
        cell.row_span = 1;
        cell.paragraphs.push(Paragraph::default());
        t.cells.push(cell);
    }
    let xml = serialize(&t);
    let a0 = xml.find(r#"colAddr="0""#).unwrap();
    let a1 = xml.find(r#"colAddr="1""#).unwrap();
    let a2 = xml.find(r#"colAddr="2""#).unwrap();
    assert!(a0 < a1 && a1 < a2);
}

#[test]
fn cells_outside_the_rows_are_not_written() {
    let mut t = empty_table(1, 1);
    let mut stray = Cell::default();
    stray.row = 5;
    stray.col_span = 1;
    stray.row_span = 1;
    t.cells.push(stray);
    let xml = serialize(&t);
    assert_eq!(xml.matches("<hp:tc ").count(), 1);
}

#[test]
fn zero_span_is_written_as_one() {
    let mut t = empty_table(1, 1);
    t.cells[0].col_span = 0;
    t.cells[0].row_span = 3;
    let xml = serialize(&t);
    assert!(xml.contains(r#"<hp:cellSpan colSpan="1" rowSpan="3"/>"#), "{}", xml);
}

#[test]
fn cell_records_paragraph_and_character_shapes() {
    let doc = Document::default();
    let mut ctx = SerializeContext::collect_from_document(&doc);
    let mut t = empty_table(1, 1);
    t.cells[0].paragraphs[0].para_shape_id = 4;
    t.cells[0].paragraphs[0].style_id = 2;
    t.cells[0].paragraphs[0].char_shapes = vec![CharShapeRef {
        start_pos: 0,
        char_shape_id: 11,
    }];
    let mut w: Writer<Vec<u8>> = Writer::new(Vec::new());
    write_table(&mut w, &t, &mut ctx).unwrap();
    assert_eq!(ctx.para_shape_ids.referenced, vec![4u16]);
    assert_eq!(ctx.style_ids.referenced, vec![2u16]);
    assert_eq!(ctx.char_shape_ids.referenced, vec![11u32]);
    assert_eq!(ctx.border_fill_ids.referenced, vec![0u16, 0u16]);
}

#[test]
fn page_hide_and_form_in_a_cell_are_written() {
    let mut t = empty_table(1, 1);
    let form = FormObject {
        form_type: FormType::CheckBox,
        name: "c".to_string(),
        fore_color: 0xFFFF_FFFF,
        back_color: 0x00_33_22_11,
        enabled: true,
        value: 1,
        caption: "ok".to_string(),
        ..Default::default()
    };
    t.cells[0].paragraphs[0].controls = vec![
        Control::PageHide(PageHide::default()),
        Control::Form(Box::new(form)),
    ];
    let xml = serialize(&t);
    assert!(xml.contains(r#"<hp:run charPrIDRef="0"><hp:ctrl><hp:pageHiding hideHeader="0" hideFooter="0" hideMasterPage="0" hideBorder="0" hideFill="0" hidePageNum="0"/></hp:ctrl></hp:run>"#), "{}", xml);
    assert!(xml.contains(r##"<hp:run charPrIDRef="0"><hp:checkBtn name="c" foreColor="none" backColor="#112233" enabled="1" caption="ok" value="CHECKED"></hp:checkBtn></hp:run>"##), "{}", xml);
}

#[test]
fn empty_group_in_a_cell_keeps_its_container() {
    let mut t = empty_table(1, 1);
    let group = GroupShape {
        container_open: "<hp:container>".to_string(),
        container_close: "</hp:container>".to_string(),
        children: vec![],
    };
    t.cells[0].paragraphs[0].controls = vec![Control::Shape(Box::new(ShapeObject::Group(group)))];
    let xml = serialize(&t);
    assert!(xml.contains(r#"<hp:run charPrIDRef="0"><hp:container></hp:container></hp:run>"#), "{}", xml);
}

#[test]
fn table_fits_tells_when_cell_positions_overflow() {
    let t = empty_table(2, 2);
    assert!(rhwp::serializer::hwpx::table::table_fits(&t));
    let mut bad = empty_table(1, 1);
    bad.cells[0].paragraphs[0].text = "ab".to_string();
    bad.cells[0].paragraphs[0].char_offsets = vec![0, u32::MAX];
    assert!(!rhwp::serializer::hwpx::table::table_fits(&bad));
    // a cell outside the rows is not written, so its positions do not matter
    let mut stray = empty_table(1, 1);
    let mut cell = Cell::default();
    cell.row = 3;
    let mut p = Paragraph::default();
    p.text = "q".to_string();
    p.char_offsets = vec![u32::MAX];
    cell.paragraphs.push(p);
    stray.cells.push(cell);
    assert!(rhwp::serializer::hwpx::table::table_fits(&stray));
}

use quick_xml::Writer;
use rhwp::model::control::{FormObject, FormType};
use rhwp::model::paragraph::CharShapeRef;
use rhwp::serializer::hwpx::context::{IdRegistry, IdRegistry32, SerializeContext};
use rhwp::model::document::Document;
use rhwp::serializer::hwpx::form::write_form;
use rhwp::serializer::hwpx::utils::{
    active_char_shape_id, char_utf16_len, empty_tag, end_tag, first_char_shape_id,
    split_char_shape_runs, start_tag, start_tag_attrs, text, trailing_zero_length_refs,
    write_markup, write_xml_decl, xml_escape,
};

fn written(f: impl FnOnce(&mut Writer<Vec<u8>>)) -> String {
    let mut w: Writer<Vec<u8>> = Writer::new(Vec::new());
    f(&mut w);
    String::from_utf8(w.into_inner()).unwrap()
}

#[test]
fn xml_escape_replaces_the_five_markup_characters() {
    assert_eq!(
        xml_escape("a<b>&\"'z"),
        "a&lt;b&gt;&amp;&quot;&apos;z"
    );
    assert_eq!(xml_escape("가나"), "가나");
    assert_eq!(xml_escape(""), "");
}

#[test]
fn escaped_text_holds_no_markup_character() {
    let e = xml_escape("<<>>\"'&&");
    assert!(!e.contains('<') && !e.contains('>') && !e.contains('"') && !e.contains('\''));
}

#[test]
fn writer_helpers_write_their_events() {
    assert_eq!(
        written(|w| write_xml_decl(w).unwrap()),
        r#"<?xml version="1.0" encoding="UTF-8" standalone="yes"?>"#
    );
    assert_eq!(written(|w| start_tag(w, "hp:a").unwrap()), "<hp:a>");
    assert_eq!(
        written(|w| start_tag_attrs(w, "hp:a", &[("k", "v<"), ("n", "1")]).unwrap()),
        r#"<hp:a k="v&lt;" n="1">"#
    );
    assert_eq!(written(|w| end_tag(w, "hp:a").unwrap()), "</hp:a>");
    assert_eq!(
        written(|w| empty_tag(w, "hp:b", &[("x", "\"")]).unwrap()),
        r#"<hp:b x="&quot;"/>"#
    );
    assert_eq!(written(|w| text(w, "a&b").unwrap()), "a&amp;b");
    assert_eq!(written(|w| write_markup(w, "<hp:c/>").unwrap()), "<hp:c/>");
}

#[test]
fn runs_put_back_together_give_the_text() {
    let shapes = vec![
        CharShapeRef {
            start_pos: 0,
            char_shape_id: 1,
        },
        CharShapeRef {
            start_pos: 2,
            char_shape_id: 2,
        },
        CharShapeRef {
            start_pos: 4,
            char_shape_id: 2,
        },
    ];
    let (runs, end) = split_char_shape_runs("abcdef", &[], &shapes);
    assert_eq!(
        runs,
        vec![(1u32, "ab".to_string()), (2u32, "cdef".to_string())]
    );
    assert_eq!(end, 6);
    let joined: String = runs.iter().map(|r| r.1.as_str()).collect();
    assert_eq!(joined, "abcdef");
}

#[test]
fn tab_counts_eight_positions() {
    assert_eq!(char_utf16_len('\t'), 8);
    assert_eq!(char_utf16_len('a'), 1);
    assert_eq!(char_utf16_len('😀'), 2);
    let shapes = vec![
        CharShapeRef {
            start_pos: 0,
            char_shape_id: 1,
        },
        CharShapeRef {
            start_pos: 9,
            char_shape_id: 7,
        },
    ];
    // tab at 0..8, 'x' at 8, 'y' at 9
    let (runs, end) = split_char_shape_runs("\txy", &[], &shapes);
    assert_eq!(runs, vec![(1u32, "\tx".to_string()), (7u32, "y".to_string())]);
    assert_eq!(end, 10);
}

#[test]
fn active_shape_is_the_last_started_one() {
    let shapes = vec![
        CharShapeRef {
            start_pos: 3,
            char_shape_id: 10,
        },
        CharShapeRef {
            start_pos: 5,
            char_shape_id: 20,
        },
    ];
    assert_eq!(active_char_shape_id(&shapes, 0), 10);
    assert_eq!(active_char_shape_id(&shapes, 4), 10);
    assert_eq!(active_char_shape_id(&shapes, 5), 20);
    assert_eq!(first_char_shape_id(&shapes), 10);
    assert_eq!(first_char_shape_id(&[]), 0);
}

#[test]
fn trailing_refs_start_at_or_after_the_end() {
    let shapes = vec![
        CharShapeRef {
            start_pos: 0,
            char_shape_id: 1,
        },
        CharShapeRef {
            start_pos: 3,
            char_shape_id: 2,
        },
        CharShapeRef {
            start_pos: 5,
            char_shape_id: 3,
        },
    ];
    assert_eq!(trailing_zero_length_refs(&shapes, 3, false), vec![2, 3]);
    assert_eq!(trailing_zero_length_refs(&shapes, 0, true), vec![2, 3]);
    assert_eq!(trailing_zero_length_refs(&shapes, 0, false), vec![1, 2, 3]);
}

#[test]
fn unresolved_lists_each_missing_reference_once_in_order() {
    let mut r = IdRegistry {
        defined: vec![1, 2],
        referenced: vec![],
    };
    for id in [5u16, 1, 3, 5, 2, 3] {
        r.reference(id);
    }
    assert_eq!(r.unresolved(), vec![5u16, 3]);
    let mut r32 = IdRegistry32 {
        defined: vec![0],
        referenced: vec![],
    };
    r32.reference(9);
    r32.reference(0);
    r32.reference(9);
    assert_eq!(r32.unresolved(), vec![9u32]);
}

#[test]
fn context_defines_ids_from_document_counts() {
    let doc = Document {
        border_fill_count: 2,
        char_shape_count: 3,
        para_shape_count: 1,
        style_count: 0,
        ..Default::default()
    };
    let ctx = SerializeContext::collect_from_document(&doc);
    assert_eq!(ctx.border_fill_ids.defined, vec![1u16, 2]);
    assert_eq!(ctx.char_shape_ids.defined, vec![0u32, 1, 2]);
    assert_eq!(ctx.para_shape_ids.defined, vec![0u16]);
    assert!(ctx.style_ids.defined.is_empty());
    assert!(ctx.border_fill_ids.unresolved().is_empty());
}

#[test]
fn combo_box_items_are_ordered_by_index() {
    let form = FormObject {
        form_type: FormType::ComboBox,
        name: "cb".to_string(),
        fore_color: 0x0000_00FF,
        back_color: 0xFFFF_FFFF,
        enabled: false,
        text: "b".to_string(),
        width: 10,
        height: 0,
        properties: vec![
            ("listItem2".to_string(), "c".to_string()),
            ("other".to_string(), "x".to_string()),
            ("listItem0".to_string(), "a".to_string()),
            ("listItemX".to_string(), "y".to_string()),
            ("listItem1".to_string(), "b".to_string()),
            ("listItem+3".to_string(), "d".to_string()),
        ],
        ..Default::default()
    };
    let xml = written(|w| write_form(w, &form).unwrap());
    assert_eq!(
        xml,
        r##"<hp:comboBox name="cb" foreColor="#FF0000" backColor="none" enabled="0" selectedValue="b"><hp:sz width="10" height="0"/><hp:listItem value="a"/><hp:listItem value="b"/><hp:listItem value="c"/><hp:listItem value="d"/></hp:comboBox>"##
    );
}

#[test]
fn edit_box_writes_escaped_text() {
    let form = FormObject {
        form_type: FormType::Edit,
        name: "e".to_string(),
        text: "1<2".to_string(),
        ..Default::default()
    };
    let xml = written(|w| write_form(w, &form).unwrap());
    assert_eq!(
        xml,
        r##"<hp:edit name="e" foreColor="#000000" backColor="#000000" enabled="0"><hp:text>1&lt;2</hp:text></hp:edit>"##
    );
}

#[test]
fn text_positions_fit_checks_every_character_end() {
    assert!(rhwp::serializer::hwpx::utils::text_positions_fit("ab", &[]));
    assert!(rhwp::serializer::hwpx::utils::text_positions_fit("", &[u32::MAX]));
    assert!(rhwp::serializer::hwpx::utils::text_positions_fit("a", &[u32::MAX - 1]));
    assert!(!rhwp::serializer::hwpx::utils::text_positions_fit("a", &[u32::MAX]));
    assert!(!rhwp::serializer::hwpx::utils::text_positions_fit("ab", &[0, u32::MAX]));
}

//! HWPX form controls: push button, check box, radio button, combo box, edit box.
use vstd::prelude::*;

use crate::model::control::{FormObject, FormType};

use super::numfmt::{hex2, hex_digit, nat_string, nat_text, push_hex2};
use super::utils::{
    lemma_escape_text_plain_id, lemma_next_attr,
    appended, attr_text, attrs_text, empty_tag, empty_tag_text, end_tag, end_tag_text, escape_text,
    indented, lemma_appended_then, lemma_attrs_text_push, open_tag_text, start_tag_attrs,
    string_push, text,
};
use super::SerializeError;
use vstd::string::StrSliceExecFns;

verus! {

broadcast use vstd::string::group_string_axioms;

/// Element name of a form type.
pub open spec fn form_tag(t: FormType) -> Seq<char> {
    match t {
        FormType::PushButton => "hp:btn"@,
        FormType::CheckBox => "hp:checkBtn"@,
        FormType::ComboBox => "hp:comboBox"@,
        FormType::RadioButton => "hp:radioBtn"@,
        FormType::Edit => "hp:edit"@,
    }
}

/// `"1"` for true, `"0"` for false.
pub open spec fn bool01_text(b: bool) -> Seq<char> {
    if b {
        "1"@
    } else {
        "0"@
    }
}

/// A color `0x00BBGGRR` as `#RRGGBB`, or `none` for `0xFFFFFFFF`.
pub open spec fn color_text(color: u32) -> Seq<char> {
    if color == 0xFFFF_FFFF {
        "none"@
    } else {
        seq!['#'] + hex2((color & 0xFF) as u8) + hex2(((color >> 8) & 0xFF) as u8) + hex2(
            ((color >> 16) & 0xFF) as u8,
        )
    }
}

/// The characters of `listItem`.
pub open spec fn list_item_prefix() -> Seq<char> {
    seq!['l', 'i', 's', 't', 'I', 't', 'e', 'm']
}

pub open spec fn is_digit(c: char) -> bool {
    '0' <= c <= '9'
}

pub open spec fn all_digits(s: Seq<char>) -> bool {
    forall|i: int| 0 <= i < s.len() ==> is_digit(#[trigger] s[i])
}

/// The number that a string of decimal digits stands for.
pub open spec fn digits_value(s: Seq<char>) -> nat
    decreases s.len(),
{
    if s.len() == 0 {
        0
    } else {
        digits_value(s.drop_last()) * 10 + ((s.last() as u32) - ('0' as u32)) as nat
    }
}

/// `usize` parsing as `str::parse::<usize>` does it: an optional `+`, then one or more
/// ASCII digits whose value fits a `usize`.
pub open spec fn parse_usize(s: Seq<char>) -> Option<usize> {
    let d = if s.len() > 0 && s[0] == '+' {
        s.drop_first()
    } else {
        s
    };
    if d.len() > 0 && all_digits(d) && digits_value(d) <= usize::MAX {
        Some(digits_value(d) as usize)
    } else {
        None
    }
}

/// The index of a `listItem<N>` property key.
pub open spec fn list_item_index(key: Seq<char>) -> Option<usize> {
    if key.len() >= 8 && key.subrange(0, 8) == list_item_prefix() {
        parse_usize(key.subrange(8, key.len() as int))
    } else {
        None
    }
}

/// The `(index, value)` of the `listItem<N>` properties among the first `k`, in order.
pub open spec fn list_entries(props: Seq<(String, String)>, k: int) -> Seq<(usize, Seq<char>)>
    decreases k,
{
    if k <= 0 {
        seq![]
    } else {
        let r = list_entries(props, k - 1);
        match list_item_index(props[k - 1].0@) {
            Some(i) => r.push((i, props[k - 1].1@)),
            None => r,
        }
    }
}

/// Inserts `x` after every entry whose index is not greater than its own.
pub open spec fn insert_by_index(x: (usize, Seq<char>), s: Seq<(usize, Seq<char>)>) -> Seq<
    (usize, Seq<char>),
>
    decreases s.len(),
{
    if s.len() == 0 {
        seq![x]
    } else if s.last().0 > x.0 {
        insert_by_index(x, s.drop_last()).push(s.last())
    } else {
        s.push(x)
    }
}

/// Stable sort by index (entries with equal index keep their order).
pub open spec fn sort_by_index(s: Seq<(usize, Seq<char>)>) -> Seq<(usize, Seq<char>)>
    decreases s.len(),
{
    if s.len() == 0 {
        seq![]
    } else {
        insert_by_index(s.last(), sort_by_index(s.drop_last()))
    }
}

/// The combo box items: the values of the `listItem<N>` properties ordered by `N`.
pub open spec fn list_items(f: FormObject) -> Seq<Seq<char>> {
    sort_by_index(list_entries(f.properties@, f.properties@.len() as int)).map_values(
        |e: (usize, Seq<char>)| e.1,
    )
}

/// The attributes after `name`, `foreColor`, `backColor`, `enabled` for each form type.
pub open spec fn form_type_attrs(f: FormObject) -> Seq<char> {
    let value = if f.value != 0 {
        "CHECKED"@
    } else {
        "UNCHECKED"@
    };
    match f.form_type {
        FormType::PushButton => attr_text("caption"@, f.caption@),
        FormType::CheckBox | FormType::RadioButton => attr_text("caption"@, f.caption@)
            + attr_text("value"@, value),
        FormType::ComboBox => attr_text("selectedValue"@, f.text@),
        FormType::Edit => seq![],
    }
}

/// `<hp:listItem value="..."/>` for each of the first `k` items.
pub open spec fn list_items_xml(items: Seq<Seq<char>>, k: int) -> Seq<char>
    decreases k,
{
    if k <= 0 {
        seq![]
    } else {
        list_items_xml(items, k - 1) + empty_tag_text(
            "hp:listItem"@,
            attr_text("value"@, items[k - 1]),
        )
    }
}

/// The XML of a form object.
pub open spec fn form_xml(f: FormObject) -> Seq<char> {
    let tag = form_tag(f.form_type);
    let attrs = form_attrs(f);
    let sz = if f.width > 0 || f.height > 0 {
        empty_tag_text(
            "hp:sz"@,
            attr_text("width"@, nat_text(f.width as nat)) + attr_text(
                "height"@,
                nat_text(f.height as nat),
            ),
        )
    } else {
        seq![]
    };
    let items = match f.form_type {
        FormType::ComboBox => list_items_xml(list_items(f), list_items(f).len() as int),
        _ => seq![],
    };
    let edit_text = match f.form_type {
        FormType::Edit => if f.text@.len() > 0 {
            open_tag_text("hp:text"@, seq![]) + escape_text(f.text@) + end_tag_text("hp:text"@)
        } else {
            seq![]
        },
        _ => seq![],
    };
    open_tag_text(tag, attrs) + sz + items + edit_text + end_tag_text(tag)
}

fn form_tag_name(form_type: FormType) -> (tag: &'static str)
    ensures
        tag@ == form_tag(form_type),
{
    match form_type {
        FormType::PushButton => "hp:btn",
        FormType::CheckBox => "hp:checkBtn",
        FormType::ComboBox => "hp:comboBox",
        FormType::RadioButton => "hp:radioBtn",
        FormType::Edit => "hp:edit",
    }
}

pub(crate) fn bool01(value: bool) -> (s: &'static str)
    ensures
        s@ == bool01_text(value),
{
    if value {
        "1"
    } else {
        "0"
    }
}

fn color_hex(color: u32) -> (s: String)
    ensures
        s@ == color_text(color),
{
    if color == 0xFFFF_FFFF {
        return "none".to_string();
    }
    let r = (color & 0xFF) as u8;
    let g = ((color >> 8) & 0xFF) as u8;
    let b = ((color >> 16) & 0xFF) as u8;
    let mut s = String::new();
    string_push(&mut s, '#');
    push_hex2(&mut s, r);
    push_hex2(&mut s, g);
    push_hex2(&mut s, b);
    assert(seq!['#'] + hex2(r) + hex2(g) + hex2(b) == Seq::<char>::empty().push('#') + hex2(r)
        + hex2(g) + hex2(b));
    s
}

fn prefix_char(i: usize) -> (c: char)
    requires
        i < 8,
    ensures
        c == list_item_prefix()[i as int],
{
    if i == 0 {
        'l'
    } else if i == 1 {
        'i'
    } else if i == 2 {
        's'
    } else if i == 3 {
        't'
    } else if i == 4 {
        'I'
    } else if i == 5 {
        't'
    } else if i == 6 {
        'e'
    } else {
        'm'
    }
}

proof fn lemma_digits_value_monotone(d: Seq<char>, j: int)
    requires
        0 <= j <= d.len(),
        all_digits(d),
    ensures
        digits_value(d) >= digits_value(d.take(j)),
    decreases d.len(),
{
    if j < d.len() {
        assert(d.drop_last().take(j) == d.take(j));
        assert(all_digits(d.drop_last()));
        lemma_digits_value_monotone(d.drop_last(), j);
        assert(digits_value(d) >= digits_value(d.drop_last())) by (nonlinear_arith)
            requires
                digits_value(d) == digits_value(d.drop_last()) * 10 + ((d.last() as u32) - (
                '0' as u32)) as nat,
        ;
    } else {
        assert(d.take(j) == d);
    }
}

/// The digits part of the characters after the prefix: without a leading `+`.
pub open spec fn digits_part(t: Seq<char>) -> Seq<char> {
    if t.len() > 0 && t[0] == '+' {
        t.drop_first()
    } else {
        t
    }
}

/// The index `N` of a property key `listItem<N>`; `None` for other keys.
fn parse_list_item_index(key: &str) -> (r: Option<usize>)
    ensures
        r == list_item_index(key@),
{
    let n = key.unicode_len();
    let mut k: usize = 0;
    let mut value: usize = 0;
    let mut has_digits = false;
    for c in it: key.chars()
        invariant
            it.seq() == key@,
            n == key@.len(),
            k == it.index(),
            k <= 8 ==> key@.subrange(0, k as int) == list_item_prefix().take(k as int),
            k <= 8 ==> value == 0 && !has_digits,
            k > 8 ==> key@.subrange(0, 8) == list_item_prefix(),
            k > 8 ==> all_digits(digits_part(key@.subrange(8, k as int))),
            k > 8 ==> value == digits_value(digits_part(key@.subrange(8, k as int))),
            k > 8 ==> has_digits == (digits_part(key@.subrange(8, k as int)).len() > 0),
    {
        assert(c == key@[k as int]);
        let ghost t = if k >= 8 {
            key@.subrange(8, k + 1)
        } else {
            seq![]
        };
        if k < 8 {
            if c != prefix_char(k) {
                assert(key@.len() >= 8 ==> key@.subrange(0, 8)[k as int] != list_item_prefix()[k as int]);
                return None;
            }
            assert(key@.subrange(0, k + 1) == list_item_prefix().take(k + 1));
        } else if k == 8 && c == '+' {
            assert(digits_part(t) =~= Seq::<char>::empty());
        } else if '0' <= c && c <= '9' {
            let d = (c as u32 - '0' as u32) as usize;
            let ghost old_d = digits_part(key@.subrange(8, k as int));
            assert(digits_part(t) == old_d.push(c)) by {
                if k == 8 {
                    assert(old_d =~= Seq::<char>::empty());
                    assert(t =~= seq![c]);
                } else {
                    assert(t == key@.subrange(8, k as int).push(c));
                }
            }
            assert(digits_part(t).drop_last() == old_d);
            assert(digits_value(digits_part(t)) == digits_value(old_d) * 10 + d as nat);
            match value.checked_mul(10) {
                Some(v10) => match v10.checked_add(d) {
                    Some(v) => {
                        value = v;
                    },
                    None => {
                        proof {
                            let full = digits_part(key@.subrange(8, key@.len() as int));
                            let j = digits_part(t).len() as int;
                            assert(full.take(j) == digits_part(t));
                            if all_digits(full) {
                                lemma_digits_value_monotone(full, j);
                            }
                        }
                        return None;
                    },
                },
                None => {
                    proof {
                        let full = digits_part(key@.subrange(8, key@.len() as int));
                        let j = digits_part(t).len() as int;
                        assert(full.take(j) == digits_part(t));
                        if all_digits(full) {
                            lemma_digits_value_monotone(full, j);
                        }
                    }
                    return None;
                },
            }
            has_digits = true;
        } else {
            proof {
                let full = digits_part(key@.subrange(8, key@.len() as int));
                let j = digits_part(key@.subrange(8, k as int)).len() as int;
                if k == 8 {
                    assert(full[0] == c);
                } else {
                    assert(full[j] == c);
                }
                assert(!is_digit(full[j]));
            }
            return None;
        }
        k = k + 1;
    }
    if k < 8 || !has_digits {
        return None;
    }
    assert(key@.subrange(8, k as int) == key@.subrange(8, key@.len() as int));
    Some(value)
}

proof fn lemma_insert_by_index_at(x: (usize, Seq<char>), s: Seq<(usize, Seq<char>)>, j: int)
    requires
        0 <= j <= s.len(),
        forall|t: int| j <= t < s.len() ==> s[t].0 > x.0,
        j == 0 || s[j - 1].0 <= x.0,
    ensures
        insert_by_index(x, s) == s.insert(j, x),
    decreases s.len(),
{
    if s.len() == 0 {
        assert(s.insert(j, x) =~= seq![x]);
    } else if j == s.len() {
        assert(s.insert(j, x) =~= s.push(x));
    } else {
        lemma_insert_by_index_at(x, s.drop_last(), j);
        assert(s.drop_last().insert(j, x).push(s.last()) =~= s.insert(j, x));
    }
}

/// The values of the `listItem<N>` properties, ordered by `N` (stable for equal `N`).
fn sorted_list_items(form: &FormObject) -> (items: Vec<String>)
    ensures
        items@.map_values(|s: String| s@) == list_items(*form),
{
    let props = &form.properties;
    let mut entries: Vec<(usize, String)> = Vec::new();
    let ghost view = |e: (usize, String)| (e.0, e.1@);
    let mut i: usize = 0;
    while i < props.len()
        invariant
            i <= props.len(),
            *props == form.properties,
            view == (|e: (usize, String)| (e.0, e.1@)),
            entries@.map_values(view) == sort_by_index(list_entries(props@, i as int)),
        decreases props.len() - i,
    {
        let (key, value) = &props[i];
        match parse_list_item_index(key.as_str()) {
            Some(index) => {
                let ghost before = entries@.map_values(view);
                let mut j = entries.len();
                while j > 0 && entries[j - 1].0 > index
                    invariant
                        j <= entries.len(),
                        entries@.map_values(view) == before,
                        forall|t: int| j <= t < entries@.len() ==> entries@[t].0 > index,
                    decreases j,
                {
                    j = j - 1;
                }
                let ghost x = (index, value@);
                proof {
                    lemma_insert_by_index_at(x, before, j as int);
                }
                entries.insert(j, (index, value.clone()));
                assert(entries@.map_values(view) =~= before.insert(j as int, x));
                assert(list_entries(props@, i + 1) == list_entries(props@, i as int).push(x));
                assert(list_entries(props@, i + 1).drop_last() == list_entries(props@, i as int));
            },
            None => {
                assert(list_entries(props@, i + 1) == list_entries(props@, i as int));
            },
        }
        i += 1;
    }
    let mut items: Vec<String> = Vec::new();
    let mut k: usize = 0;
    while k < entries.len()
        invariant
            k <= entries.len(),
            view == (|e: (usize, String)| (e.0, e.1@)),
            items@.map_values(|s: String| s@) == entries@.map_values(view).take(k as int).map_values(
                |e: (usize, Seq<char>)| e.1,
            ),
        decreases entries.len() - k,
    {
        let ghost before = items@.map_values(|s: String| s@);
        items.push(entries[k].1.clone());
        assert(items@.map_values(|s: String| s@) =~= before.push(entries@[k as int].1@));
        assert(entries@.map_values(view).take(k + 1).map_values(|e: (usize, Seq<char>)| e.1)
            =~= entries@.map_values(view).take(k as int).map_values(|e: (usize, Seq<char>)| e.1).push(
            entries@[k as int].1@,
        ));
        k += 1;
    }
    assert(entries@.map_values(view).take(entries@.len() as int) == entries@.map_values(view));
    items
}

/// The attributes of a form object's element.
pub open spec fn form_attrs(f: FormObject) -> Seq<char> {
    attr_text("name"@, f.name@) + attr_text("foreColor"@, color_text(f.fore_color)) + attr_text(
        "backColor"@,
        color_text(f.back_color),
    ) + attr_text("enabled"@, bool01_text(f.enabled)) + form_type_attrs(f)
}

fn write_form_start(w: &mut quick_xml::Writer<Vec<u8>>, form: &FormObject, tag: &str) -> (r: Result<
    (),
    SerializeError,
>)
    ensures
        r is Ok,
        indented(*final(w)) == indented(*old(w)),
        r is Ok ==> appended(*old(w), *final(w), open_tag_text(tag@, form_attrs(*form))),
{
    let fore_color = color_hex(form.fore_color);
    let back_color = color_hex(form.back_color);
    let enabled = bool01(form.enabled);
    let value = if form.value != 0 {
        "CHECKED"
    } else {
        "UNCHECKED"
    };

    let mut attrs = vec![
        ("name", form.name.as_str()),
        ("foreColor", fore_color.as_str()),
        ("backColor", back_color.as_str()),
        ("enabled", enabled),
    ];
    proof {
        reveal_with_fuel(attrs_text, 5);
        assert(attrs_text(attrs@) == attr_text("name"@, form.name@) + attr_text(
            "foreColor"@,
            color_text(form.fore_color),
        ) + attr_text("backColor"@, color_text(form.back_color)) + attr_text(
            "enabled"@,
            bool01_text(form.enabled),
        ));
    }
    let ghost base = attrs_text(attrs@);
    match form.form_type {
        FormType::PushButton | FormType::CheckBox | FormType::RadioButton => {
            let ghost a0 = attrs@;
            let caption = form.caption.as_str();
            attrs.push(("caption", caption));
            proof {
                lemma_attrs_text_push(a0, ("caption", caption));
            }
            if matches!(form.form_type, FormType::CheckBox | FormType::RadioButton) {
                let ghost a1 = attrs@;
                attrs.push(("value", value));
                proof {
                    lemma_attrs_text_push(a1, ("value", value));
                    assert(attrs_text(attrs@) == base + (attr_text("caption"@, form.caption@)
                        + attr_text("value"@, value@)));
                }
            }
        },
        FormType::ComboBox => {
            let ghost a0 = attrs@;
            let selected = form.text.as_str();
            attrs.push(("selectedValue", selected));
            proof {
                lemma_attrs_text_push(a0, ("selectedValue", selected));
            }
        },
        FormType::Edit => {
            assert(base + seq![] == base);
        },
    }
    start_tag_attrs(w, tag, attrs.as_slice())
}

/// `<hp:listItem value="..."/>` for each item.
fn write_list_items(w: &mut quick_xml::Writer<Vec<u8>>, items: &Vec<String>) -> (r: Result<
    (),
    SerializeError,
>)
    ensures
        r is Ok,
        indented(*final(w)) == indented(*old(w)),
        r is Ok ==> appended(
            *old(w),
            *final(w),
            list_items_xml(items@.map_values(|s: String| s@), items@.len() as int),
        ),
{
    let ghost w0 = *w;
    let ghost iv = items@.map_values(|s: String| s@);
    let mut i: usize = 0;
    proof {
        super::utils::lemma_appended_nothing(*w);
    }
    while i < items.len()
        invariant
            i <= items.len(),
            w0 == *old(w),
            iv == items@.map_values(|s: String| s@),
            indented(*w) == indented(w0),
            appended(w0, *w, list_items_xml(iv, i as int)),
        decreases items.len() - i,
    {
        let ghost wi = *w;
        proof {
            reveal_with_fuel(attrs_text, 2);
        }
        empty_tag(w, "hp:listItem", &[("value", items[i].as_str())])?;
        proof {
            assert(items@[i as int]@ == iv[i as int]);
            lemma_appended_then(
                w0,
                wi,
                *w,
                list_items_xml(iv, i as int),
                empty_tag_text("hp:listItem"@, attr_text("value"@, iv[i as int])),
            );
        }
        i += 1;
    }
    Ok(())
}

/// Writes a form object: its element with name, colors, enabled flag and the attributes of
/// its type, then its size (when not zero), the combo box items, and the edit box text.
pub fn write_form(w: &mut quick_xml::Writer<Vec<u8>>, form: &FormObject) -> (r: Result<
    (),
    SerializeError,
>)
    ensures
        r is Ok,
        indented(*final(w)) == indented(*old(w)),
        r is Ok ==> appended(*old(w), *final(w), form_xml(*form)),
{
    let ghost w0 = *w;
    let tag = form_tag_name(form.form_type);
    write_form_start(w, form, tag)?;
    let ghost head = open_tag_text(form_tag(form.form_type), form_attrs(*form));
    let ghost w1 = *w;

    let ghost sz = if form.width > 0 || form.height > 0 {
        empty_tag_text(
            "hp:sz"@,
            attr_text("width"@, nat_text(form.width as nat)) + attr_text(
                "height"@,
                nat_text(form.height as nat),
            ),
        )
    } else {
        seq![]
    };
    if form.width > 0 || form.height > 0 {
        let width = nat_string(form.width as u64);
        let height = nat_string(form.height as u64);
        proof {
            reveal_with_fuel(attrs_text, 3);
        }
        empty_tag(w, "hp:sz", &[("width", width.as_str()), ("height", height.as_str())])?;
    } else {
        proof {
            super::utils::lemma_appended_nothing(*w);
        }
    }
    proof {
        lemma_appended_then(w0, w1, *w, head, sz);
    }
    let ghost w2 = *w;

    let ghost items_xml = match form.form_type {
        FormType::ComboBox => list_items_xml(list_items(*form), list_items(*form).len() as int),
        _ => seq![],
    };
    if matches!(form.form_type, FormType::ComboBox) {
        let items = sorted_list_items(form);
        write_list_items(w, &items)?;
    } else {
        proof {
            super::utils::lemma_appended_nothing(*w);
        }
    }
    proof {
        lemma_appended_then(w0, w2, *w, head + sz, items_xml);
    }
    let ghost w3 = *w;

    let ghost edit_xml = match form.form_type {
        FormType::Edit => if form.text@.len() > 0 {
            open_tag_text("hp:text"@, seq![]) + escape_text(form.text@) + end_tag_text("hp:text"@)
        } else {
            seq![]
        },
        _ => seq![],
    };
    if matches!(form.form_type, FormType::Edit) && !form.text.as_str().is_empty() {
        proof {
            reveal_with_fuel(attrs_text, 1);
        }
        start_tag_attrs(w, "hp:text", &[])?;
        let ghost wa = *w;
        text(w, form.text.as_str())?;
        proof {
            lemma_appended_then(w3, wa, *w, open_tag_text("hp:text"@, seq![]), escape_text(form.text@));
        }
        let ghost wb = *w;
        end_tag(w, "hp:text")?;
        proof {
            lemma_appended_then(
                w3,
                wb,
                *w,
                open_tag_text("hp:text"@, seq![]) + escape_text(form.text@),
                end_tag_text("hp:text"@),
            );
        }
    } else {
        proof {
            super::utils::lemma_appended_nothing(*w);
        }
    }
    proof {
        lemma_appended_then(w0, w3, *w, head + sz + items_xml, edit_xml);
    }
    let ghost w4 = *w;
    end_tag(w, tag)?;
    proof {
        lemma_appended_then(
            w0,
            w4,
            *w,
            head + sz + items_xml + edit_xml,
            end_tag_text(form_tag(form.form_type)),
        );
    }
    Ok(())
}

// ---- laws ----

/// Entries ordered by index.
pub open spec fn index_sorted(s: Seq<(usize, Seq<char>)>) -> bool {
    forall|i: int, j: int| 0 <= i <= j < s.len() ==> s[i].0 <= s[j].0
}

proof fn lemma_insert_by_index(x: (usize, Seq<char>), s: Seq<(usize, Seq<char>)>, b: usize)
    requires
        index_sorted(s),
    ensures
        index_sorted(insert_by_index(x, s)),
        insert_by_index(x, s).to_multiset() == s.to_multiset().insert(x),
        (forall|i: int| 0 <= i < s.len() ==> s[i].0 <= b) && x.0 <= b ==> forall|i: int|
            0 <= i < insert_by_index(x, s).len() ==> #[trigger] insert_by_index(x, s)[i].0 <= b,
    decreases s.len(),
{
    broadcast use vstd::seq_lib::group_to_multiset_ensures;

    if s.len() > 0 {
        let d = s.drop_last();
        let l = s.last();
        assert(s == d.push(l));
        if l.0 > x.0 {
            lemma_insert_by_index(x, d, b);
            lemma_insert_by_index(x, d, l.0);
            let t = insert_by_index(x, d);
            assert(forall|i: int| 0 <= i < d.len() ==> d[i].0 <= l.0);
            assert(forall|i: int| 0 <= i < t.len() ==> #[trigger] t[i].0 <= l.0);
            assert(t.push(l).to_multiset() == t.to_multiset().insert(l));
            assert(s.to_multiset() == d.to_multiset().insert(l));
            assert(t.push(l).to_multiset() =~= s.to_multiset().insert(x));
        } else {
            assert(s.push(x).to_multiset() == s.to_multiset().insert(x));
        }
    } else {
        assert(seq![x] == Seq::<(usize, Seq<char>)>::empty().push(x));
    }
}

/// The combo box items are ordered by their index, and the sort keeps every entry: it is a
/// permutation ordered by index.
pub proof fn lemma_sort_by_index(s: Seq<(usize, Seq<char>)>)
    ensures
        index_sorted(sort_by_index(s)),
        sort_by_index(s).to_multiset() == s.to_multiset(),
    decreases s.len(),
{
    broadcast use vstd::seq_lib::group_to_multiset_ensures;

    if s.len() > 0 {
        lemma_sort_by_index(s.drop_last());
        lemma_insert_by_index(s.last(), sort_by_index(s.drop_last()), 0);
        assert(s == s.drop_last().push(s.last()));
    } else {
        assert(sort_by_index(s).to_multiset() =~= s.to_multiset());
    }
}

/// Whether `s` ends with `t`.
pub open spec fn ends_with(s: Seq<char>, t: Seq<char>) -> bool {
    t.len() <= s.len() && s.subrange(s.len() - t.len(), s.len() as int) == t
}

proof fn lemma_value_literals()
    ensures
        attr_text("value"@, "CHECKED"@) == " value=\"CHECKED\""@,
        attr_text("value"@, "UNCHECKED"@) == " value=\"UNCHECKED\""@,
{
    reveal_strlit("value");
    reveal_strlit("CHECKED");
    reveal_strlit("UNCHECKED");
    reveal_strlit(" value=\"CHECKED\"");
    reveal_strlit(" value=\"UNCHECKED\"");
    assert(escape_text("CHECKED"@) == "CHECKED"@) by {
        reveal_with_fuel(escape_text, 8);
    }
    assert(escape_text("UNCHECKED"@) == "UNCHECKED"@) by {
        reveal_with_fuel(escape_text, 10);
    }
    assert(attr_text("value"@, "CHECKED"@) =~= " value=\"CHECKED\""@);
    assert(attr_text("value"@, "UNCHECKED"@) =~= " value=\"UNCHECKED\""@);
}

/// A check box or a radio button keeps its state: its attributes end with
/// `value="CHECKED"` when its value is not 0, `value="UNCHECKED"` when it is.
pub proof fn lemma_check_state_written(f: FormObject)
    requires
        f.form_type is CheckBox || f.form_type is RadioButton,
    ensures
        ends_with(
            form_attrs(f),
            if f.value != 0 {
                " value=\"CHECKED\""@
            } else {
                " value=\"UNCHECKED\""@
            },
        ),
{
    lemma_value_literals();
    let pre = attr_text("name"@, f.name@) + attr_text("foreColor"@, color_text(f.fore_color))
        + attr_text("backColor"@, color_text(f.back_color)) + attr_text(
        "enabled"@,
        bool01_text(f.enabled),
    ) + attr_text("caption"@, f.caption@);
    let v = if f.value != 0 {
        "CHECKED"@
    } else {
        "UNCHECKED"@
    };
    assert(form_attrs(f) =~= pre + attr_text("value"@, v));
    let lit = attr_text("value"@, v);
    assert((pre + lit).subrange(pre.len() as int, (pre + lit).len() as int) =~= lit);
}

/// The value of a hexadecimal digit (`0`-`9`, `A`-`F`).
pub open spec fn hex_value(c: char) -> int {
    if 0x30 <= (c as u32) <= 0x39 {
        (c as u32) - 0x30
    } else {
        (c as u32) - 0x41 + 10
    }
}

proof fn lemma_hex2_value(b: u8)
    ensures
        hex2(b).len() == 2,
        16 * hex_value(hex2(b)[0]) + hex_value(hex2(b)[1]) == b,
{
    let hi = b as int / 16;
    let lo = b as int % 16;
    assert(hex_value(hex_digit(hi)) == hi);
    assert(hex_value(hex_digit(lo)) == lo);
}

/// A colour other than "none" (0xFFFFFFFF) is written as `#` and three bytes in hex, red
/// first: the red byte is the colour's lowest byte, green the next, blue the one after.
pub proof fn lemma_color_text_bytes(color: u32)
    requires
        color != 0xFFFF_FFFF,
    ensures
        color_text(color).len() == 7,
        color_text(color)[0] == '#',
        16 * hex_value(color_text(color)[1]) + hex_value(color_text(color)[2]) == color % 256,
        16 * hex_value(color_text(color)[3]) + hex_value(color_text(color)[4]) == (color / 256)
            % 256,
        16 * hex_value(color_text(color)[5]) + hex_value(color_text(color)[6]) == (color / 65536)
            % 256,
{
    let r = (color & 0xFF) as u8;
    let g = ((color >> 8) & 0xFF) as u8;
    let b = ((color >> 16) & 0xFF) as u8;
    assert((color & 0xFF) == color % 256) by (bit_vector);
    assert(((color >> 8) & 0xFF) == (color / 256) % 256) by (bit_vector);
    assert(((color >> 16) & 0xFF) == (color / 65536) % 256) by (bit_vector);
    lemma_hex2_value(r);
    lemma_hex2_value(g);
    lemma_hex2_value(b);
    let t = seq!['#'] + hex2(r) + hex2(g) + hex2(b);
    assert(color_text(color) == t);
    assert(t[1] == hex2(r)[0] && t[2] == hex2(r)[1]);
    assert(t[3] == hex2(g)[0] && t[4] == hex2(g)[1]);
    assert(t[5] == hex2(b)[0] && t[6] == hex2(b)[1]);
}

/// Whether `s` starts with `t`.
pub open spec fn starts_with(s: Seq<char>, t: Seq<char>) -> bool {
    t.len() <= s.len() && s.subrange(0, t.len() as int) == t
}

proof fn lemma_escape_color_text(color: u32)
    ensures
        escape_text(color_text(color)) == color_text(color),
{
    if color == 0xFFFF_FFFF {
        reveal_strlit("none");
        reveal_with_fuel(escape_text, 5);
    } else {
        let t = color_text(color);
        assert forall|i: int| 0 <= i < t.len() implies #[trigger] t[i] != '&' && t[i] != '<' && t[i]
            != '>' && t[i] != '"' && t[i] != '\'' by {
            let r = (color & 0xFF) as u8;
            let g = ((color >> 8) & 0xFF) as u8;
            let b = ((color >> 16) & 0xFF) as u8;
            assert(t == seq!['#'] + hex2(r) + hex2(g) + hex2(b));
        }
        lemma_escape_text_plain_id(t);
    }
}

proof fn lemma_form_head_literals()
    ensures
        " name=\""@ == seq![' '] + "name"@ + seq!['=', '"'],
        "\" foreColor=\""@ == seq!['"', ' '] + "foreColor"@ + seq!['=', '"'],
        "\" backColor=\""@ == seq!['"', ' '] + "backColor"@ + seq!['=', '"'],
        "\" enabled=\""@ == seq!['"', ' '] + "enabled"@ + seq!['=', '"'],
        "\""@ == seq!['"'],
{
    reveal_strlit(" name=\"");
    reveal_strlit("\" foreColor=\"");
    reveal_strlit("\" backColor=\"");
    reveal_strlit("\" enabled=\"");
    reveal_strlit("\"");
    reveal_strlit("name");
    reveal_strlit("foreColor");
    reveal_strlit("backColor");
    reveal_strlit("enabled");
    assert(" name=\""@ =~= seq![' '] + "name"@ + seq!['=', '"']);
    assert("\" foreColor=\""@ =~= seq!['"', ' '] + "foreColor"@ + seq!['=', '"']);
    assert("\" backColor=\""@ =~= seq!['"', ' '] + "backColor"@ + seq!['=', '"']);
    assert("\" enabled=\""@ =~= seq!['"', ' '] + "enabled"@ + seq!['=', '"']);
    assert("\""@ =~= seq!['"']);
}

/// A form object's attributes start with its name (escaped), its foreground colour in
/// `foreColor`, its background colour in `backColor`, and whether it is enabled.
pub proof fn lemma_form_colors_written(f: FormObject)
    ensures
        starts_with(
            form_attrs(f),
            " name=\""@ + escape_text(f.name@) + "\" foreColor=\""@ + color_text(f.fore_color)
                + "\" backColor=\""@ + color_text(f.back_color) + "\" enabled=\""@ + (if f.enabled {
                "1"@
            } else {
                "0"@
            }) + "\""@,
        ),
{
    lemma_form_head_literals();
    lemma_escape_color_text(f.fore_color);
    lemma_escape_color_text(f.back_color);
    assert(escape_text("1"@) == "1"@ && escape_text("0"@) == "0"@) by {
        reveal_strlit("1");
        reveal_strlit("0");
        reveal_with_fuel(escape_text, 2);
    }
    let en = bool01_text(f.enabled);
    let p0 = " name=\""@ + escape_text(f.name@);
    assert(attr_text("name"@, f.name@) == p0 + seq!['"']) by {
        assert(attr_text("name"@, f.name@) =~= p0 + seq!['"']);
    }
    lemma_next_attr(p0, "\" foreColor=\""@, "foreColor"@, color_text(f.fore_color));
    let p1 = p0 + "\" foreColor=\""@ + color_text(f.fore_color);
    lemma_next_attr(p1, "\" backColor=\""@, "backColor"@, color_text(f.back_color));
    let p2 = p1 + "\" backColor=\""@ + color_text(f.back_color);
    lemma_next_attr(p2, "\" enabled=\""@, "enabled"@, en);
    let p3 = p2 + "\" enabled=\""@ + en;
    let pre = p3 + "\""@;
    assert(form_attrs(f) == pre + form_type_attrs(f));
    assert((pre + form_type_attrs(f)).subrange(0, pre.len() as int) =~= pre);
}

} // verus!

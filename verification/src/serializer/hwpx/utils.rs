//! Shared helpers of the HWPX serializers: XML writer events, XML escaping, and the
//! split of paragraph text into character-shape runs.
use vstd::prelude::*;
use vstd::string::StrSliceExecFns;
use vstd::utf8::{decode_utf8, encode_utf8, valid_utf8};

use quick_xml::events::{BytesDecl, BytesEnd, BytesStart, BytesText, Event};
use quick_xml::Writer;

use crate::model::paragraph::CharShapeRef;

use super::SerializeError;

verus! {

broadcast use vstd::string::group_string_axioms;

// ---- the XML writer ----

#[verifier::external_type_specification]
#[verifier::external_body]
#[verifier::reject_recursive_types(W)]
pub struct ExWriter<W>(quick_xml::Writer<W>);

/// The bytes that a `quick_xml::Writer` over a `Vec<u8>` has written so far.
pub uninterp spec fn written(w: quick_xml::Writer<Vec<u8>>) -> Seq<u8>;

/// Whether the writer was made with indentation (it then adds line breaks before tags).
pub uninterp spec fn indented(w: quick_xml::Writer<Vec<u8>>) -> bool;

/// UTF-8 of a concatenation is the concatenation of the UTF-8 of its parts.
pub broadcast proof fn lemma_encode_utf8_concat(a: Seq<char>, b: Seq<char>)
    ensures
        #[trigger] encode_utf8(a + b) == encode_utf8(a) + encode_utf8(b),
    decreases a.len(),
{
    if a.len() == 0 {
        assert(a + b == b);
    } else {
        assert((a + b).drop_first() == a.drop_first() + b);
        lemma_encode_utf8_concat(a.drop_first(), b);
        assert((a + b)[0] == a[0]);
    }
}

/// One attribute ` key="value"` with the value escaped.
pub open spec fn attr_text(key: Seq<char>, value: Seq<char>) -> Seq<char> {
    seq![' '] + key + seq!['=', '"'] + escape_text(value) + seq!['"']
}

/// The attributes of a tag, in order.
pub open spec fn attrs_text(attrs: Seq<(&str, &str)>) -> Seq<char>
    decreases attrs.len(),
{
    if attrs.len() == 0 {
        seq![]
    } else {
        attrs_text(attrs.drop_last()) + attr_text(attrs.last().0@, attrs.last().1@)
    }
}

pub proof fn lemma_attrs_text_push(s: Seq<(&str, &str)>, x: (&str, &str))
    ensures
        attrs_text(s.push(x)) == attrs_text(s) + attr_text(x.0@, x.1@),
{
    assert(s.push(x).drop_last() == s);
}

/// `<name attrs>`
pub open spec fn open_tag_text(name: Seq<char>, attrs: Seq<char>) -> Seq<char> {
    seq!['<'] + name + attrs + seq!['>']
}

/// `<name attrs/>`
pub open spec fn empty_tag_text(name: Seq<char>, attrs: Seq<char>) -> Seq<char> {
    seq!['<'] + name + attrs + seq!['/', '>']
}

/// `</name>`
pub open spec fn end_tag_text(name: Seq<char>) -> Seq<char> {
    seq!['<', '/'] + name + seq!['>']
}

// Every write below goes through `Writer::write_event`, whose only error is one of the
// underlying `io::Write::write_all`; the writers here write into a `Vec<u8>`, which appends
// and grows as needed, so the writes succeed.

/// A write that appended `text`: without indentation, the writer's bytes grew by the
/// UTF-8 of `text`.
pub open spec fn appended(
    before: quick_xml::Writer<Vec<u8>>,
    after: quick_xml::Writer<Vec<u8>>,
    text: Seq<char>,
) -> bool {
    !indented(before) ==> written(after) == written(before) + encode_utf8(text)
}

/// Two writes in a row append the concatenation of their texts.
pub proof fn lemma_appended_then(
    w0: quick_xml::Writer<Vec<u8>>,
    w1: quick_xml::Writer<Vec<u8>>,
    w2: quick_xml::Writer<Vec<u8>>,
    a: Seq<char>,
    b: Seq<char>,
)
    requires
        appended(w0, w1, a),
        appended(w1, w2, b),
        indented(w1) == indented(w0),
    ensures
        appended(w0, w2, a + b),
{
    lemma_encode_utf8_concat(a, b);
    assert(written(w0) + encode_utf8(a) + encode_utf8(b) == written(w0) + (encode_utf8(a)
        + encode_utf8(b)));
}

/// Nothing written appends the empty text.
pub proof fn lemma_appended_nothing(w: quick_xml::Writer<Vec<u8>>)
    ensures
        appended(w, w, seq![]),
{
    assert(encode_utf8(seq![]) == Seq::<u8>::empty());
    assert(written(w) + Seq::<u8>::empty() == written(w));
}

/// A writer without indentation over an empty `Vec<u8>` (`quick_xml::Writer::new`).
#[verifier::external_body]
pub(crate) fn new_writer() -> (w: Writer<Vec<u8>>)
    ensures
        written(w) == Seq::<u8>::empty(),
        !indented(w),
{
    Writer::new(Vec::new())
}

/// The bytes written so far (`quick_xml::Writer::into_inner`).
#[verifier::external_body]
pub(crate) fn into_inner(w: Writer<Vec<u8>>) -> (v: Vec<u8>)
    ensures
        v@ == written(w),
{
    w.into_inner()
}

/// Writes `<?xml version="1.0" encoding="UTF-8" standalone="yes"?>` through
/// `quick_xml::Writer::write_event` with a `BytesDecl` event, which writes the declaration
/// verbatim between `<?` and `?>`.
#[verifier::external_body]
pub fn write_xml_decl(w: &mut Writer<Vec<u8>>) -> (r: Result<(), SerializeError>)
    ensures
        r is Ok,
        indented(*final(w)) == indented(*old(w)),
        r is Ok ==> appended(
            *old(w),
            *final(w),
            "<?xml version=\"1.0\" encoding=\"UTF-8\" standalone=\"yes\"?>"@,
        ),
{
    w.write_event(Event::Decl(BytesDecl::new("1.0", Some("UTF-8"), Some("yes"))))
        .map_err(|e| SerializeError::XmlError(e.to_string()))?;
    Ok(())
}

/// Start tag without attributes: `quick_xml::Writer::write_event` with `Event::Start`
/// writes `<`, the name, `>`.
#[verifier::external_body]
pub fn start_tag(w: &mut Writer<Vec<u8>>, name: &str) -> (r: Result<(), SerializeError>)
    ensures
        r is Ok,
        indented(*final(w)) == indented(*old(w)),
        r is Ok ==> appended(*old(w), *final(w), open_tag_text(name@, seq![])),
{
    w.write_event(Event::Start(BytesStart::new(name)))
        .map_err(|e| SerializeError::XmlError(e.to_string()))?;
    Ok(())
}

/// Start tag with attributes: `BytesStart::with_attributes` adds ` key="value"` for each
/// pair, in order, with the value escaped by `quick_xml::escape::escape` (`<`, `>`, `&`,
/// `'`, `"`), and `write_event` with `Event::Start` writes `<`, the name and attributes, `>`.
#[verifier::external_body]
pub fn start_tag_attrs(w: &mut Writer<Vec<u8>>, name: &str, attrs: &[(&str, &str)]) -> (r: Result<
    (),
    SerializeError,
>)
    ensures
        r is Ok,
        indented(*final(w)) == indented(*old(w)),
        r is Ok ==> appended(*old(w), *final(w), open_tag_text(name@, attrs_text(attrs@))),
{
    let el = BytesStart::new(name).with_attributes(attrs.iter().copied());
    w.write_event(Event::Start(el)).map_err(|e| SerializeError::XmlError(e.to_string()))?;
    Ok(())
}

/// End tag: `write_event` with `Event::End` writes `</`, the name, `>`.
#[verifier::external_body]
pub fn end_tag(w: &mut Writer<Vec<u8>>, name: &str) -> (r: Result<(), SerializeError>)
    ensures
        r is Ok,
        indented(*final(w)) == indented(*old(w)),
        r is Ok ==> appended(*old(w), *final(w), end_tag_text(name@)),
{
    w.write_event(Event::End(BytesEnd::new(name)))
        .map_err(|e| SerializeError::XmlError(e.to_string()))?;
    Ok(())
}

/// Self-closing tag: as `start_tag_attrs`, but `Event::Empty` ends it with `/>`.
#[verifier::external_body]
pub fn empty_tag(w: &mut Writer<Vec<u8>>, name: &str, attrs: &[(&str, &str)]) -> (r: Result<
    (),
    SerializeError,
>)
    ensures
        r is Ok,
        indented(*final(w)) == indented(*old(w)),
        r is Ok ==> appended(*old(w), *final(w), empty_tag_text(name@, attrs_text(attrs@))),
{
    let el = BytesStart::new(name).with_attributes(attrs.iter().copied());
    w.write_event(Event::Empty(el)).map_err(|e| SerializeError::XmlError(e.to_string()))?;
    Ok(())
}

/// Text node: `BytesText::new` escapes the content with `quick_xml::escape::escape`
/// (`<`, `>`, `&`, `'`, `"`), and `write_event` with `Event::Text` writes it as it is.
#[verifier::external_body]
pub fn text(w: &mut Writer<Vec<u8>>, content: &str) -> (r: Result<(), SerializeError>)
    ensures
        r is Ok,
        indented(*final(w)) == indented(*old(w)),
        r is Ok ==> appended(*old(w), *final(w), escape_text(content@)),
{
    w.write_event(Event::Text(BytesText::new(content)))
        .map_err(|e| SerializeError::XmlError(e.to_string()))?;
    Ok(())
}

/// Markup that is already XML: `BytesText::from_escaped` keeps it as it is, and
/// `write_event` with `Event::Text` writes it verbatim.
#[verifier::external_body]
pub fn write_markup(w: &mut Writer<Vec<u8>>, markup: &str) -> (r: Result<(), SerializeError>)
    ensures
        r is Ok,
        indented(*final(w)) == indented(*old(w)),
        r is Ok ==> appended(*old(w), *final(w), markup@),
{
    w.write_event(Event::Text(BytesText::from_escaped(markup)))
        .map_err(|e| SerializeError::XmlError(e.to_string()))?;
    Ok(())
}

// ---- strings ----

/// `String::from_utf8`: the text of bytes that are valid UTF-8; for other bytes the error,
/// converted to its message (`FromUtf8Error::to_string`), whose wording is not stated here.
#[verifier::external_body]
pub(crate) fn string_from_utf8(bytes: Vec<u8>) -> (r: Result<String, String>)
    ensures
        r is Ok <==> valid_utf8(bytes@),
        r matches Ok(s) ==> s@ == decode_utf8(bytes@),
{
    String::from_utf8(bytes).map_err(|e| e.to_string())
}

/// `String::push`: appends one character.
#[verifier::external_body]
pub(crate) fn string_push(s: &mut String, c: char)
    ensures
        final(s)@ == old(s)@.push(c),
{
    s.push(c);
}

/// Escape of one character for XML attribute values and text.
pub open spec fn escape_char(c: char) -> Seq<char> {
    if c == '&' {
        seq!['&', 'a', 'm', 'p', ';']
    } else if c == '<' {
        seq!['&', 'l', 't', ';']
    } else if c == '>' {
        seq!['&', 'g', 't', ';']
    } else if c == '"' {
        seq!['&', 'q', 'u', 'o', 't', ';']
    } else if c == '\'' {
        seq!['&', 'a', 'p', 'o', 's', ';']
    } else {
        seq![c]
    }
}

pub open spec fn escape_text(s: Seq<char>) -> Seq<char>
    decreases s.len(),
{
    if s.len() == 0 {
        seq![]
    } else {
        escape_text(s.drop_last()) + escape_char(s.last())
    }
}

/// Appends the XML escape of one character.
fn push_escaped_char(out: &mut String, c: char)
    ensures
        final(out)@ == old(out)@ + escape_char(c),
{
    proof {
        reveal_strlit("&amp;");
        reveal_strlit("&lt;");
        reveal_strlit("&gt;");
        reveal_strlit("&quot;");
        reveal_strlit("&apos;");
    }
    if c == '&' {
        out.append("&amp;");
    } else if c == '<' {
        out.append("&lt;");
    } else if c == '>' {
        out.append("&gt;");
    } else if c == '"' {
        out.append("&quot;");
    } else if c == '\'' {
        out.append("&apos;");
    } else {
        string_push(out, c);
    }
}

pub fn xml_escape(s: &str) -> (out: String)
    ensures
        out@ == escape_text(s@),
{
    let mut out = String::new();
    broadcast use vstd::string::group_string_axioms;
    for c in it: s.chars()
        invariant
            it.seq() == s@,
            out@ == escape_text(s@.take(it.index() as int)),
    {
        assert(c == s@[it.index() as int]);
        assert(s@.take(it.index() + 1).drop_last() == s@.take(it.index() as int));
        push_escaped_char(&mut out, c);
    }
    assert(s@.take(s@.len() as int) == s@);
    out
}

// ---- character-shape runs (shared by cell text and body text) ----

/// The id of the first reference, or 0 when there is none.
pub open spec fn first_shape_id(s: Seq<CharShapeRef>) -> u32 {
    if s.len() > 0 {
        s[0].char_shape_id
    } else {
        0
    }
}

/// How many leading references start at or before `pos`.
pub open spec fn started_count(s: Seq<CharShapeRef>, pos: int) -> nat
    decreases s.len(),
{
    if s.len() == 0 || s[0].start_pos > pos {
        0
    } else {
        1 + started_count(s.drop_first(), pos)
    }
}

/// The character shape in force at UTF-16 position `pos`: that of the last reference of the
/// leading run of references starting at or before `pos` (references are sorted by start),
/// or the first one when none has started.
pub open spec fn active_shape_id(s: Seq<CharShapeRef>, pos: int) -> u32 {
    let k = started_count(s, pos);
    if k == 0 {
        first_shape_id(s)
    } else {
        s[k - 1].char_shape_id
    }
}

/// UTF-16 width of a character in HWP positions: a tab takes 8 units (with its extension
/// data), other characters their UTF-16 length.
pub open spec fn utf16_width(c: char) -> nat {
    if c == '\t' {
        8
    } else if (c as u32) < 0x10000 {
        1
    } else {
        2
    }
}

/// UTF-16 position of character `i` of `text`: from `offsets` where given, otherwise where
/// the previous character ends.
pub open spec fn char_pos(text: Seq<char>, offsets: Seq<u32>, i: int) -> int
    decreases i,
{
    if 0 <= i < offsets.len() {
        offsets[i] as int
    } else if i <= 0 {
        0
    } else {
        char_pos(text, offsets, i - 1) + utf16_width(text[i - 1])
    }
}

/// Where the first `k` characters end (0 for none).
pub open spec fn text_end(text: Seq<char>, offsets: Seq<u32>, k: int) -> int {
    if k <= 0 {
        0
    } else {
        char_pos(text, offsets, k - 1) + utf16_width(text[k - 1])
    }
}

/// Every character's end position fits in a `u32`.
pub open spec fn positions_fit(text: Seq<char>, offsets: Seq<u32>) -> bool {
    forall|i: int| 0 <= i < text.len() ==> #[trigger] text_end(text, offsets, i + 1) <= u32::MAX
}

/// The first `k` characters of `text`, grouped into maximal runs of equal active shape:
/// `(shape id, run text)` in order.
pub open spec fn shape_runs(
    text: Seq<char>,
    offsets: Seq<u32>,
    shapes: Seq<CharShapeRef>,
    k: int,
) -> Seq<(u32, Seq<char>)>
    decreases k,
{
    if k <= 0 {
        seq![]
    } else {
        let r = shape_runs(text, offsets, shapes, k - 1);
        let id = active_shape_id(shapes, char_pos(text, offsets, k - 1));
        let c = text[k - 1];
        if r.len() > 0 && r.last().0 == id {
            r.update(r.len() - 1, (id, r.last().1.push(c)))
        } else {
            r.push((id, seq![c]))
        }
    }
}

/// The runs as plain values.
pub open spec fn runs_view(v: Seq<(u32, String)>) -> Seq<(u32, Seq<char>)> {
    v.map_values(|p: (u32, String)| (p.0, p.1@))
}

/// Ids of the references, from the `skip`-th on (skipping the first when `skip_first`),
/// among the first `k`, that start at or after `end`, in order.
pub open spec fn trailing_refs(s: Seq<CharShapeRef>, end: int, skip_first: bool, k: int) -> Seq<
    u32,
>
    decreases k,
{
    if k <= 0 {
        seq![]
    } else {
        let r = trailing_refs(s, end, skip_first, k - 1);
        if !(skip_first && k - 1 == 0) && s[k - 1].start_pos >= end {
            r.push(s[k - 1].char_shape_id)
        } else {
            r
        }
    }
}

pub fn first_char_shape_id(char_shapes: &[CharShapeRef]) -> (id: u32)
    ensures
        id == first_shape_id(char_shapes@),
{
    if char_shapes.len() > 0 {
        char_shapes[0].char_shape_id
    } else {
        0
    }
}

proof fn lemma_started_count(s: Seq<CharShapeRef>, pos: int, i: int)
    requires
        0 <= i <= s.len(),
        forall|j: int| 0 <= j < i ==> s[j].start_pos <= pos,
        i == s.len() || s[i].start_pos > pos,
    ensures
        started_count(s, pos) == i,
    decreases i,
{
    if i > 0 {
        lemma_started_count(s.drop_first(), pos, i - 1);
    }
}

/// The character shape id in force at `utf16_pos`.
pub fn active_char_shape_id(char_shapes: &[CharShapeRef], utf16_pos: u32) -> (id: u32)
    ensures
        id == active_shape_id(char_shapes@, utf16_pos as int),
{
    let mut active_id = first_char_shape_id(char_shapes);
    let mut i: usize = 0;
    while i < char_shapes.len() && char_shapes[i].start_pos <= utf16_pos
        invariant
            i <= char_shapes.len(),
            forall|j: int| 0 <= j < i ==> char_shapes@[j].start_pos <= utf16_pos,
            active_id == if i == 0 {
                first_shape_id(char_shapes@)
            } else {
                char_shapes@[i - 1].char_shape_id
            },
        decreases char_shapes.len() - i,
    {
        active_id = char_shapes[i].char_shape_id;
        i += 1;
    }
    proof {
        lemma_started_count(char_shapes@, utf16_pos as int, i as int);
    }
    active_id
}

/// Width of `ch` in HWP UTF-16 positions (a tab counts 8).
pub fn char_utf16_len(ch: char) -> (n: u32)
    ensures
        n == utf16_width(ch),
{
    if ch == '\t' {
        8
    } else if (ch as u32) < 0x10000 {
        1
    } else {
        2
    }
}

proof fn lemma_runs_view_push(v: Seq<(u32, String)>, x: (u32, String))
    ensures
        runs_view(v.push(x)) == runs_view(v).push((x.0, x.1@)),
{
    assert(runs_view(v.push(x)) =~= runs_view(v).push((x.0, x.1@)));
}

/// Splits `text` into runs of equal character shape: `(char shape id, run text)` in order,
/// and the UTF-16 position where the text ends. A character's position is taken from
/// `char_offsets` where given, otherwise from where the previous character ends.
pub fn split_char_shape_runs(
    text: &str,
    char_offsets: &[u32],
    char_shapes: &[CharShapeRef],
) -> (res: (Vec<(u32, String)>, u32))
    requires
        positions_fit(text@, char_offsets@),
    ensures
        runs_view(res.0@) == shape_runs(text@, char_offsets@, char_shapes@, text@.len() as int),
        char_ids(runs_view(res.0@)) == Seq::new(
            text@.len(),
            |i: int| active_shape_id(char_shapes@, char_pos(text@, char_offsets@, i)),
        ),
        res.1 == text_end(text@, char_offsets@, text@.len() as int),
{
    let mut runs: Vec<(u32, String)> = Vec::new();
    let mut current_shape: Option<u32> = None;
    let mut current_text = String::new();
    let mut fallback_utf16_pos: u32 = 0;
    let n_chars = text.unicode_len();
    let mut idx: usize = 0;
    for ch in it: text.chars()
        invariant
            it.seq() == text@,
            n_chars == text@.len(),
            idx == it.index(),
            positions_fit(text@, char_offsets@),
            fallback_utf16_pos == text_end(text@, char_offsets@, it.index() as int),
            match current_shape {
                Some(id) => runs_view(runs@).push((id, current_text@)) == shape_runs(
                    text@,
                    char_offsets@,
                    char_shapes@,
                    it.index() as int,
                ),
                None => it.index() == 0 && runs@.len() == 0 && current_text@ == Seq::<char>::empty(),
            },
    {
        let ghost k = idx as int;
        assert(ch == text@[k]);
        let utf16_pos = if idx < char_offsets.len() {
            char_offsets[idx]
        } else {
            fallback_utf16_pos
        };
        assert(utf16_pos == char_pos(text@, char_offsets@, k));
        let shape_id = active_char_shape_id(char_shapes, utf16_pos);
        assert(text_end(text@, char_offsets@, k + 1) <= u32::MAX);
        fallback_utf16_pos = utf16_pos + char_utf16_len(ch);
        let ghost prev = shape_runs(text@, char_offsets@, char_shapes@, k);
        match current_shape {
            Some(existing) => {
                if existing != shape_id {
                    let piece = current_text;
                    current_text = String::new();
                    proof {
                        lemma_runs_view_push(runs@, (existing, piece));
                    }
                    runs.push((existing, piece));
                    string_push(&mut current_text, ch);
                    assert(runs_view(runs@).push((shape_id, current_text@)) == prev.push(
                        (shape_id, seq![ch]),
                    ));
                } else {
                    string_push(&mut current_text, ch);
                    assert(runs_view(runs@).push((shape_id, current_text@)) == prev.update(
                        prev.len() - 1,
                        (shape_id, prev.last().1.push(ch)),
                    ));
                }
            },
            None => {
                assert(runs_view(runs@) =~= Seq::<(u32, Seq<char>)>::empty());
                string_push(&mut current_text, ch);
                assert(runs_view(runs@).push((shape_id, current_text@)) =~= seq![
                    (shape_id, seq![ch]),
                ]);
            },
        }
        current_shape = Some(shape_id);
        idx = idx + 1;
    }
    match current_shape {
        Some(shape) => {
            proof {
                lemma_runs_view_push(runs@, (shape, current_text));
            }
            runs.push((shape, current_text));
        },
        None => {
            assert(runs_view(runs@) =~= Seq::<(u32, Seq<char>)>::empty());
        },
    }
    proof {
        lemma_shape_runs_follow_positions(text@, char_offsets@, char_shapes@, text@.len() as int);
    }
    (runs, fallback_utf16_pos)
}

/// Whether every character's end position fits in a `u32` (`positions_fit`), so that
/// `split_char_shape_runs` can be called.
pub fn text_positions_fit(text: &str, char_offsets: &[u32]) -> (b: bool)
    ensures
        b == positions_fit(text@, char_offsets@),
{
    let mut end: u64 = 0;
    let mut idx: usize = 0;
    let n_chars = text.unicode_len();
    for ch in it: text.chars()
        invariant
            it.seq() == text@,
            n_chars == text@.len(),
            idx == it.index(),
            end == text_end(text@, char_offsets@, it.index() as int),
            end <= u32::MAX,
            forall|j: int|
                0 <= j < it.index() ==> #[trigger] text_end(text@, char_offsets@, j + 1)
                    <= u32::MAX,
    {
        let ghost k = idx as int;
        assert(ch == text@[k]);
        let pos: u64 = if idx < char_offsets.len() {
            char_offsets[idx] as u64
        } else {
            end
        };
        assert(pos == char_pos(text@, char_offsets@, k));
        let next = pos + char_utf16_len(ch) as u64;
        assert(next == text_end(text@, char_offsets@, k + 1));
        if next > u32::MAX as u64 {
            return false;
        }
        end = next;
        idx = idx + 1;
    }
    true
}

/// Ids of zero-length character-shape runs that start at or after the end of the text
/// (`text_end_utf16`), in order; with `skip_first` the first reference is left out.
pub fn trailing_zero_length_refs(
    char_shapes: &[CharShapeRef],
    text_end_utf16: u32,
    skip_first: bool,
) -> (r: Vec<u32>)
    ensures
        r@ == trailing_refs(
            char_shapes@,
            text_end_utf16 as int,
            skip_first,
            char_shapes@.len() as int,
        ),
{
    let mut r: Vec<u32> = Vec::new();
    let mut i: usize = 0;
    while i < char_shapes.len()
        invariant
            i <= char_shapes.len(),
            r@ == trailing_refs(char_shapes@, text_end_utf16 as int, skip_first, i as int),
        decreases char_shapes.len() - i,
    {
        if !(skip_first && i == 0) && char_shapes[i].start_pos >= text_end_utf16 {
            r.push(char_shapes[i].char_shape_id);
        }
        i += 1;
    }
    r
}

// ---- laws ----

/// Whether `c` is one of the characters that mark up XML (`<`, `>`) or close an attribute
/// value (`"`, `'`). `&` is left out: escaped text holds it, as the start of an entity.
pub open spec fn is_markup_char(c: char) -> bool {
    c == '<' || c == '>' || c == '"' || c == '\''
}

/// Escaped text holds no `<`, `>`, `"` or `'`: it can stand in XML text and in attribute
/// values.
pub proof fn lemma_escape_text_plain(s: Seq<char>)
    ensures
        forall|i: int| 0 <= i < escape_text(s).len() ==> !is_markup_char(#[trigger] escape_text(s)[i]),
    decreases s.len(),
{
    if s.len() > 0 {
        lemma_escape_text_plain(s.drop_last());
        let a = escape_text(s.drop_last());
        let b = escape_char(s.last());
        assert forall|i: int| 0 <= i < escape_text(s).len() implies !is_markup_char(
            #[trigger] escape_text(s)[i],
        ) by {
            if i < a.len() {
                assert(escape_text(s)[i] == a[i]);
            } else {
                assert(escape_text(s)[i] == b[i - a.len()]);
            }
        }
    }
}

/// Text without `&`, `<`, `>`, `"`, `'` is its own escape.
pub proof fn lemma_escape_text_plain_id(s: Seq<char>)
    requires
        forall|i: int|
            0 <= i < s.len() ==> #[trigger] s[i] != '&' && s[i] != '<' && s[i] != '>' && s[i]
                != '"' && s[i] != '\'',
    ensures
        escape_text(s) == s,
    decreases s.len(),
{
    if s.len() > 0 {
        let d = s.drop_last();
        assert forall|i: int| 0 <= i < d.len() implies #[trigger] d[i] != '&' && d[i] != '<' && d[i]
            != '>' && d[i] != '"' && d[i] != '\'' by {
            assert(d[i] == s[i]);
        }
        lemma_escape_text_plain_id(d);
        assert(s.last() == s[s.len() - 1]);
        assert(d.push(s.last()) == s);
    }
}

/// An attribute with a value that needs no escape, after text that ends in a value's
/// closing quote.
pub proof fn lemma_next_attr(p: Seq<char>, lit: Seq<char>, key: Seq<char>, v: Seq<char>)
    requires
        escape_text(v) == v,
        lit == seq!['"', ' '] + key + seq!['=', '"'],
    ensures
        p + seq!['"'] + attr_text(key, v) == p + lit + v + seq!['"'],
{
    assert(p + seq!['"'] + attr_text(key, v) =~= p + lit + v + seq!['"']);
}

/// The first attribute of a tag, with a value that needs no escape.
pub proof fn lemma_first_attr(head: Seq<char>, lit: Seq<char>, key: Seq<char>, v: Seq<char>)
    requires
        escape_text(v) == v,
        lit == head + seq![' '] + key + seq!['=', '"'],
    ensures
        head + attr_text(key, v) == lit + v + seq!['"'],
{
    assert(head + attr_text(key, v) =~= lit + v + seq!['"']);
}

/// The end of one empty tag, and the first attribute of the next, with a value that needs no
/// escape.
pub proof fn lemma_next_tag_attr(
    p: Seq<char>,
    lit: Seq<char>,
    head: Seq<char>,
    key: Seq<char>,
    v: Seq<char>,
)
    requires
        escape_text(v) == v,
        lit == seq!['"', '/', '>'] + head + seq![' '] + key + seq!['=', '"'],
    ensures
        p + seq!['"'] + seq!['/', '>'] + head + attr_text(key, v) == p + lit + v + seq!['"'],
{
    assert(p + seq!['"'] + seq!['/', '>'] + head + attr_text(key, v) =~= p + lit + v + seq!['"']);
}

/// Reads escaped text back: the five entities `&amp;`, `&lt;`, `&gt;`, `&quot;`, `&apos;`
/// become their characters, every other character stays.
pub open spec fn unescape_text(s: Seq<char>) -> Seq<char>
    decreases s.len(),
{
    if s.len() == 0 {
        seq![]
    } else if s.len() >= 5 && s.subrange(0, 5) == seq!['&', 'a', 'm', 'p', ';'] {
        seq!['&'] + unescape_text(s.subrange(5, s.len() as int))
    } else if s.len() >= 4 && s.subrange(0, 4) == seq!['&', 'l', 't', ';'] {
        seq!['<'] + unescape_text(s.subrange(4, s.len() as int))
    } else if s.len() >= 4 && s.subrange(0, 4) == seq!['&', 'g', 't', ';'] {
        seq!['>'] + unescape_text(s.subrange(4, s.len() as int))
    } else if s.len() >= 6 && s.subrange(0, 6) == seq!['&', 'q', 'u', 'o', 't', ';'] {
        seq!['"'] + unescape_text(s.subrange(6, s.len() as int))
    } else if s.len() >= 6 && s.subrange(0, 6) == seq!['&', 'a', 'p', 'o', 's', ';'] {
        seq!['\''] + unescape_text(s.subrange(6, s.len() as int))
    } else {
        seq![s[0]] + unescape_text(s.drop_first())
    }
}

proof fn lemma_escape_text_concat(a: Seq<char>, b: Seq<char>)
    ensures
        escape_text(a + b) == escape_text(a) + escape_text(b),
    decreases b.len(),
{
    if b.len() > 0 {
        lemma_escape_text_concat(a, b.drop_last());
        assert((a + b).drop_last() == a + b.drop_last());
        assert((a + b).last() == b.last());
    } else {
        assert(a + b == a);
    }
}

proof fn lemma_unescape_char(c: char, r: Seq<char>)
    ensures
        unescape_text(escape_char(c) + r) == seq![c] + unescape_text(r),
{
    let e = escape_char(c) + r;
    if c == '&' {
        assert(e.subrange(0, 5) == seq!['&', 'a', 'm', 'p', ';']);
        assert(e.subrange(5, e.len() as int) == r);
    } else if c == '<' {
        assert(e.len() >= 5 ==> e.subrange(0, 5)[1] != 'a');
        assert(e.subrange(0, 4) == seq!['&', 'l', 't', ';']);
        assert(e.subrange(4, e.len() as int) == r);
    } else if c == '>' {
        assert(e.len() >= 5 ==> e.subrange(0, 5)[1] != 'a');
        assert(e.subrange(0, 4)[1] != 'l');
        assert(e.subrange(0, 4) == seq!['&', 'g', 't', ';']);
        assert(e.subrange(4, e.len() as int) == r);
    } else if c == '"' {
        assert(e.subrange(0, 5)[1] != 'a');
        assert(e.subrange(0, 4)[1] != 'l');
        assert(e.subrange(0, 4)[1] != 'g');
        assert(e.subrange(0, 6) == seq!['&', 'q', 'u', 'o', 't', ';']);
        assert(e.subrange(6, e.len() as int) == r);
    } else if c == '\'' {
        assert(e.subrange(0, 5)[4] != 'p');
        assert(e.subrange(0, 4)[1] != 'l');
        assert(e.subrange(0, 4)[1] != 'g');
        assert(e.subrange(0, 6)[1] != 'q');
        assert(e.subrange(0, 6) == seq!['&', 'a', 'p', 'o', 's', ';']);
        assert(e.subrange(6, e.len() as int) == r);
    } else {
        assert(e[0] == c);
        assert(e.len() >= 5 ==> e.subrange(0, 5)[0] != '&');
        assert(e.len() >= 4 ==> e.subrange(0, 4)[0] != '&');
        assert(e.len() >= 6 ==> e.subrange(0, 6)[0] != '&');
        assert(e.drop_first() == r);
    }
}

/// Escaping loses nothing: reading the escaped text back gives the text.
pub proof fn lemma_unescape_escape(s: Seq<char>)
    ensures
        unescape_text(escape_text(s)) == s,
    decreases s.len(),
{
    if s.len() > 0 {
        let t = s.drop_first();
        assert(s == seq![s[0]] + t);
        lemma_escape_text_concat(seq![s[0]], t);
        assert(escape_text(seq![s[0]]) == escape_char(s[0])) by {
            assert(seq![s[0]].drop_last() == Seq::<char>::empty());
            assert(seq![s[0]].last() == s[0]);
            assert(escape_text(Seq::<char>::empty()) == Seq::<char>::empty());
            assert(Seq::<char>::empty() + escape_char(s[0]) == escape_char(s[0]));
        }
        lemma_unescape_char(s[0], escape_text(t));
        lemma_unescape_escape(t);
    }
}

/// The texts of runs, one after the other.
pub open spec fn runs_text(rs: Seq<(u32, Seq<char>)>) -> Seq<char>
    decreases rs.len(),
{
    if rs.len() == 0 {
        seq![]
    } else {
        runs_text(rs.drop_last()) + rs.last().1
    }
}

/// The shape id of each character of the runs, in order: each run gives its id once per
/// character.
pub open spec fn char_ids(rs: Seq<(u32, Seq<char>)>) -> Seq<u32>
    decreases rs.len(),
{
    if rs.len() == 0 {
        seq![]
    } else {
        char_ids(rs.drop_last()) + Seq::new(rs.last().1.len(), |j: int| rs.last().0)
    }
}

/// Each character lies in a run of the shape in force at the character's own position:
/// its offset where one is given, otherwise where the character before it ends.
pub proof fn lemma_shape_runs_follow_positions(
    text: Seq<char>,
    offsets: Seq<u32>,
    shapes: Seq<CharShapeRef>,
    k: int,
)
    requires
        0 <= k <= text.len(),
    ensures
        char_ids(shape_runs(text, offsets, shapes, k)) == Seq::new(
            k as nat,
            |i: int| active_shape_id(shapes, char_pos(text, offsets, i)),
        ),
    decreases k,
{
    if k > 0 {
        lemma_shape_runs_follow_positions(text, offsets, shapes, k - 1);
        let r = shape_runs(text, offsets, shapes, k - 1);
        let id = active_shape_id(shapes, char_pos(text, offsets, k - 1));
        let c = text[k - 1];
        let want = Seq::new(
            k as nat,
            |i: int| active_shape_id(shapes, char_pos(text, offsets, i)),
        );
        let prev = Seq::new(
            (k - 1) as nat,
            |i: int| active_shape_id(shapes, char_pos(text, offsets, i)),
        );
        assert(want == prev.push(id));
        if r.len() > 0 && r.last().0 == id {
            let u = r.update(r.len() - 1, (id, r.last().1.push(c)));
            assert(u.drop_last() == r.drop_last());
            assert(u.last() == (id, r.last().1.push(c)));
            assert(Seq::new(r.last().1.push(c).len(), |j: int| id) == Seq::new(
                r.last().1.len(),
                |j: int| id,
            ).push(id));
            assert(char_ids(r) == char_ids(r.drop_last()) + Seq::new(r.last().1.len(), |j: int| r.last().0));
            assert(char_ids(u) == char_ids(r).push(id));
        } else {
            let u = r.push((id, seq![c]));
            assert(u.drop_last() == r);
            assert(Seq::new(seq![c].len(), |j: int| id) == seq![id]);
            assert(char_ids(u) == char_ids(r).push(id));
        }
    }
}

/// The runs of a text are a partition of it into maximal pieces of one shape: put back
/// together they give the text, none is empty, and neighbouring runs have different shapes.
pub proof fn lemma_shape_runs_partition(
    text: Seq<char>,
    offsets: Seq<u32>,
    shapes: Seq<CharShapeRef>,
    k: int,
)
    requires
        0 <= k <= text.len(),
    ensures
        runs_text(shape_runs(text, offsets, shapes, k)) == text.take(k),
        forall|j: int|
            0 <= j < shape_runs(text, offsets, shapes, k).len() ==> (#[trigger] shape_runs(
                text,
                offsets,
                shapes,
                k,
            )[j]).1.len() > 0,
        forall|j: int|
            0 < j < shape_runs(text, offsets, shapes, k).len() ==> shape_runs(
                text,
                offsets,
                shapes,
                k,
            )[j - 1].0 != (#[trigger] shape_runs(text, offsets, shapes, k)[j]).0,
    decreases k,
{
    if k > 0 {
        lemma_shape_runs_partition(text, offsets, shapes, k - 1);
        let r = shape_runs(text, offsets, shapes, k - 1);
        let id = active_shape_id(shapes, char_pos(text, offsets, k - 1));
        let c = text[k - 1];
        assert(text.take(k) == text.take(k - 1).push(c));
        if r.len() > 0 && r.last().0 == id {
            let u = r.update(r.len() - 1, (id, r.last().1.push(c)));
            assert(u.drop_last() == r.drop_last());
            assert(runs_text(r) == runs_text(r.drop_last()) + r.last().1);
            assert(runs_text(u) == runs_text(r.drop_last()) + r.last().1.push(c));
        } else {
            let u = r.push((id, seq![c]));
            assert(u.drop_last() == r);
        }
    }
}

} // verus!

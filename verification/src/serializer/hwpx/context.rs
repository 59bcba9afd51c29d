//! What the serializers record while they write: the ids of shared definitions (border/fill,
//! paragraph shape, style, character shape) that the written XML refers to, so that a caller
//! can check that each of them is defined in the document header.
use vstd::prelude::*;

use crate::model::document::Document;

use super::utils::{appended, indented, lemma_appended_nothing, lemma_appended_then};

verus! {

/// Ids of one kind: those the document defines, and those the written XML refers to.
pub struct IdRegistry {
    pub defined: Vec<u16>,
    pub referenced: Vec<u16>,
}

/// As `IdRegistry`, for 32-bit ids.
pub struct IdRegistry32 {
    pub defined: Vec<u32>,
    pub referenced: Vec<u32>,
}

/// Referenced ids that are not defined, each once, in the order of their first reference.
pub open spec fn missing_ids<T>(referenced: Seq<T>, defined: Seq<T>) -> Seq<T>
    decreases referenced.len(),
{
    if referenced.len() == 0 {
        seq![]
    } else {
        let m = missing_ids(referenced.drop_last(), defined);
        let x = referenced.last();
        if !defined.contains(x) && !m.contains(x) {
            m.push(x)
        } else {
            m
        }
    }
}

fn contains_u16(v: &Vec<u16>, x: u16) -> (r: bool)
    ensures
        r == v@.contains(x),
{
    let mut i: usize = 0;
    while i < v.len()
        invariant
            i <= v.len(),
            forall|j: int| 0 <= j < i ==> v@[j] != x,
        decreases v.len() - i,
    {
        if v[i] == x {
            return true;
        }
        i += 1;
    }
    false
}

fn contains_u32(v: &Vec<u32>, x: u32) -> (r: bool)
    ensures
        r == v@.contains(x),
{
    let mut i: usize = 0;
    while i < v.len()
        invariant
            i <= v.len(),
            forall|j: int| 0 <= j < i ==> v@[j] != x,
        decreases v.len() - i,
    {
        if v[i] == x {
            return true;
        }
        i += 1;
    }
    false
}

impl IdRegistry {
    /// Records a reference to `id`.
    pub fn reference(&mut self, id: u16)
        ensures
            final(self).defined@ == old(self).defined@,
            final(self).referenced@ == old(self).referenced@.push(id),
    {
        self.referenced.push(id);
    }

    /// Referenced ids that are not defined, each once, in the order of first reference.
    pub fn unresolved(&self) -> (r: Vec<u16>)
        ensures
            r@ == missing_ids(self.referenced@, self.defined@),
    {
        let mut r: Vec<u16> = Vec::new();
        let mut i: usize = 0;
        while i < self.referenced.len()
            invariant
                i <= self.referenced.len(),
                r@ == missing_ids(self.referenced@.take(i as int), self.defined@),
            decreases self.referenced.len() - i,
        {
            let x = self.referenced[i];
            assert(self.referenced@.take(i + 1).drop_last() == self.referenced@.take(i as int));
            if !contains_u16(&self.defined, x) && !contains_u16(&r, x) {
                r.push(x);
            }
            i += 1;
        }
        assert(self.referenced@.take(self.referenced@.len() as int) == self.referenced@);
        r
    }
}

impl IdRegistry32 {
    /// Records a reference to `id`.
    pub fn reference(&mut self, id: u32)
        ensures
            final(self).defined@ == old(self).defined@,
            final(self).referenced@ == old(self).referenced@.push(id),
    {
        self.referenced.push(id);
    }

    /// Referenced ids that are not defined, each once, in the order of first reference.
    pub fn unresolved(&self) -> (r: Vec<u32>)
        ensures
            r@ == missing_ids(self.referenced@, self.defined@),
    {
        let mut r: Vec<u32> = Vec::new();
        let mut i: usize = 0;
        while i < self.referenced.len()
            invariant
                i <= self.referenced.len(),
                r@ == missing_ids(self.referenced@.take(i as int), self.defined@),
            decreases self.referenced.len() - i,
        {
            let x = self.referenced[i];
            assert(self.referenced@.take(i + 1).drop_last() == self.referenced@.take(i as int));
            if !contains_u32(&self.defined, x) && !contains_u32(&r, x) {
                r.push(x);
            }
            i += 1;
        }
        assert(self.referenced@.take(self.referenced@.len() as int) == self.referenced@);
        r
    }
}

/// The references that serialization records.
pub struct SerializeContext {
    pub border_fill_ids: IdRegistry,
    pub para_shape_ids: IdRegistry,
    pub style_ids: IdRegistry,
    pub char_shape_ids: IdRegistry32,
}

/// What a serializer produces: the XML text, and the ids it refers to, in order; `fits`
/// says that every UTF-16 position computed on the way fits a `u32`.
pub struct Emitted {
    pub fits: bool,
    pub xml: Seq<char>,
    pub border_fills: Seq<u16>,
    pub para_shapes: Seq<u16>,
    pub styles: Seq<u16>,
    pub char_shapes: Seq<u32>,
}

/// XML text that refers to no id.
pub open spec fn xml_only(s: Seq<char>) -> Emitted {
    Emitted {
        fits: true,
        xml: s,
        border_fills: seq![],
        para_shapes: seq![],
        styles: seq![],
        char_shapes: seq![],
    }
}

/// Nothing.
pub open spec fn nothing() -> Emitted {
    xml_only(seq![])
}

/// `a`, then `b`.
#[verifier::opaque]
pub open spec fn then(a: Emitted, b: Emitted) -> Emitted {
    Emitted {
        fits: a.fits && b.fits,
        xml: a.xml + b.xml,
        border_fills: a.border_fills + b.border_fills,
        para_shapes: a.para_shapes + b.para_shapes,
        styles: a.styles + b.styles,
        char_shapes: a.char_shapes + b.char_shapes,
    }
}

/// What `then` is made of.
pub proof fn lemma_then(a: Emitted, b: Emitted)
    ensures
        then(a, b).fits == (a.fits && b.fits),
        then(a, b).xml == a.xml + b.xml,
        then(a, b).border_fills == a.border_fills + b.border_fills,
        then(a, b).para_shapes == a.para_shapes + b.para_shapes,
        then(a, b).styles == a.styles + b.styles,
        then(a, b).char_shapes == a.char_shapes + b.char_shapes,
{
    reveal(then);
}

/// `after` is `before` with the references of `e` recorded.
pub open spec fn recorded(before: SerializeContext, after: SerializeContext, e: Emitted) -> bool {
    &&& after.border_fill_ids.defined@ == before.border_fill_ids.defined@
    &&& after.para_shape_ids.defined@ == before.para_shape_ids.defined@
    &&& after.style_ids.defined@ == before.style_ids.defined@
    &&& after.char_shape_ids.defined@ == before.char_shape_ids.defined@
    &&& after.border_fill_ids.referenced@ == before.border_fill_ids.referenced@ + e.border_fills
    &&& after.para_shape_ids.referenced@ == before.para_shape_ids.referenced@ + e.para_shapes
    &&& after.style_ids.referenced@ == before.style_ids.referenced@ + e.styles
    &&& after.char_shape_ids.referenced@ == before.char_shape_ids.referenced@ + e.char_shapes
}

pub proof fn lemma_recorded_then(
    c0: SerializeContext,
    c1: SerializeContext,
    c2: SerializeContext,
    a: Emitted,
    b: Emitted,
)
    requires
        recorded(c0, c1, a),
        recorded(c1, c2, b),
    ensures
        recorded(c0, c2, then(a, b)),
{
    reveal(then);
    assert(c0.border_fill_ids.referenced@ + a.border_fills + b.border_fills
        == c0.border_fill_ids.referenced@ + (a.border_fills + b.border_fills));
    assert(c0.para_shape_ids.referenced@ + a.para_shapes + b.para_shapes
        == c0.para_shape_ids.referenced@ + (a.para_shapes + b.para_shapes));
    assert(c0.style_ids.referenced@ + a.styles + b.styles == c0.style_ids.referenced@ + (a.styles
        + b.styles));
    assert(c0.char_shape_ids.referenced@ + a.char_shapes + b.char_shapes
        == c0.char_shape_ids.referenced@ + (a.char_shapes + b.char_shapes));
}

pub proof fn lemma_recorded_nothing(c: SerializeContext)
    ensures
        recorded(c, c, nothing()),
{
    assert(c.border_fill_ids.referenced@ + Seq::<u16>::empty() == c.border_fill_ids.referenced@);
    assert(c.para_shape_ids.referenced@ + Seq::<u16>::empty() == c.para_shape_ids.referenced@);
    assert(c.style_ids.referenced@ + Seq::<u16>::empty() == c.style_ids.referenced@);
    assert(c.char_shape_ids.referenced@ + Seq::<u32>::empty() == c.char_shape_ids.referenced@);
}

/// `1, 2, ..., n`.
pub open spec fn ids_from_one(n: nat) -> Seq<u16> {
    Seq::new(n, |i: int| (i + 1) as u16)
}

/// `0, 1, ..., n - 1`.
pub open spec fn ids_from_zero(n: nat) -> Seq<u16> {
    Seq::new(n, |i: int| i as u16)
}

/// `0, 1, ..., n - 1`.
pub open spec fn ids32_from_zero(n: nat) -> Seq<u32> {
    Seq::new(n, |i: int| i as u32)
}

impl SerializeContext {
    /// The ids that `doc` defines (border/fills numbered from 1; character shapes,
    /// paragraph shapes and styles from 0), and no reference yet.
    pub fn collect_from_document(doc: &Document) -> (ctx: SerializeContext)
        ensures
            ctx.border_fill_ids.defined@ == ids_from_one(doc.border_fill_count as nat),
            ctx.para_shape_ids.defined@ == ids_from_zero(doc.para_shape_count as nat),
            ctx.style_ids.defined@ == ids_from_zero(doc.style_count as nat),
            ctx.char_shape_ids.defined@ == ids32_from_zero(doc.char_shape_count as nat),
            ctx.border_fill_ids.referenced@ == Seq::<u16>::empty(),
            ctx.para_shape_ids.referenced@ == Seq::<u16>::empty(),
            ctx.style_ids.referenced@ == Seq::<u16>::empty(),
            ctx.char_shape_ids.referenced@ == Seq::<u32>::empty(),
    {
        let mut bf: Vec<u16> = Vec::new();
        let mut i: u16 = 0;
        while i < doc.border_fill_count
            invariant
                i <= doc.border_fill_count,
                bf@ == ids_from_one(i as nat),
            decreases doc.border_fill_count - i,
        {
            bf.push(i + 1);
            i += 1;
            assert(bf@ == ids_from_one(i as nat));
        }
        SerializeContext {
            border_fill_ids: IdRegistry { defined: bf, referenced: Vec::new() },
            para_shape_ids: IdRegistry {
                defined: Self::count_ids(doc.para_shape_count),
                referenced: Vec::new(),
            },
            style_ids: IdRegistry { defined: Self::count_ids(doc.style_count), referenced: Vec::new() },
            char_shape_ids: IdRegistry32 {
                defined: Self::count_ids32(doc.char_shape_count),
                referenced: Vec::new(),
            },
        }
    }

    fn count_ids(n: u16) -> (v: Vec<u16>)
        ensures
            v@ == ids_from_zero(n as nat),
    {
        let mut v: Vec<u16> = Vec::new();
        let mut i: u16 = 0;
        while i < n
            invariant
                i <= n,
                v@ == ids_from_zero(i as nat),
            decreases n - i,
        {
            v.push(i);
            i += 1;
            assert(v@ == ids_from_zero(i as nat));
        }
        v
    }

    fn count_ids32(n: u32) -> (v: Vec<u32>)
        ensures
            v@ == ids32_from_zero(n as nat),
    {
        let mut v: Vec<u32> = Vec::new();
        let mut i: u32 = 0;
        while i < n
            invariant
                i <= n,
                v@ == ids32_from_zero(i as nat),
            decreases n - i,
        {
            v.push(i);
            i += 1;
            assert(v@ == ids32_from_zero(i as nat));
        }
        v
    }
}

/// From writer `w0` and context `c0` to `w` and `c`, exactly `e` was written and recorded.
pub open spec fn progress(
    w0: quick_xml::Writer<Vec<u8>>,
    c0: SerializeContext,
    w: quick_xml::Writer<Vec<u8>>,
    c: SerializeContext,
    e: Emitted,
) -> bool {
    &&& indented(w) == indented(w0)
    &&& appended(w0, w, e.xml)
    &&& recorded(c0, c, e)
}

pub proof fn lemma_progress_then(
    w0: quick_xml::Writer<Vec<u8>>,
    c0: SerializeContext,
    w1: quick_xml::Writer<Vec<u8>>,
    c1: SerializeContext,
    w2: quick_xml::Writer<Vec<u8>>,
    c2: SerializeContext,
    a: Emitted,
    b: Emitted,
)
    requires
        progress(w0, c0, w1, c1, a),
        progress(w1, c1, w2, c2, b),
    ensures
        progress(w0, c0, w2, c2, then(a, b)),
{
    reveal(then);
    lemma_appended_then(w0, w1, w2, a.xml, b.xml);
    lemma_recorded_then(c0, c1, c2, a, b);
}

pub proof fn lemma_progress_nothing(w: quick_xml::Writer<Vec<u8>>, c: SerializeContext)
    ensures
        progress(w, c, w, c, nothing()),
{
    lemma_appended_nothing(w);
    lemma_recorded_nothing(c);
}

/// A write of `x` that records nothing.
pub proof fn lemma_progress_xml(
    w1: quick_xml::Writer<Vec<u8>>,
    w2: quick_xml::Writer<Vec<u8>>,
    c: SerializeContext,
    x: Seq<char>,
)
    requires
        appended(w1, w2, x),
        indented(w2) == indented(w1),
    ensures
        progress(w1, c, w2, c, xml_only(x)),
{
    lemma_recorded_nothing(c);
}

/// The unresolved ids are exactly the referenced ids that are not defined, each listed once.
pub proof fn lemma_missing_ids<T>(referenced: Seq<T>, defined: Seq<T>)
    ensures
        forall|x: T|
            #[trigger] missing_ids(referenced, defined).contains(x) <==> (referenced.contains(x)
                && !defined.contains(x)),
        missing_ids(referenced, defined).no_duplicates(),
    decreases referenced.len(),
{
    if referenced.len() > 0 {
        let r0 = referenced.drop_last();
        let m = missing_ids(r0, defined);
        let x = referenced.last();
        lemma_missing_ids(r0, defined);
        assert(referenced == r0.push(x));
        assert forall|y: T| #[trigger] referenced.contains(y) <==> (r0.contains(y) || y == x) by {
            if referenced.contains(y) {
                let i = choose|i: int| 0 <= i < referenced.len() && referenced[i] == y;
                if i < r0.len() {
                    assert(r0[i] == y);
                }
            }
            if r0.contains(y) {
                let i = choose|i: int| 0 <= i < r0.len() && r0[i] == y;
                assert(referenced[i] == y);
            }
            if y == x {
                assert(referenced[referenced.len() - 1] == y);
            }
        }
        if !defined.contains(x) && !m.contains(x) {
            let m2 = m.push(x);
            assert forall|y: T| #[trigger] m2.contains(y) <==> (m.contains(y) || y == x) by {
                if m2.contains(y) {
                    let i = choose|i: int| 0 <= i < m2.len() && m2[i] == y;
                    if i < m.len() {
                        assert(m[i] == y);
                    }
                }
                if m.contains(y) {
                    let i = choose|i: int| 0 <= i < m.len() && m[i] == y;
                    assert(m2[i] == y);
                }
                if y == x {
                    assert(m2[m.len() as int] == y);
                }
            }
            assert forall|i: int, j: int| 0 <= i < m2.len() && 0 <= j < m2.len() && i != j implies m2[i]
                != m2[j] by {
                if i < m.len() && j < m.len() {
                } else if i < m.len() {
                    assert(m.contains(m2[i]));
                } else if j < m.len() {
                    assert(m.contains(m2[j]));
                }
            }
        }
    }
}

} // verus!

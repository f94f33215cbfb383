//! Warnings for content that a redaction leaves in place and that the
//! caller should know of: annotation texts and form-field values whose
//! rectangles intersect a redaction region.

use crate::app_error::{format_with_number, with_number};
use crate::pdf_engine::edit_redact::{PdfRectIn, RedactRegion};
use crate::pdf_engine::redact_checks::{
    ask, decides, dict_rect, dict_string, dict_text, field_value, field_value_of, hits, is_widget,
    is_widget_dict, page_annot_ids, page_annots, rect_of, RectNumbers,
};
use crate::pdf_engine::redact_graph::ids_contain;
use crate::pdf_model::{get_dictionary, ObjectId, PdfDocument, PdfObject};
use crate::pdf_names::{contents, contents_key, rect, rect_key};
use crate::text::{is_blank_text, text_is_blank};
use vstd::prelude::*;

verus! {

/// The texts of a sequence of strings.
pub open spec fn texts(v: Seq<String>) -> Seq<Seq<char>> {
    v.map_values(|s: String| s@)
}

/// `no - 1`, or 0 for 0: the page index of a page number.
pub open spec fn index_of_page_no(no: u32) -> u32 {
    if no == 0 {
        0
    } else {
        (no - 1) as u32
    }
}

/// Some region targets page index `pi`.
pub open spec fn regions_on(regions: Seq<RedactRegion>, pi: u32) -> bool {
    exists|k: int| 0 <= k < regions.len() && (#[trigger] regions[k]).page_index == pi
}

/// Some region on page index `pi` intersects the rectangle `q`.
pub open spec fn region_hit<F: Fn(&PdfObject, &PdfObject, &PdfObject, &PdfObject, &PdfRectIn) -> bool>(
    f: F,
    regions: Seq<RedactRegion>,
    pi: u32,
    q: RectNumbers,
) -> bool {
    exists|k: int| 0 <= k < regions.len() && (#[trigger] regions[k]).page_index == pi && hits(f, q, regions[k].rect)
}

pub(crate) fn any_region_on(regions: &[RedactRegion], pi: u32) -> (r: bool)
    ensures
        r == regions_on(regions@, pi),
{
    let n = regions.len();
    let mut k: usize = 0;
    while k < n
        invariant
            n == regions@.len(),
            k <= n,
            forall|t: int| 0 <= t < k ==> (#[trigger] regions@[t]).page_index != pi,
        decreases n - k,
    {
        if regions[k].page_index == pi {
            return true;
        }
        k = k + 1;
    }
    false
}

pub(crate) fn any_region_hit<F: Fn(&PdfObject, &PdfObject, &PdfObject, &PdfObject, &PdfRectIn) -> bool>(
    f: &F,
    regions: &[RedactRegion],
    pi: u32,
    q: (&PdfObject, &PdfObject, &PdfObject, &PdfObject),
) -> (r: bool)
    requires
        decides(*f),
    ensures
        r == region_hit(*f, regions@, pi, (*q.0, *q.1, *q.2, *q.3)),
{
    let n = regions.len();
    let mut k: usize = 0;
    while k < n
        invariant
            n == regions@.len(),
            k <= n,
            decides(*f),
            forall|t: int| 0 <= t < k ==> !((#[trigger] regions@[t]).page_index == pi && hits(*f, (*q.0, *q.1, *q.2, *q.3), regions@[t].rect)),
        decreases n - k,
    {
        if regions[k].page_index == pi && ask(f, q.0, q.1, q.2, q.3, &regions[k].rect) {
            return true;
        }
        k = k + 1;
    }
    false
}

/// The warning for an annotation with text left on page `page_no`.
pub open spec fn annot_message(page_no: u32) -> Seq<char> {
    with_number("An annotation on page "@, page_no as nat,
        " still contains text that intersects a redaction region."@)
}

/// The warning for a form field with a value left on page `page_no`.
pub open spec fn field_message(page_no: u32) -> Seq<char> {
    with_number("A form field on page "@, page_no as nat,
        " still holds a value that intersects a redaction region."@)
}

/// An annotation whose `/Contents` is not blank and whose `/Rect`
/// intersects a region on page index `pi`.
pub open spec fn annot_flagged<F: Fn(&PdfObject, &PdfObject, &PdfObject, &PdfObject, &PdfRectIn) -> bool>(
    doc: PdfDocument,
    f: F,
    regions: Seq<RedactRegion>,
    pi: u32,
    annot_id: ObjectId,
) -> bool {
    match get_dictionary(doc, annot_id) {
        None => false,
        Some(a) => match dict_text(doc, a, contents()) {
            None => false,
            Some(t) => !is_blank_text(t) && match rect_of(doc, a, rect()) {
                None => false,
                Some(q) => region_hit(f, regions, pi, q),
            },
        },
    }
}

/// Warnings for the annotations `ids` of page `page_no`, in order.
pub open spec fn annot_page_warnings<F: Fn(&PdfObject, &PdfObject, &PdfObject, &PdfObject, &PdfRectIn) -> bool>(
    doc: PdfDocument,
    f: F,
    regions: Seq<RedactRegion>,
    page_no: u32,
    ids: Seq<ObjectId>,
) -> Seq<Seq<char>>
    decreases ids.len(),
{
    if ids.len() == 0 {
        seq![]
    } else {
        let w = annot_page_warnings(doc, f, regions, page_no, ids.drop_last());
        if annot_flagged(doc, f, regions, index_of_page_no(page_no), ids.last()) {
            w.push(annot_message(page_no))
        } else {
            w
        }
    }
}

/// Annotation warnings over all pages that carry a region, in page order.
pub open spec fn annot_warnings<F: Fn(&PdfObject, &PdfObject, &PdfObject, &PdfObject, &PdfRectIn) -> bool>(
    doc: PdfDocument,
    f: F,
    regions: Seq<RedactRegion>,
    pages: Seq<(u32, ObjectId)>,
) -> Seq<Seq<char>>
    decreases pages.len(),
{
    if pages.len() == 0 {
        seq![]
    } else {
        let (no, id) = pages.last();
        annot_warnings(doc, f, regions, pages.drop_last()) + if regions_on(regions, index_of_page_no(no)) {
            annot_page_warnings(doc, f, regions, no, page_annots(doc, id))
        } else {
            Seq::<Seq<char>>::empty()
        }
    }
}

fn annot_is_flagged<F: Fn(&PdfObject, &PdfObject, &PdfObject, &PdfObject, &PdfRectIn) -> bool>(
    doc: &PdfDocument,
    f: &F,
    regions: &[RedactRegion],
    pi: u32,
    annot_id: ObjectId,
) -> (r: bool)
    requires
        decides(*f),
    ensures
        r == annot_flagged(*doc, *f, regions@, pi, annot_id),
{
    let annot = match doc.get_dictionary(annot_id) {
        Some(a) => a,
        None => {
            return false;
        },
    };
    let ck = contents_key();
    let text = match dict_string(doc, annot, ck.as_slice()) {
        Some(t) => t,
        None => {
            return false;
        },
    };
    if text_is_blank(text.as_str()) {
        return false;
    }
    let rk = rect_key();
    match dict_rect(doc, annot, rk.as_slice()) {
        Some(q) => any_region_hit(f, regions, pi, q),
        None => false,
    }
}

pub(crate) fn warn_intersecting_annots<F: Fn(&PdfObject, &PdfObject, &PdfObject, &PdfObject, &PdfRectIn) -> bool>(
    doc: &PdfDocument,
    pages: &Vec<(u32, ObjectId)>,
    regions: &[RedactRegion],
    f: &F,
    warnings: &mut Vec<String>,
)
    requires
        decides(*f),
    ensures
        texts(final(warnings)@) == texts(old(warnings)@) + annot_warnings(*doc, *f, regions@, pages@),
{
    let ghost w0 = texts(warnings@);
    let n = pages.len();
    let mut i: usize = 0;
    assert(pages@.take(0) =~= Seq::<(u32, ObjectId)>::empty());
    assert(w0 + Seq::<Seq<char>>::empty() =~= w0);
    while i < n
        invariant
            n == pages@.len(),
            i <= n,
            decides(*f),
            texts(warnings@) == w0 + annot_warnings(*doc, *f, regions@, pages@.take(i as int)),
        decreases n - i,
    {
        let page_no = pages[i].0;
        let page_id = pages[i].1;
        let page_index = page_no.saturating_sub(1);
        let ghost wi = texts(warnings@);
        assert(pages@.take(i + 1).drop_last() =~= pages@.take(i as int));
        assert(pages@.take(i + 1).last() == pages@[i as int]);
        if any_region_on(regions, page_index) {
            let ids = page_annot_ids(doc, page_id);
            let m = ids.len();
            let mut k: usize = 0;
            assert(ids@.take(0) =~= Seq::<ObjectId>::empty());
            assert(wi + Seq::<Seq<char>>::empty() =~= wi);
            while k < m
                invariant
                    m == ids@.len(),
                    k <= m,
                    decides(*f),
                    page_index == index_of_page_no(page_no),
                    texts(warnings@) == wi + annot_page_warnings(*doc, *f, regions@, page_no, ids@.take(k as int)),
                decreases m - k,
            {
                assert(ids@.take(k + 1).drop_last() =~= ids@.take(k as int));
                assert(ids@.take(k + 1).last() == ids@[k as int]);
                if annot_is_flagged(doc, f, regions, page_index, ids[k]) {
                    let msg = format_with_number(
                        "An annotation on page ",
                        page_no as u64,
                        " still contains text that intersects a redaction region.",
                    );
                    let ghost before = texts(warnings@);
                    warnings.push(msg);
                    assert(texts(warnings@) =~= before.push(msg@));
                }
                k = k + 1;
            }
            assert(ids@.take(m as int) =~= ids@);
            assert(texts(warnings@) =~= wi + annot_page_warnings(*doc, *f, regions@, page_no, page_annots(*doc, page_id)));
        } else {
            assert(wi + Seq::<Seq<char>>::empty() =~= wi);
        }
        assert(texts(warnings@) =~= w0 + annot_warnings(*doc, *f, regions@, pages@.take(i + 1)));
        i = i + 1;
    }
    assert(pages@.take(n as int) =~= pages@);
}

/// A widget annotation or field whose (inherited) value is not blank and
/// whose `/Rect` intersects a region on page index `pi`.
pub open spec fn widget_flagged<F: Fn(&PdfObject, &PdfObject, &PdfObject, &PdfObject, &PdfRectIn) -> bool>(
    doc: PdfDocument,
    f: F,
    regions: Seq<RedactRegion>,
    pi: u32,
    annot_id: ObjectId,
) -> bool {
    match get_dictionary(doc, annot_id) {
        None => false,
        Some(a) => is_widget(a) && match field_value_of(doc, annot_id) {
            None => false,
            Some(t) => !is_blank_text(t) && match rect_of(doc, a, rect()) {
                None => false,
                Some(q) => region_hit(f, regions, pi, q),
            },
        },
    }
}

/// Warnings for the widgets among `ids` on page `page_no`, and the widgets
/// warned about.
pub open spec fn widget_page_pass<F: Fn(&PdfObject, &PdfObject, &PdfObject, &PdfObject, &PdfRectIn) -> bool>(
    doc: PdfDocument,
    f: F,
    regions: Seq<RedactRegion>,
    page_no: u32,
    ids: Seq<ObjectId>,
) -> (Seq<Seq<char>>, Seq<ObjectId>)
    decreases ids.len(),
{
    if ids.len() == 0 {
        (seq![], seq![])
    } else {
        let (w, wd) = widget_page_pass(doc, f, regions, page_no, ids.drop_last());
        if widget_flagged(doc, f, regions, index_of_page_no(page_no), ids.last()) {
            (w.push(field_message(page_no)), wd.push(ids.last()))
        } else {
            (w, wd)
        }
    }
}

/// Widget warnings over all pages that carry a region, and the widgets
/// warned about.
pub open spec fn widget_pass<F: Fn(&PdfObject, &PdfObject, &PdfObject, &PdfObject, &PdfRectIn) -> bool>(
    doc: PdfDocument,
    f: F,
    regions: Seq<RedactRegion>,
    pages: Seq<(u32, ObjectId)>,
) -> (Seq<Seq<char>>, Seq<ObjectId>)
    decreases pages.len(),
{
    if pages.len() == 0 {
        (seq![], seq![])
    } else {
        let (no, id) = pages.last();
        let (w, wd) = widget_pass(doc, f, regions, pages.drop_last());
        if regions_on(regions, index_of_page_no(no)) {
            let (w2, wd2) = widget_page_pass(doc, f, regions, no, page_annots(doc, id));
            (w + w2, wd + wd2)
        } else {
            (w, wd)
        }
    }
}

fn widget_is_flagged<F: Fn(&PdfObject, &PdfObject, &PdfObject, &PdfObject, &PdfRectIn) -> bool>(
    doc: &PdfDocument,
    f: &F,
    regions: &[RedactRegion],
    pi: u32,
    annot_id: ObjectId,
) -> (r: bool)
    requires
        decides(*f),
    ensures
        r == widget_flagged(*doc, *f, regions@, pi, annot_id),
{
    let annot = match doc.get_dictionary(annot_id) {
        Some(a) => a,
        None => {
            return false;
        },
    };
    if !is_widget_dict(annot) {
        return false;
    }
    let value = match field_value(doc, annot_id) {
        Some(t) => t,
        None => {
            return false;
        },
    };
    if text_is_blank(value.as_str()) {
        return false;
    }
    let rk = rect_key();
    match dict_rect(doc, annot, rk.as_slice()) {
        Some(q) => any_region_hit(f, regions, pi, q),
        None => false,
    }
}

pub(crate) fn warn_intersecting_widgets<F: Fn(&PdfObject, &PdfObject, &PdfObject, &PdfObject, &PdfRectIn) -> bool>(
    doc: &PdfDocument,
    pages: &Vec<(u32, ObjectId)>,
    regions: &[RedactRegion],
    f: &F,
    warnings: &mut Vec<String>,
    warned: &mut Vec<ObjectId>,
)
    requires
        decides(*f),
    ensures
        texts(final(warnings)@) == texts(old(warnings)@) + widget_pass(*doc, *f, regions@, pages@).0,
        final(warned)@ == old(warned)@ + widget_pass(*doc, *f, regions@, pages@).1,
{
    let ghost w0 = texts(warnings@);
    let ghost d0 = warned@;
    let n = pages.len();
    let mut i: usize = 0;
    assert(pages@.take(0) =~= Seq::<(u32, ObjectId)>::empty());
    assert(w0 + Seq::<Seq<char>>::empty() =~= w0);
    assert(d0 + Seq::<ObjectId>::empty() =~= d0);
    while i < n
        invariant
            n == pages@.len(),
            i <= n,
            decides(*f),
            texts(warnings@) == w0 + widget_pass(*doc, *f, regions@, pages@.take(i as int)).0,
            warned@ == d0 + widget_pass(*doc, *f, regions@, pages@.take(i as int)).1,
        decreases n - i,
    {
        let page_no = pages[i].0;
        let page_id = pages[i].1;
        let page_index = page_no.saturating_sub(1);
        let ghost wi = texts(warnings@);
        let ghost di = warned@;
        assert(pages@.take(i + 1).drop_last() =~= pages@.take(i as int));
        assert(pages@.take(i + 1).last() == pages@[i as int]);
        if any_region_on(regions, page_index) {
            let ids = page_annot_ids(doc, page_id);
            let m = ids.len();
            let mut k: usize = 0;
            assert(ids@.take(0) =~= Seq::<ObjectId>::empty());
            assert(wi + Seq::<Seq<char>>::empty() =~= wi);
            assert(di + Seq::<ObjectId>::empty() =~= di);
            while k < m
                invariant
                    m == ids@.len(),
                    k <= m,
                    decides(*f),
                    page_index == index_of_page_no(page_no),
                    texts(warnings@) == wi + widget_page_pass(*doc, *f, regions@, page_no, ids@.take(k as int)).0,
                    warned@ == di + widget_page_pass(*doc, *f, regions@, page_no, ids@.take(k as int)).1,
                decreases m - k,
            {
                assert(ids@.take(k + 1).drop_last() =~= ids@.take(k as int));
                assert(ids@.take(k + 1).last() == ids@[k as int]);
                if widget_is_flagged(doc, f, regions, page_index, ids[k]) {
                    let msg = format_with_number(
                        "A form field on page ",
                        page_no as u64,
                        " still holds a value that intersects a redaction region.",
                    );
                    let ghost before = texts(warnings@);
                    let ghost before_d = warned@;
                    warned.push(ids[k]);
                    warnings.push(msg);
                    assert(texts(warnings@) =~= before.push(msg@));
                    assert(warned@ =~= before_d.push(ids@[k as int]));
                }
                k = k + 1;
            }
            assert(ids@.take(m as int) =~= ids@);
        } else {
            assert(wi + Seq::<Seq<char>>::empty() =~= wi);
        }
        assert(texts(warnings@) =~= w0 + widget_pass(*doc, *f, regions@, pages@.take(i + 1)).0);
        assert(warned@ =~= d0 + widget_pass(*doc, *f, regions@, pages@.take(i + 1)).1);
        i = i + 1;
    }
    assert(pages@.take(n as int) =~= pages@);
}

} // verus!

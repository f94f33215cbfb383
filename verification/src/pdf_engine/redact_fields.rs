//! Form fields of the document's interactive form (`/AcroForm`): their
//! ids, the rectangles of their widgets, and whether a leftover value lies
//! in a redaction region. After flattening, a widget may be gone from a
//! page's `/Annots` while its value still lives on the form's fields.

use crate::app_error::format_with_number;
use crate::pdf_engine::edit_redact::{pages_numberable, PdfRectIn, RedactRegion};
use crate::pdf_engine::redact_checks::{
    ask, decides, dict_rect, field_value, field_value_of, hits, page_index_lookup, page_index_of,
    rect_of, references_in, refs_in, RectNumbers,
};
use crate::pdf_engine::redact_graph::{
    ids_contain, known, lemma_get_object_stored, lemma_known_bound, lemma_known_grows,
    lemma_known_push_new, lemma_prefix_push, lemma_prefix_trans,
};
use crate::pdf_engine::redact_warnings::{
    field_message, texts, warn_intersecting_widgets, widget_pass,
};
use crate::pdf_model::{
    catalog, dict_from, dict_get, get_dictionary, ref_under, resolve, ObjectId, PdfDictionary,
    PdfDocument, PdfObject,
};
use crate::pdf_names::{
    acro_form, acro_form_key, fields, fields_key, kids, kids_key, p_key, p_name, rect, rect_key,
};
use crate::text::{is_blank_text, text_is_blank};
use vstd::prelude::*;

verus! {

/// The references in a field's direct `/Kids` array.
pub open spec fn kid_refs(d: PdfDictionary) -> Seq<ObjectId> {
    match dict_get(d, kids()) {
        Some(PdfObject::Array(k)) => refs_in(k@),
        _ => seq![],
    }
}

/// Depth-first walk of the field tree from a stack of ids (the last is
/// taken first); each id is listed once, and the kids of a field that
/// loads as a dictionary are pushed in order.
pub open spec fn field_walk(doc: PdfDocument, stack: Seq<ObjectId>, seen: Seq<ObjectId>, out: Seq<ObjectId>, fuel: nat) -> Seq<ObjectId>
    decreases fuel, stack.len(),
{
    if stack.len() == 0 {
        out
    } else {
        let id = stack.last();
        let rest = stack.drop_last();
        if seen.contains(id) {
            field_walk(doc, rest, seen, out, fuel)
        } else {
            match get_dictionary(doc, id) {
                None => field_walk(doc, rest, seen.push(id), out.push(id), fuel),
                Some(d) => if fuel == 0 {
                    out.push(id)
                } else {
                    field_walk(doc, rest + kid_refs(d), seen.push(id), out.push(id), (fuel - 1) as nat)
                },
            }
        }
    }
}

/// The references of the form's `/Fields` array (inline or by reference).
pub open spec fn acroform_root_fields(doc: PdfDocument) -> Seq<ObjectId> {
    match catalog(doc) {
        None => seq![],
        Some(c) => match dict_get(c, acro_form()) {
            None => seq![],
            Some(a) => match dict_from(doc, a) {
                None => seq![],
                Some(acro) => match dict_get(acro, fields()) {
                    None => seq![],
                    Some(fo) => match resolve(doc, fo) {
                        Some(PdfObject::Array(items)) => refs_in(items@),
                        _ => seq![],
                    },
                },
            },
        },
    }
}

/// Every field id of the interactive form, in walk order.
pub open spec fn acroform_fields(doc: PdfDocument) -> Seq<ObjectId> {
    field_walk(doc, acroform_root_fields(doc), seq![], seq![], doc.objects@.len())
}

fn acroform_root_field_ids(doc: &PdfDocument) -> (r: Vec<ObjectId>)
    ensures
        r@ == acroform_root_fields(*doc),
{
    let cat = match doc.catalog() {
        Some(c) => c,
        None => {
            return Vec::new();
        },
    };
    let ak = acro_form_key();
    let a = match cat.get(ak.as_slice()) {
        Some(a) => a,
        None => {
            return Vec::new();
        },
    };
    let acro = match doc.dict_from(a) {
        Some(d) => d,
        None => {
            return Vec::new();
        },
    };
    let fk = fields_key();
    let fo = match acro.get(fk.as_slice()) {
        Some(x) => x,
        None => {
            return Vec::new();
        },
    };
    match doc.resolve(fo) {
        Some(PdfObject::Array(items)) => references_in(items),
        _ => Vec::new(),
    }
}

pub(crate) fn acroform_field_ids(doc: &PdfDocument) -> (r: Vec<ObjectId>)
    ensures
        r@ == acroform_fields(*doc),
{
    let mut stack = acroform_root_field_ids(doc);
    let mut seen: Vec<ObjectId> = Vec::new();
    let mut out: Vec<ObjectId> = Vec::new();
    let ghost mut fuel: nat = doc.objects@.len();
    let kk = kids_key();
    proof {
        assert(known(*doc, seen@) =~= Set::<ObjectId>::empty());
    }
    loop
        invariant_except_break
            kk@ == kids(),
            fuel + known(*doc, seen@).len() >= doc.objects@.len(),
            field_walk(*doc, stack@, seen@, out@, fuel) == acroform_fields(*doc),
        ensures
            out@ == acroform_fields(*doc),
        decreases fuel, stack@.len(),
    {
        proof {
            lemma_known_bound(*doc, seen@);
        }
        let ghost stack0 = stack@;
        let ghost seen_s = seen@;
        let ghost out_s = out@;
        let ghost fuel_s = fuel;
        match stack.pop() {
            None => {
                break;
            },
            Some(id) => {
                assert(stack0.last() == id && stack0.drop_last() =~= stack@);
                if !ids_contain(&seen, id) {
                    let ghost seen0 = seen@;
                    seen.push(id);
                    out.push(id);
                    proof {
                        lemma_prefix_push(seen0, id);
                        lemma_known_grows(*doc, seen0, seen@);
                        lemma_known_bound(*doc, seen@);
                    }
                    match doc.get_dictionary(id) {
                        Some(dict) => {
                            proof {
                                lemma_get_object_stored(*doc, id);
                                lemma_known_push_new(*doc, seen0, id);
                            }
                            let ghost rest = stack@;
                            match dict.get(kk.as_slice()) {
                                Some(PdfObject::Array(ks)) => {
                                    let refs = references_in(ks);
                                    let m = refs.len();
                                    let mut t: usize = 0;
                                    while t < m
                                        invariant
                                            m == refs@.len(),
                                            t <= m,
                                            stack@ == rest + refs@.take(t as int),
                                        decreases m - t,
                                    {
                                        stack.push(refs[t]);
                                        assert(refs@.take(t + 1) =~= refs@.take(t as int).push(refs@[t as int]));
                                        assert(stack@ =~= rest + refs@.take(t + 1));
                                        t = t + 1;
                                    }
                                    assert(refs@.take(m as int) =~= refs@);
                                },
                                _ => {
                                    assert(stack@ =~= rest + Seq::<ObjectId>::empty());
                                },
                            }
                            assert(stack@ == stack0.drop_last() + kid_refs(*dict));
                            proof {
                                fuel = (fuel - 1) as nat;
                            }
                        },
                        None => {},
                    }
                }
                assert(field_walk(*doc, stack0, seen_s, out_s, fuel_s) == field_walk(*doc, stack@, seen@, out@, fuel));
            },
        }
    }
    out
}

/// The page index a widget names through `/P`, or `u32::MAX` when unknown.
pub open spec fn widget_page_index(pages: Seq<(u32, ObjectId)>, d: PdfDictionary) -> u32 {
    match ref_under(d, p_name()) {
        Some(pid) => match page_index_lookup(pages, pid) {
            Some(pi) => pi,
            None => u32::MAX,
        },
        None => u32::MAX,
    }
}

/// The rectangles of a field and of its kids (depth first), each with the
/// page index its widget names; and `seen` afterwards.
pub open spec fn widget_rects(doc: PdfDocument, pages: Seq<(u32, ObjectId)>, id: ObjectId, seen: Seq<ObjectId>, fuel: nat) -> (Seq<(u32, RectNumbers)>, Seq<ObjectId>)
    decreases fuel, 0nat, 0nat,
{
    if seen.contains(id) {
        (seq![], seen)
    } else {
        match get_dictionary(doc, id) {
            None => (seq![], seen.push(id)),
            Some(d) => {
                let here = match rect_of(doc, d, rect()) {
                    Some(q) => seq![(widget_page_index(pages, d), q)],
                    None => Seq::<(u32, RectNumbers)>::empty(),
                };
                match dict_get(d, kids()) {
                    Some(PdfObject::Array(ks)) => if fuel == 0 {
                        (here, seen.push(id))
                    } else {
                        let (r, s2) = kid_rects(doc, pages, ks@, 0, seen.push(id), (fuel - 1) as nat);
                        (here + r, s2)
                    },
                    _ => (here, seen.push(id)),
                }
            },
        }
    }
}

/// `widget_rects` over the kids from position `i` on.
pub open spec fn kid_rects(doc: PdfDocument, pages: Seq<(u32, ObjectId)>, ks: Seq<PdfObject>, i: int, seen: Seq<ObjectId>, fuel: nat) -> (Seq<(u32, RectNumbers)>, Seq<ObjectId>)
    decreases fuel, 1nat, (ks.len() - i) as nat,
{
    if i < 0 || i >= ks.len() {
        (seq![], seen)
    } else {
        match ks[i] {
            PdfObject::Reference(kid) => {
                let (r1, s1) = widget_rects(doc, pages, kid, seen, fuel);
                let (r2, s2) = kid_rects(doc, pages, ks, i + 1, s1, fuel);
                (r1 + r2, s2)
            },
            _ => kid_rects(doc, pages, ks, i + 1, seen, fuel),
        }
    }
}

pub open spec fn rect_views<'a>(v: Seq<(u32, (&'a PdfObject, &'a PdfObject, &'a PdfObject, &'a PdfObject))>) -> Seq<(u32, RectNumbers)> {
    v.map_values(|e: (u32, (&'a PdfObject, &'a PdfObject, &'a PdfObject, &'a PdfObject))| (e.0, (*e.1.0, *e.1.1, *e.1.2, *e.1.3)))
}

fn collect_field_widget_rects<'a>(
    doc: &'a PdfDocument,
    pages: &Vec<(u32, ObjectId)>,
    id: ObjectId,
    out: &mut Vec<(u32, (&'a PdfObject, &'a PdfObject, &'a PdfObject, &'a PdfObject))>,
    seen: &mut Vec<ObjectId>,
    Ghost(fuel): Ghost<nat>,
)
    requires
        fuel + known(*doc, old(seen)@).len() >= doc.objects@.len(),
    ensures
        rect_views(final(out)@) == rect_views(old(out)@) + widget_rects(*doc, pages@, id, old(seen)@, fuel).0,
        final(seen)@ == widget_rects(*doc, pages@, id, old(seen)@, fuel).1,
        old(seen)@.is_prefix_of(final(seen)@),
    decreases fuel,
{
    let ghost out0 = rect_views(out@);
    let ghost seen0 = seen@;
    assert(seen0 =~= seen0.subrange(0, seen0.len() as int));
    assert(out0 + Seq::<(u32, RectNumbers)>::empty() =~= out0);
    if ids_contain(seen, id) {
        return;
    }
    seen.push(id);
    proof {
        lemma_prefix_push(seen0, id);
    }
    let dict = match doc.get_dictionary(id) {
        Some(d) => d,
        None => {
            return;
        },
    };
    proof {
        lemma_get_object_stored(*doc, id);
        lemma_known_push_new(*doc, seen0, id);
        lemma_known_bound(*doc, seen@);
    }
    let rk = rect_key();
    match dict_rect(doc, dict, rk.as_slice()) {
        Some(q) => {
            let pk = p_key();
            let page_index = match dict.reference(pk.as_slice()) {
                Some(pid) => match page_index_of(pages, pid) {
                    Some(pi) => pi,
                    None => u32::MAX,
                },
                None => u32::MAX,
            };
            out.push((page_index, q));
            assert(rect_views(out@) =~= out0 + seq![(widget_page_index(pages@, *dict), (*q.0, *q.1, *q.2, *q.3))]);
        },
        None => {},
    }
    let ghost here = rect_views(out@);
    let kk = kids_key();
    match dict.get(kk.as_slice()) {
        Some(PdfObject::Array(ks)) => {
            let ghost s1 = seen@;
            let ghost kseq = ks@;
            let m = ks.len();
            let mut t: usize = 0;
            let ghost mut acc: Seq<(u32, RectNumbers)> = seq![];
            assert(s1 =~= s1.subrange(0, s1.len() as int));
            assert(here + acc =~= here);
            while t < m
                invariant
                    m == kseq.len(),
                    kseq == ks@,
                    t <= m,
                    fuel >= 1,
                    (fuel - 1) as nat + known(*doc, seen@).len() >= doc.objects@.len(),
                    s1.is_prefix_of(seen@),
                    seen0.is_prefix_of(s1),
                    kid_rects(*doc, pages@, kseq, 0, s1, (fuel - 1) as nat) == (acc + kid_rects(*doc, pages@, kseq, t as int, seen@, (fuel - 1) as nat).0, kid_rects(*doc, pages@, kseq, t as int, seen@, (fuel - 1) as nat).1),
                    rect_views(out@) == here + acc,
                decreases m - t,
            {
                let ghost st = seen@;
                let ghost ot = rect_views(out@);
                match &ks[t] {
                    PdfObject::Reference(kid) => {
                        collect_field_widget_rects(doc, pages, *kid, out, seen, Ghost((fuel - 1) as nat));
                        proof {
                            lemma_prefix_trans(s1, st, seen@);
                            lemma_known_grows(*doc, st, seen@);
                            let step = widget_rects(*doc, pages@, *kid, st, (fuel - 1) as nat).0;
                            assert(acc + kid_rects(*doc, pages@, kseq, t as int, st, (fuel - 1) as nat).0 =~= (acc + step) + kid_rects(*doc, pages@, kseq, t + 1, seen@, (fuel - 1) as nat).0);
                            assert(rect_views(out@) =~= here + (acc + step));
                            acc = acc + step;
                        }
                    },
                    _ => {},
                }
                t = t + 1;
            }
            proof {
                lemma_prefix_trans(seen0, s1, seen@);
                assert(acc + Seq::<(u32, RectNumbers)>::empty() =~= acc);
                assert(rect_views(out@) =~= out0 + ((here.subrange(out0.len() as int, here.len() as int)) + acc));
            }
        },
        _ => {},
    }
}

/// A region matches a widget rectangle: same page (or the widget's page is
/// unknown) and the rectangles intersect.
pub open spec fn region_match<F: Fn(&PdfObject, &PdfObject, &PdfObject, &PdfObject, &PdfRectIn) -> bool>(
    f: F,
    entry: (u32, RectNumbers),
    r: RedactRegion,
) -> bool {
    (entry.0 == u32::MAX || r.page_index == entry.0) && hits(f, entry.1, r.rect)
}

/// The 1-based page number reported for a match: the widget's page, or the
/// region's page when the widget's is unknown.
pub open spec fn matched_page_no(entry: (u32, RectNumbers), r: RedactRegion) -> u32 {
    if entry.0 == u32::MAX {
        (r.page_index + 1) as u32
    } else {
        (entry.0 + 1) as u32
    }
}

/// The first region (from `k` on) that matches the widget rectangle.
pub open spec fn first_region_hit<F: Fn(&PdfObject, &PdfObject, &PdfObject, &PdfObject, &PdfRectIn) -> bool>(
    f: F,
    entry: (u32, RectNumbers),
    regions: Seq<RedactRegion>,
    k: int,
) -> Option<u32>
    decreases regions.len() - k,
{
    if k < 0 || k >= regions.len() {
        None
    } else if region_match(f, entry, regions[k]) {
        Some(matched_page_no(entry, regions[k]))
    } else {
        first_region_hit(f, entry, regions, k + 1)
    }
}

/// The page of the first widget rectangle (from `i` on) that some region
/// matches.
pub open spec fn first_rect_hit<F: Fn(&PdfObject, &PdfObject, &PdfObject, &PdfObject, &PdfRectIn) -> bool>(
    f: F,
    rects: Seq<(u32, RectNumbers)>,
    regions: Seq<RedactRegion>,
    i: int,
) -> Option<u32>
    decreases rects.len() - i,
{
    if i < 0 || i >= rects.len() {
        None
    } else {
        match first_region_hit(f, rects[i], regions, 0) {
            Some(n) => Some(n),
            None => first_rect_hit(f, rects, regions, i + 1),
        }
    }
}

/// The page on which a field's widgets meet a region, if they do.
pub open spec fn field_hit_page<F: Fn(&PdfObject, &PdfObject, &PdfObject, &PdfObject, &PdfRectIn) -> bool>(
    doc: PdfDocument,
    f: F,
    pages: Seq<(u32, ObjectId)>,
    regions: Seq<RedactRegion>,
    field_id: ObjectId,
) -> Option<u32> {
    first_rect_hit(f, widget_rects(doc, pages, field_id, seq![], doc.objects@.len()).0, regions, 0)
}

fn field_intersects_regions<F: Fn(&PdfObject, &PdfObject, &PdfObject, &PdfObject, &PdfRectIn) -> bool>(
    doc: &PdfDocument,
    f: &F,
    pages: &Vec<(u32, ObjectId)>,
    field_id: ObjectId,
    regions: &[RedactRegion],
) -> (r: Option<u32>)
    requires
        decides(*f),
        pages_numberable(regions@),
    ensures
        r == field_hit_page(*doc, *f, pages@, regions@, field_id),
{
    let mut rects: Vec<(u32, (&PdfObject, &PdfObject, &PdfObject, &PdfObject))> = Vec::new();
    let mut seen: Vec<ObjectId> = Vec::new();
    proof {
        assert(known(*doc, seen@) =~= Set::<ObjectId>::empty());
    }
    collect_field_widget_rects(doc, pages, field_id, &mut rects, &mut seen, Ghost(doc.objects@.len()));
    let ghost rs = rect_views(rects@);
    assert(rs =~= widget_rects(*doc, pages@, field_id, seq![], doc.objects@.len()).0);
    let n = rects.len();
    let m = regions.len();
    let mut i: usize = 0;
    while i < n
        invariant
            n == rects@.len(),
            rs == rect_views(rects@),
            rs == widget_rects(*doc, pages@, field_id, seq![], doc.objects@.len()).0,
            m == regions@.len(),
            decides(*f),
            pages_numberable(regions@),
            i <= n,
            first_rect_hit(*f, rs, regions@, 0) == first_rect_hit(*f, rs, regions@, i as int),
        decreases n - i,
    {
        let page_index = rects[i].0;
        let q = rects[i].1;
        let ghost entry = rs[i as int];
        let mut k: usize = 0;
        while k < m
            invariant
                m == regions@.len(),
                k <= m,
                decides(*f),
                pages_numberable(regions@),
                entry == (page_index, (*q.0, *q.1, *q.2, *q.3)),
                n == rects@.len(),
                i < n,
                rs == rect_views(rects@),
                rs == widget_rects(*doc, pages@, field_id, seq![], doc.objects@.len()).0,
                entry == rs[i as int],
                first_rect_hit(*f, rs, regions@, 0) == first_rect_hit(*f, rs, regions@, i as int),
                first_region_hit(*f, entry, regions@, 0) == first_region_hit(*f, entry, regions@, k as int),
            decreases m - k,
        {
            let region = &regions[k];
            if page_index != u32::MAX && region.page_index != page_index {
                k = k + 1;
                continue;
            }
            if ask(f, q.0, q.1, q.2, q.3, &region.rect) {
                assert(regions@[k as int].page_index < u32::MAX);
                let no = if page_index == u32::MAX {
                    region.page_index + 1
                } else {
                    page_index + 1
                };
                assert(region_match(*f, entry, regions@[k as int]));
                assert(no == matched_page_no(entry, regions@[k as int]));
                assert(first_region_hit(*f, entry, regions@, k as int) == Some(no));
                return Some(no);
            }
            k = k + 1;
        }
        i = i + 1;
    }
    None
}

/// Warnings for the form's fields not already warned about: a field whose
/// value is not blank and whose widgets meet a region. Also returns the
/// ids considered so far.
pub open spec fn acro_pass<F: Fn(&PdfObject, &PdfObject, &PdfObject, &PdfObject, &PdfRectIn) -> bool>(
    doc: PdfDocument,
    f: F,
    pages: Seq<(u32, ObjectId)>,
    regions: Seq<RedactRegion>,
    ids: Seq<ObjectId>,
    warned0: Seq<ObjectId>,
) -> (Seq<Seq<char>>, Seq<ObjectId>)
    decreases ids.len(),
{
    if ids.len() == 0 {
        (seq![], warned0)
    } else {
        let (w, wd) = acro_pass(doc, f, pages, regions, ids.drop_last(), warned0);
        let id = ids.last();
        if wd.contains(id) {
            (w, wd)
        } else {
            let wd1 = wd.push(id);
            match field_value_of(doc, id) {
                Some(t) => if !is_blank_text(t) {
                    match field_hit_page(doc, f, pages, regions, id) {
                        Some(no) => (w.push(field_message(no)), wd1),
                        None => (w, wd1),
                    }
                } else {
                    (w, wd1)
                },
                None => (w, wd1),
            }
        }
    }
}

/// Form-field warnings: widgets on pages with regions, then the form's
/// remaining fields.
pub open spec fn field_warnings<F: Fn(&PdfObject, &PdfObject, &PdfObject, &PdfObject, &PdfRectIn) -> bool>(
    doc: PdfDocument,
    f: F,
    regions: Seq<RedactRegion>,
    pages: Seq<(u32, ObjectId)>,
) -> Seq<Seq<char>> {
    let (w1, wd) = widget_pass(doc, f, regions, pages);
    w1 + acro_pass(doc, f, pages, regions, acroform_fields(doc), wd).0
}

pub(crate) fn warn_intersecting_fields<F: Fn(&PdfObject, &PdfObject, &PdfObject, &PdfObject, &PdfRectIn) -> bool>(
    doc: &PdfDocument,
    pages: &Vec<(u32, ObjectId)>,
    regions: &[RedactRegion],
    f: &F,
    warnings: &mut Vec<String>,
)
    requires
        decides(*f),
        pages_numberable(regions@),
    ensures
        texts(final(warnings)@) == texts(old(warnings)@) + field_warnings(*doc, *f, regions@, pages@),
{
    let ghost w0 = texts(warnings@);
    let mut warned: Vec<ObjectId> = Vec::new();
    warn_intersecting_widgets(doc, pages, regions, f, warnings, &mut warned);
    let ghost wp = widget_pass(*doc, *f, regions@, pages@);
    assert(warned@ =~= wp.1);
    let ghost w1 = texts(warnings@);
    let ids = acroform_field_ids(doc);
    let n = ids.len();
    let mut i: usize = 0;
    assert(ids@.take(0) =~= Seq::<ObjectId>::empty());
    assert(w1 + Seq::<Seq<char>>::empty() =~= w1);
    while i < n
        invariant
            n == ids@.len(),
            i <= n,
            decides(*f),
            pages_numberable(regions@),
            texts(warnings@) == w1 + acro_pass(*doc, *f, pages@, regions@, ids@.take(i as int), wp.1).0,
            warned@ == acro_pass(*doc, *f, pages@, regions@, ids@.take(i as int), wp.1).1,
        decreases n - i,
    {
        let id = ids[i];
        assert(ids@.take(i + 1).drop_last() =~= ids@.take(i as int));
        assert(ids@.take(i + 1).last() == id);
        if !ids_contain(&warned, id) {
            warned.push(id);
            match field_value(doc, id) {
                Some(value) => {
                    if !text_is_blank(value.as_str()) {
                        match field_intersects_regions(doc, f, pages, id, regions) {
                            Some(page_no) => {
                                let msg = format_with_number(
                                    "A form field on page ",
                                    page_no as u64,
                                    " still holds a value that intersects a redaction region.",
                                );
                                let ghost before = texts(warnings@);
                                warnings.push(msg);
                                assert(texts(warnings@) =~= before.push(msg@));
                            },
                            None => {},
                        }
                    }
                },
                None => {},
            }
        }
        i = i + 1;
    }
    assert(ids@.take(n as int) =~= ids@);
    assert(texts(warnings@) =~= w0 + field_warnings(*doc, *f, regions@, pages@));
}

} // verus!

//! Secure redaction: the capability stub that applies redactions, and the
//! verification that a redacted document no longer holds what was removed.
//! The verification reads the document as a plain object graph
//! ([`PdfDocument`]); the geometry of rectangles (floating point) is decided
//! by the caller through an intersection test.

use crate::app_error::{format_with_number, is_plain_error, with_number, AppError};
use crate::pdf_engine::redact_graph::{
    collect_xobject_probes, document_bytes, joined, lookup_page, page_bytes, page_content, page_content_haystack,
    page_content_of,
    page_content_haystack_for, page_index_bytes, page_lookup, page_xobject_visits, probes_of, stream_text,
    streams_among, views, ancestor_resources, names_xobject, lemma_fold_visits_covers, lemma_probe_of_visited,
    lemma_contains_concat, probe_of, is_form, is_image,
};
use crate::pdf_engine::redact_checks::{
    annot_is_attachment, attachment_message, decides, has_attachments, has_attachments_in, leftover_warnings,
    page_annots,
    warn_leftover_thumbs_and_struct,
};
use crate::pdf_engine::redact_fields::{
    acro_pass, acroform_fields, field_hit_page, field_warnings, first_rect_hit, warn_intersecting_fields,
    widget_rects,
};
use crate::pdf_engine::redact_warnings::{annot_page_warnings, regions_on, widget_pass};
use crate::pdf_engine::redact_warnings::{annot_warnings, texts, warn_intersecting_annots};
use crate::pdf_model::{get_stream, ObjectId, PdfDocument, PdfObject, PdfStream};
use crate::pdf_reader::{
    decompress_stream, page_numbers, pdf_page_content_ids, pdf_pages,
    pdf_stream_decompressed,
};
use vstd::prelude::*;

verus! {

/// A region rectangle in PDF user space, each coordinate given as the bit
/// pattern of an IEEE-754 `f64` (`f64::to_bits`): origin `x`, `y`, width
/// `w`, height `h`. Only the caller's intersection test reads it.
#[derive(Debug, Clone, Copy)]
pub struct PdfRectIn {
    pub x: u64,
    pub y: u64,
    pub w: u64,
    pub h: u64,
}

/// A region to redact on a page (`page_index` counts from 0).
pub struct RedactRegion {
    pub page_index: u32,
    pub rect: PdfRectIn,
    pub fill: Option<String>,
    pub label: Option<String>,
}

/// Apply redactions to `path` in place.
///
/// Without rasterisation the original content streams would remain intact
/// and the result would only *look* redacted, so this refuses
/// unconditionally with `CapabilityUnavailable` rather than performing an
/// insecure partial operation. `P` is the path type (`std::path::Path`).
pub fn apply_redactions<P: ?Sized>(path: &P, regions: &[RedactRegion]) -> (r: Result<(), AppError>)
    ensures
        r matches Err(e) && is_plain_error(e, "CapabilityUnavailable"@,
            "Secure redaction temporarily unavailable"@,
            "Redaction has been disabled during the M1 architecture migration. Without rasterisation the original content streams remain in the PDF and the redaction would be insecure. A PDFium-based replacement is planned for M2."@),
{
    Err(AppError::new(
        "CapabilityUnavailable",
        "Secure redaction temporarily unavailable",
        "Redaction has been disabled during the M1 architecture migration. Without rasterisation the original content streams remain in the PDF and the redaction would be insecure. A PDFium-based replacement is planned for M2.",
    ))
}

/// The error for a region whose page is not in the document.
pub open spec fn is_page_missing_error(e: AppError, page_index: u32) -> bool {
    is_plain_error(e, "REDACTION_INCOMPLETE"@, "Redaction could not be verified"@,
        with_number("A redaction region targets page "@, page_index as nat + 1,
            " which is not in the PDF. The file was not saved."@))
}

/// The error for page content that is still present after redaction.
pub open spec fn is_incomplete_error(e: AppError) -> bool {
    is_plain_error(e, "REDACTION_INCOMPLETE"@, "Redaction could not be verified"@,
        "Page content that should have been removed is still in the PDF. The file was not saved."@)
}

/// The error for a region whose page (`page_index + 1`) is not in the
/// document.
pub fn redaction_page_missing(page_index: u32) -> (r: AppError)
    requires
        page_index < u32::MAX,
    ensures
        is_page_missing_error(r, page_index),
{
    let message = format_with_number(
        "A redaction region targets page ",
        (page_index + 1) as u64,
        " which is not in the PDF. The file was not saved.",
    );
    AppError::new("REDACTION_INCOMPLETE", "Redaction could not be verified", message.as_str())
}

/// The error for page content still present after redaction.
pub fn redaction_incomplete() -> (r: AppError)
    ensures
        is_incomplete_error(r),
{
    AppError::new(
        "REDACTION_INCOMPLETE",
        "Redaction could not be verified",
        "Page content that should have been removed is still in the PDF. The file was not saved.",
    )
}

/// The page indices of the regions, in order.
pub open spec fn region_pages(regions: Seq<RedactRegion>) -> Seq<u32> {
    regions.map_values(|r: RedactRegion| r.page_index)
}

/// `s` without repetitions, each value where it first occurs.
pub open spec fn first_occurrences(s: Seq<u32>) -> Seq<u32>
    decreases s.len(),
{
    if s.len() == 0 {
        s
    } else if s.drop_last().contains(s.last()) {
        first_occurrences(s.drop_last())
    } else {
        first_occurrences(s.drop_last()).push(s.last())
    }
}

pub proof fn lemma_push_contains(s: Seq<u32>, y: u32, x: u32)
    ensures
        s.push(y).contains(x) <==> s.contains(x) || x == y,
{
    if s.contains(x) {
        let k = choose|k: int| 0 <= k < s.len() && s[k] == x;
        assert(s.push(y)[k] == x);
    }
    if x == y {
        assert(s.push(y)[s.len() as int] == x);
    }
    if s.push(y).contains(x) {
        let k = choose|k: int| 0 <= k < s.push(y).len() && s.push(y)[k] == x;
        if k < s.len() {
            assert(s[k] == x);
        }
    }
}

pub proof fn lemma_first_occurrences_contains(s: Seq<u32>, x: u32)
    ensures
        first_occurrences(s).contains(x) <==> s.contains(x),
    decreases s.len(),
{
    if s.len() > 0 {
        lemma_first_occurrences_contains(s.drop_last(), x);
        assert(s =~= s.drop_last().push(s.last()));
        lemma_push_contains(s.drop_last(), s.last(), x);
        lemma_push_contains(first_occurrences(s.drop_last()), s.last(), x);
    }
}

fn u32s_contain(v: &Vec<u32>, x: u32) -> (r: bool)
    ensures
        r == v@.contains(x),
{
    let mut i: usize = 0;
    while i < v.len()
        invariant
            i <= v@.len(),
            forall|j: int| 0 <= j < i ==> v@[j] != x,
        decreases v@.len() - i,
    {
        if v[i] == x {
            return true;
        }
        i = i + 1;
    }
    false
}

/// The distinct page indices of the regions, in order of first occurrence.
pub fn unique_redact_pages(regions: &[RedactRegion]) -> (pages: Vec<u32>)
    ensures
        pages@ == first_occurrences(region_pages(regions@)),
{
    let mut pages: Vec<u32> = Vec::new();
    let n = regions.len();
    let mut i: usize = 0;
    while i < n
        invariant
            n == regions@.len(),
            i <= n,
            pages@ == first_occurrences(region_pages(regions@).take(i as int)),
        decreases n - i,
    {
        let p = regions[i].page_index;
        let ghost before = region_pages(regions@).take(i as int);
        let ghost after = region_pages(regions@).take(i + 1);
        assert(after.drop_last() =~= before);
        assert(after.last() == p);
        proof {
            lemma_first_occurrences_contains(before, p);
        }
        if !u32s_contain(&pages, p) {
            pages.push(p);
        }
        i = i + 1;
    }
    assert(region_pages(regions@).take(n as int) =~= region_pages(regions@));
    pages
}

/// `probe` is non-empty and occurs as a contiguous run in `haystack`.
pub open spec fn contains_run(haystack: Seq<u8>, probe: Seq<u8>) -> bool {
    &&& probe.len() > 0
    &&& exists|k: int| 0 <= k && k + probe.len() <= haystack.len() && #[trigger] haystack.subrange(k, k + probe.len()) == probe
}

fn run_at(haystack: &[u8], probe: &[u8], k: usize) -> (r: bool)
    requires
        k + probe@.len() <= haystack@.len(),
        haystack@.len() <= usize::MAX,
    ensures
        r == (haystack@.subrange(k as int, k + probe@.len()) == probe@),
{
    let mut j: usize = 0;
    while j < probe.len()
        invariant
            k + probe@.len() <= haystack@.len(),
            haystack@.len() <= usize::MAX,
            j <= probe@.len(),
            forall|t: int| 0 <= t < j ==> haystack@[k + t] == probe@[t],
        decreases probe@.len() - j,
    {
        if haystack[k + j] != probe[j] {
            assert(haystack@.subrange(k as int, k + probe@.len())[j as int] != probe@[j as int]);
            return false;
        }
        j = j + 1;
    }
    assert(haystack@.subrange(k as int, k + probe@.len()) =~= probe@);
    true
}

/// Whether `probe` (non-empty) occurs in `haystack`.
pub fn haystack_contains(haystack: &[u8], probe: &[u8]) -> (r: bool)
    ensures
        r == contains_run(haystack@, probe@),
{
    if probe.len() == 0 || probe.len() > haystack.len() {
        return false;
    }
    let last = haystack.len() - probe.len();
    let mut k: usize = 0;
    while k <= last
        invariant
            probe@.len() > 0,
            last + probe@.len() == haystack@.len(),
            haystack@.len() <= usize::MAX,
            k <= last + 1,
            forall|t: int| 0 <= t < k ==> #[trigger] haystack@.subrange(t, t + probe@.len()) != probe@,
        decreases last + 1 - k,
    {
        if run_at(haystack, probe, k) {
            return true;
        }
        k = k + 1;
    }
    false
}

/// The byte strings of borrowed probes.
pub open spec fn probe_views(p: Seq<&[u8]>) -> Seq<Seq<u8>> {
    p.map_values(|b: &[u8]| b@)
}

/// Some probe occurs in `h`.
pub open spec fn some_probe_in(h: Seq<u8>, probes: Seq<Seq<u8>>) -> bool {
    exists|k: int| 0 <= k < probes.len() && contains_run(h, #[trigger] probes[k])
}

/// Every region targets a page index whose 1-based number fits a `u32`.
pub open spec fn pages_numberable(regions: Seq<RedactRegion>) -> bool {
    forall|i: int| 0 <= i < regions.len() ==> (#[trigger] regions[i]).page_index < u32::MAX
}

/// A probe is still in the content of a redacted page: each distinct
/// redacted page is searched on its own; with no regions, the whole
/// document's haystack is searched.
pub open spec fn probe_remains(doc: PdfDocument, pages: Seq<(u32, ObjectId)>, probes: Seq<Seq<u8>>, regions: Seq<RedactRegion>) -> bool {
    let up = first_occurrences(region_pages(regions));
    if up.len() == 0 {
        some_probe_in(document_bytes(doc, pages), probes)
    } else {
        exists|j: int| 0 <= j < up.len() && some_probe_in(page_index_bytes(doc, pages, #[trigger] up[j]), probes)
    }
}

fn any_probe_in(h: &Vec<u8>, probes: &[&[u8]]) -> (r: bool)
    ensures
        r == some_probe_in(h@, probe_views(probes@)),
{
    let n = probes.len();
    let mut k: usize = 0;
    while k < n
        invariant
            n == probes@.len(),
            k <= n,
            forall|t: int| 0 <= t < k ==> !contains_run(h@, #[trigger] probe_views(probes@)[t]),
        decreases n - k,
    {
        if haystack_contains(h.as_slice(), probes[k]) {
            assert(contains_run(h@, probe_views(probes@)[k as int]));
            return true;
        }
        k = k + 1;
    }
    false
}

proof fn lemma_unique_pages_numberable(regions: Seq<RedactRegion>, j: int)
    requires
        pages_numberable(regions),
        0 <= j < first_occurrences(region_pages(regions)).len(),
    ensures
        first_occurrences(region_pages(regions))[j] < u32::MAX,
{
    let up = first_occurrences(region_pages(regions));
    let x = up[j];
    assert(up.contains(x));
    lemma_first_occurrences_contains(region_pages(regions), x);
    let k = choose|k: int| 0 <= k < region_pages(regions).len() && region_pages(regions)[k] == x;
    assert(regions[k].page_index == x);
}

/// Search each probe in the haystack of every redacted page (or of the
/// whole document when there are no regions). Unredacted pages are not
/// scanned, so identical text left elsewhere does not fail the check.
pub(crate) fn probe_remains_on_redacted_pages(
    doc: &PdfDocument,
    pages: &Vec<(u32, ObjectId)>,
    probes: &[&[u8]],
    regions: &[RedactRegion],
) -> (r: bool)
    requires
        pages_numberable(regions@),
    ensures
        r == probe_remains(*doc, pages@, probe_views(probes@), regions@),
{
    let up = unique_redact_pages(regions);
    if up.len() == 0 {
        let haystack = page_content_haystack(doc, pages);
        return any_probe_in(&haystack, probes);
    }
    let mut haystacks: Vec<Vec<u8>> = Vec::new();
    let m = up.len();
    let mut j: usize = 0;
    while j < m
        invariant
            m == up@.len(),
            up@ == first_occurrences(region_pages(regions@)),
            pages_numberable(regions@),
            j <= m,
            haystacks@.len() == j,
            forall|t: int| 0 <= t < j ==> (#[trigger] haystacks@[t])@ == page_index_bytes(*doc, pages@, up@[t]),
        decreases m - j,
    {
        proof {
            lemma_unique_pages_numberable(regions@, j as int);
        }
        haystacks.push(page_content_haystack_for(doc, pages, up[j]));
        j = j + 1;
    }
    let n = probes.len();
    let mut k: usize = 0;
    while k < n
        invariant
            n == probes@.len(),
            m == up@.len(),
            haystacks@.len() == m,
            up@ == first_occurrences(region_pages(regions@)),
            forall|t: int| 0 <= t < m ==> (#[trigger] haystacks@[t])@ == page_index_bytes(*doc, pages@, up@[t]),
            k <= n,
            forall|t: int, u: int| 0 <= t < k && 0 <= u < m ==> !contains_run(#[trigger] page_index_bytes(*doc, pages@, up@[u]), #[trigger] probe_views(probes@)[t]),
        decreases n - k,
    {
        let mut h: usize = 0;
        while h < m
            invariant
                m == haystacks@.len(),
                m == up@.len(),
                up@ == first_occurrences(region_pages(regions@)),
                forall|t: int| 0 <= t < m ==> (#[trigger] haystacks@[t])@ == page_index_bytes(*doc, pages@, up@[t]),
                k < n,
                n == probes@.len(),
                h <= m,
                forall|u: int| 0 <= u < h ==> !contains_run(#[trigger] page_index_bytes(*doc, pages@, up@[u]), probe_views(probes@)[k as int]),
            decreases m - h,
        {
            if haystack_contains(haystacks[h].as_slice(), probes[k]) {
                assert(contains_run(page_index_bytes(*doc, pages@, up@[h as int]), probe_views(probes@)[k as int]));
                assert(some_probe_in(page_index_bytes(*doc, pages@, up@[h as int]), probe_views(probes@)));
                return true;
            }
            h = h + 1;
        }
        k = k + 1;
    }
    assert forall|jj: int| 0 <= jj < m implies !some_probe_in(page_index_bytes(*doc, pages@, #[trigger] up@[jj]), probe_views(probes@)) by {
        assert forall|t: int| 0 <= t < probe_views(probes@).len() implies !contains_run(page_index_bytes(*doc, pages@, up@[jj]), #[trigger] probe_views(probes@)[t]) by {}
    }
    false
}

proof fn lemma_first_occurrences_prefix(s: Seq<u32>, k: int)
    requires
        0 <= k <= s.len(),
    ensures
        first_occurrences(s.take(k)).is_prefix_of(first_occurrences(s)),
    decreases s.len(),
{
    if k == s.len() {
        assert(s.take(k) =~= s);
        assert(first_occurrences(s) =~= first_occurrences(s).subrange(0, first_occurrences(s).len() as int));
    } else {
        assert(s.take(k) =~= s.drop_last().take(k));
        lemma_first_occurrences_prefix(s.drop_last(), k);
        let a = first_occurrences(s.take(k));
        let b = first_occurrences(s.drop_last());
        let c = first_occurrences(s);
        assert(b.is_prefix_of(c)) by {
            assert(b =~= c.subrange(0, b.len() as int));
        }
        assert(a =~= c.subrange(0, a.len() as int));
    }
}

proof fn lemma_redact_probes_err_extends(doc: PdfDocument, pages: Seq<(u32, ObjectId)>, a: Seq<u32>, b: Seq<u32>)
    requires
        a.is_prefix_of(b),
        redact_probes(doc, pages, a) is Err,
    ensures
        redact_probes(doc, pages, b) == redact_probes(doc, pages, a),
    decreases b.len(),
{
    if b.len() == a.len() {
        assert(a =~= b);
    } else {
        assert(a =~= b.drop_last().subrange(0, a.len() as int));
        lemma_redact_probes_err_extends(doc, pages, a, b.drop_last());
    }
}

/// The probes of one page: its content (when not empty), then its forms'
/// and images' bytes.
pub open spec fn page_probes(doc: PdfDocument, page_id: ObjectId) -> Seq<Seq<u8>> {
    (if page_content_of(doc, page_id).len() > 0 {
        seq![page_content_of(doc, page_id)]
    } else {
        Seq::<Seq<u8>>::empty()
    }) + probes_of(page_xobject_visits(doc, page_id))
}

/// Probes of the distinct redacted pages `up`, in order; `Err` names the
/// first page index that is not in the document.
pub open spec fn redact_probes(doc: PdfDocument, pages: Seq<(u32, ObjectId)>, up: Seq<u32>) -> Result<Seq<Seq<u8>>, u32>
    decreases up.len(),
{
    if up.len() == 0 {
        Ok(seq![])
    } else {
        match redact_probes(doc, pages, up.drop_last()) {
            Err(e) => Err(e),
            Ok(acc) => match page_lookup(pages, (up.last() + 1) as u32) {
                None => Err(up.last()),
                Some(id) => Ok(acc + page_probes(doc, id)),
            },
        }
    }
}

/// The page contents and the decoded form/image XObject streams (page-local
/// and inherited) of every redacted page, each page once.
pub fn collect_redact_probes_for_pages(doc: &PdfDocument, regions: &[RedactRegion]) -> (r: Result<Vec<Vec<u8>>, AppError>)
    requires
        pages_numberable(regions@),
    ensures
        match redact_probes(*doc, pdf_pages(*doc), first_occurrences(region_pages(regions@))) {
            Ok(ps) => r matches Ok(p) && views(p@) == ps,
            Err(pi) => r matches Err(e) && is_page_missing_error(e, pi),
        },
{
    let pages = page_numbers(doc);
    let mut seen: Vec<u32> = Vec::new();
    let mut probes: Vec<Vec<u8>> = Vec::new();
    let n = regions.len();
    let mut i: usize = 0;
    assert(views(probes@) =~= Seq::<Seq<u8>>::empty());
    while i < n
        invariant
            n == regions@.len(),
            i <= n,
            pages@ == pdf_pages(*doc),
            pages_numberable(regions@),
            seen@ == first_occurrences(region_pages(regions@).take(i as int)),
            redact_probes(*doc, pages@, seen@) == Ok::<Seq<Seq<u8>>, u32>(views(probes@)),
        decreases n - i,
    {
        let pi = regions[i].page_index;
        let ghost before = region_pages(regions@).take(i as int);
        let ghost after = region_pages(regions@).take(i + 1);
        assert(after.drop_last() =~= before);
        assert(after.last() == pi);
        proof {
            lemma_first_occurrences_contains(before, pi);
        }
        if !u32s_contain(&seen, pi) {
            seen.push(pi);
            assert(seen@.drop_last() =~= first_occurrences(before));
            match lookup_page(&pages, pi + 1) {
                None => {
                    proof {
                        lemma_first_occurrences_prefix(region_pages(regions@), i + 1);
                        lemma_redact_probes_err_extends(*doc, pages@, seen@, first_occurrences(region_pages(regions@)));
                    }
                    return Err(redaction_page_missing(pi));
                },
                Some(id) => {
                    let ghost p0 = views(probes@);
                    let bytes = page_content(doc, id);
                    if bytes.len() > 0 {
                        probes.push(bytes);
                    }
                    let ghost p1 = views(probes@);
                    assert(p1 =~= p0 + (if page_content_of(*doc, id).len() > 0 {
                        seq![page_content_of(*doc, id)]
                    } else {
                        Seq::<Seq<u8>>::empty()
                    }));
                    collect_xobject_probes(doc, id, &mut probes);
                    assert(views(probes@) =~= p0 + page_probes(*doc, id));
                },
            }
        }
        i = i + 1;
    }
    assert(region_pages(regions@).take(n as int) =~= region_pages(regions@));
    Ok(probes)
}

/// The page index of the first region (in order) whose page is not in the
/// document.
pub open spec fn first_missing_page(pages: Seq<(u32, ObjectId)>, regions: Seq<RedactRegion>) -> Option<u32>
    decreases regions.len(),
{
    if regions.len() == 0 {
        None
    } else {
        match first_missing_page(pages, regions.drop_last()) {
            Some(x) => Some(x),
            None => if page_lookup(pages, (regions.last().page_index + 1) as u32) is None {
                Some(regions.last().page_index)
            } else {
                None
            },
        }
    }
}

/// Everything a verified redaction still warns about, in order: annotation
/// texts, form-field values, a thumbnail or structure tree, attachments.
pub open spec fn redaction_warnings<F: Fn(&PdfObject, &PdfObject, &PdfObject, &PdfObject, &PdfRectIn) -> bool>(
    doc: PdfDocument,
    f: F,
    pages: Seq<(u32, ObjectId)>,
    regions: Seq<RedactRegion>,
) -> Seq<Seq<char>> {
    annot_warnings(doc, f, regions, pages) + field_warnings(doc, f, regions, pages)
        + leftover_warnings(doc, pages, regions) + if has_attachments(doc, pages) {
        seq![attachment_message()]
    } else {
        Seq::<Seq<char>>::empty()
    }
}

/// The outcome of verifying a (decompressed) document: a region on a page
/// that is not there fails; a probe left on a redacted page fails (fail
/// closed); otherwise the warnings.
pub open spec fn verified_outcome<F: Fn(&PdfObject, &PdfObject, &PdfObject, &PdfObject, &PdfRectIn) -> bool>(
    doc: PdfDocument,
    f: F,
    probes: Seq<Seq<u8>>,
    regions: Seq<RedactRegion>,
    r: Result<Vec<String>, AppError>,
) -> bool {
    let pages = pdf_pages(doc);
    match first_missing_page(pages, regions) {
        Some(pi) => r matches Err(e) && is_page_missing_error(e, pi),
        None => if probes.len() > 0 && probe_remains(doc, pages, probes, regions) {
            r matches Err(e) && is_incomplete_error(e)
        } else {
            r matches Ok(w) && texts(w@) == redaction_warnings(doc, f, pages, regions)
        },
    }
}

/// Verifies a redacted document that has already been decompressed.
///
/// A region on a page that is not in the document, or page content (a
/// probe) still found on a redacted page, is an error (fail closed). With
/// no probes, leftover annotation texts and field values in a region,
/// thumbnails, a structure tree and attachments are reported as warnings:
/// the leftover strings may remain.
pub fn verify_decompressed_redaction<F: Fn(&PdfObject, &PdfObject, &PdfObject, &PdfObject, &PdfRectIn) -> bool>(
    doc: &PdfDocument,
    probes: &[&[u8]],
    regions: &[RedactRegion],
    intersects: &F,
) -> (r: Result<Vec<String>, AppError>)
    requires
        decides(*intersects),
        pages_numberable(regions@),
    ensures
        verified_outcome(*doc, *intersects, probe_views(probes@), regions@, r),
{
    let pages = page_numbers(doc);
    let n = regions.len();
    let mut i: usize = 0;
    assert(regions@.take(0) =~= Seq::<RedactRegion>::empty());
    while i < n
        invariant
            n == regions@.len(),
            i <= n,
            pages@ == pdf_pages(*doc),
            pages_numberable(regions@),
            first_missing_page(pages@, regions@.take(i as int)) is None,
        decreases n - i,
    {
        assert(regions@.take(i + 1).drop_last() =~= regions@.take(i as int));
        assert(regions@.take(i + 1).last() == regions@[i as int]);
        assert(regions@[i as int].page_index < u32::MAX);
        if lookup_page(&pages, regions[i].page_index + 1).is_none() {
            proof {
                lemma_first_missing_extends(pages@, regions@.take(i + 1), regions@);
            }
            return Err(redaction_page_missing(regions[i].page_index));
        }
        i = i + 1;
    }
    assert(regions@.take(n as int) =~= regions@);
    if probes.len() > 0 {
        if probe_remains_on_redacted_pages(doc, &pages, probes, regions) {
            return Err(redaction_incomplete());
        }
    }
    let mut warnings: Vec<String> = Vec::new();
    assert(texts(warnings@) =~= Seq::<Seq<char>>::empty());
    warn_intersecting_annots(doc, &pages, regions, intersects, &mut warnings);
    warn_intersecting_fields(doc, &pages, regions, intersects, &mut warnings);
    warn_leftover_thumbs_and_struct(doc, &pages, regions, &mut warnings);
    if has_attachments_in(doc, &pages) {
        let ghost before = texts(warnings@);
        warnings.push("This PDF has attachments that were not removed. They may still hold sensitive data.".to_string());
        assert(texts(warnings@) =~= before + seq![attachment_message()]);
    }
    assert(texts(warnings@) =~= redaction_warnings(*doc, *intersects, pdf_pages(*doc), regions@));
    Ok(warnings)
}

proof fn lemma_first_missing_extends(pages: Seq<(u32, ObjectId)>, a: Seq<RedactRegion>, b: Seq<RedactRegion>)
    requires
        a.is_prefix_of(b),
        first_missing_page(pages, a) is Some,
    ensures
        first_missing_page(pages, b) == first_missing_page(pages, a),
    decreases b.len(),
{
    if b.len() == a.len() {
        assert(a =~= b);
    } else {
        assert(a =~= b.drop_last().subrange(0, a.len() as int));
        lemma_first_missing_extends(pages, a, b.drop_last());
    }
}

/// An object after decompression: a stream is decoded (and stays as it was
/// when its filters cannot be undone); other objects are unchanged.
pub open spec fn decompressed_object(o: PdfObject) -> PdfObject {
    match o {
        PdfObject::Stream(s) => PdfObject::Stream(pdf_stream_decompressed(s)),
        other => other,
    }
}

/// `after` is `before` with every stream decompressed (`Document::decompress`).
pub open spec fn is_decompressed(before: PdfDocument, after: PdfDocument) -> bool {
    &&& after.trailer == before.trailer
    &&& after.objects@.len() == before.objects@.len()
    &&& forall|j: int| 0 <= j < before.objects@.len() ==> (#[trigger] after.objects@[j]) == (before.objects@[j].0, decompressed_object(before.objects@[j].1))
}

/// Decompresses every stream of the document in place, ignoring streams
/// whose filters cannot be undone.
pub fn decompress(doc: &mut PdfDocument)
    ensures
        is_decompressed(*old(doc), *final(doc)),
{
    let ghost before = *doc;
    let n = doc.objects.len();
    let mut i: usize = 0;
    while i < n
        invariant
            n == before.objects@.len(),
            doc.objects@.len() == n,
            doc.trailer == before.trailer,
            i <= n,
            forall|j: int| 0 <= j < i ==> (#[trigger] doc.objects@[j]) == (before.objects@[j].0, decompressed_object(before.objects@[j].1)),
            forall|j: int| i <= j < n ==> (#[trigger] doc.objects@[j]) == before.objects@[j],
        decreases n - i,
    {
        let replacement = match &doc.objects[i].1 {
            PdfObject::Stream(s) => Some(decompress_stream(s)),
            _ => None,
        };
        match replacement {
            Some(ns) => {
                let id = doc.objects[i].0;
                doc.objects.set(i, (id, PdfObject::Stream(ns)));
            },
            None => {},
        }
        i = i + 1;
    }
}

/// Verifies a redacted document as read from disk: decompresses it, then
/// checks it as `verify_decompressed_redaction` does.
pub fn verify_redaction<F: Fn(&PdfObject, &PdfObject, &PdfObject, &PdfObject, &PdfRectIn) -> bool>(
    doc: PdfDocument,
    probes: &[&[u8]],
    regions: &[RedactRegion],
    intersects: &F,
) -> (r: Result<Vec<String>, AppError>)
    requires
        decides(*intersects),
        pages_numberable(regions@),
    ensures
        exists|d: PdfDocument| is_decompressed(doc, d) && verified_outcome(d, *intersects, probe_views(probes@), regions@, r),
{
    let mut doc = doc;
    decompress(&mut doc);
    let r = verify_decompressed_redaction(&doc, probes, regions, intersects);
    r
}

/// The distinct redacted pages hold each page index once, and exactly the
/// page indices of the regions.
pub proof fn law_unique_pages(regions: Seq<RedactRegion>)
    ensures
        first_occurrences(region_pages(regions)).no_duplicates(),
        forall|x: u32| first_occurrences(region_pages(regions)).contains(x) <==> region_pages(regions).contains(x),
{
    lemma_first_occurrences_no_dup(region_pages(regions));
    assert forall|x: u32| first_occurrences(region_pages(regions)).contains(x) <==> region_pages(regions).contains(x) by {
        lemma_first_occurrences_contains(region_pages(regions), x);
    }
}

proof fn lemma_first_occurrences_no_dup(s: Seq<u32>)
    ensures
        first_occurrences(s).no_duplicates(),
    decreases s.len(),
{
    if s.len() > 0 {
        lemma_first_occurrences_no_dup(s.drop_last());
        let d = first_occurrences(s.drop_last());
        if !s.drop_last().contains(s.last()) {
            lemma_first_occurrences_contains(s.drop_last(), s.last());
            assert forall|i: int, k: int| 0 <= i < d.push(s.last()).len() && 0 <= k < d.push(s.last()).len() && i != k
                implies d.push(s.last())[i] != d.push(s.last())[k] by {
                if i < d.len() && k < d.len() {
                } else if i < d.len() {
                    assert(d.contains(d[i]));
                } else if k < d.len() {
                    assert(d.contains(d[k]));
                }
            }
        }
    }
}

proof fn lemma_first_occurrences_nonempty(s: Seq<u32>)
    requires
        s.len() > 0,
    ensures
        first_occurrences(s).len() > 0,
{
    lemma_first_occurrences_contains(s, s[0]);
    assert(s.contains(s[0]));
}

/// Fail closed: when every region's page exists and a probe is still in
/// the content of a redacted page, verification is refused with
/// `REDACTION_INCOMPLETE`, whatever else the document holds.
pub proof fn law_leftover_probe_fails_closed<F: Fn(&PdfObject, &PdfObject, &PdfObject, &PdfObject, &PdfRectIn) -> bool>(
    doc: PdfDocument,
    f: F,
    probes: Seq<Seq<u8>>,
    regions: Seq<RedactRegion>,
    r: Result<Vec<String>, AppError>,
)
    requires
        verified_outcome(doc, f, probes, regions, r),
        first_missing_page(pdf_pages(doc), regions) is None,
        probes.len() > 0,
        probe_remains(doc, pdf_pages(doc), probes, regions),
    ensures
        r matches Err(e) && is_incomplete_error(e),
{
}

/// Only redacted pages are searched: when regions are given and no probe
/// occurs in the content of any page they target, no probe remains, even
/// if the same bytes occur on other pages.
pub proof fn law_unredacted_pages_not_scanned(
    doc: PdfDocument,
    pages: Seq<(u32, ObjectId)>,
    probes: Seq<Seq<u8>>,
    regions: Seq<RedactRegion>,
)
    requires
        regions.len() > 0,
        forall|k: int| 0 <= k < regions.len() ==> !some_probe_in(page_index_bytes(doc, pages, (#[trigger] regions[k]).page_index), probes),
    ensures
        !probe_remains(doc, pages, probes, regions),
{
    let rp = region_pages(regions);
    let up = first_occurrences(rp);
    lemma_first_occurrences_nonempty(rp);
    assert forall|j: int| 0 <= j < up.len() implies !some_probe_in(page_index_bytes(doc, pages, #[trigger] up[j]), probes) by {
        assert(up.contains(up[j]));
        lemma_first_occurrences_contains(rp, up[j]);
        let k = choose|k: int| 0 <= k < rp.len() && rp[k] == up[j];
        assert(regions[k].page_index == up[j]);
    }
}

/// Without probes, a document whose region pages all exist verifies, and
/// what it still holds comes back as warnings.
pub proof fn law_no_probes_yields_warnings<F: Fn(&PdfObject, &PdfObject, &PdfObject, &PdfObject, &PdfRectIn) -> bool>(
    doc: PdfDocument,
    f: F,
    regions: Seq<RedactRegion>,
    r: Result<Vec<String>, AppError>,
)
    requires
        verified_outcome(doc, f, Seq::<Seq<u8>>::empty(), regions, r),
        first_missing_page(pdf_pages(doc), regions) is None,
    ensures
        r matches Ok(w) && texts(w@) == redaction_warnings(doc, f, pdf_pages(doc), regions),
{
}

/// A region on a page that is not in the document is always reported,
/// before any other check, for the first such region.
pub proof fn law_missing_page_reported<F: Fn(&PdfObject, &PdfObject, &PdfObject, &PdfObject, &PdfRectIn) -> bool>(
    doc: PdfDocument,
    f: F,
    probes: Seq<Seq<u8>>,
    regions: Seq<RedactRegion>,
    r: Result<Vec<String>, AppError>,
    k: int,
)
    requires
        verified_outcome(doc, f, probes, regions, r),
        0 <= k < regions.len(),
        page_lookup(pdf_pages(doc), (regions[k].page_index + 1) as u32) is None,
    ensures
        first_missing_page(pdf_pages(doc), regions) matches Some(pi) && r matches Err(e) && is_page_missing_error(e, pi),
{
    lemma_first_missing_found(pdf_pages(doc), regions, k);
}

proof fn lemma_first_missing_found(pages: Seq<(u32, ObjectId)>, regions: Seq<RedactRegion>, k: int)
    requires
        0 <= k < regions.len(),
        page_lookup(pages, (regions[k].page_index + 1) as u32) is None,
    ensures
        first_missing_page(pages, regions) is Some,
    decreases regions.len(),
{
    if k < regions.len() - 1 {
        assert(regions.drop_last()[k] == regions[k]);
        lemma_first_missing_found(pages, regions.drop_last(), k);
    }
}

proof fn lemma_no_regions_annots<F: Fn(&PdfObject, &PdfObject, &PdfObject, &PdfObject, &PdfRectIn) -> bool>(
    doc: PdfDocument,
    f: F,
    pages: Seq<(u32, ObjectId)>,
)
    ensures
        annot_warnings(doc, f, Seq::<RedactRegion>::empty(), pages) == Seq::<Seq<char>>::empty(),
        widget_pass(doc, f, Seq::<RedactRegion>::empty(), pages).0 == Seq::<Seq<char>>::empty(),
    decreases pages.len(),
{
    if pages.len() > 0 {
        lemma_no_regions_annots(doc, f, pages.drop_last());
        let none = Seq::<RedactRegion>::empty();
        assert(!regions_on(none, crate::pdf_engine::redact_warnings::index_of_page_no(pages.last().0)));
        assert(Seq::<Seq<char>>::empty() + Seq::<Seq<char>>::empty() =~= Seq::<Seq<char>>::empty());
    }
}

proof fn lemma_no_regions_rect_hit<F: Fn(&PdfObject, &PdfObject, &PdfObject, &PdfObject, &PdfRectIn) -> bool>(
    f: F,
    rects: Seq<(u32, crate::pdf_engine::redact_checks::RectNumbers)>,
    i: int,
)
    ensures
        first_rect_hit(f, rects, Seq::<RedactRegion>::empty(), i) is None,
    decreases rects.len() - i,
{
    if 0 <= i < rects.len() {
        lemma_no_regions_rect_hit(f, rects, i + 1);
    }
}

proof fn lemma_no_regions_acro<F: Fn(&PdfObject, &PdfObject, &PdfObject, &PdfObject, &PdfRectIn) -> bool>(
    doc: PdfDocument,
    f: F,
    pages: Seq<(u32, ObjectId)>,
    ids: Seq<ObjectId>,
    warned0: Seq<ObjectId>,
)
    ensures
        acro_pass(doc, f, pages, Seq::<RedactRegion>::empty(), ids, warned0).0 == Seq::<Seq<char>>::empty(),
    decreases ids.len(),
{
    if ids.len() > 0 {
        lemma_no_regions_acro(doc, f, pages, ids.drop_last(), warned0);
        lemma_no_regions_rect_hit(f, widget_rects(doc, pages, ids.last(), seq![], doc.objects@.len()).0, 0);
        assert(field_hit_page(doc, f, pages, Seq::<RedactRegion>::empty(), ids.last()) is None);
    }
}

/// With no regions, nothing intersects a region: there are no annotation
/// or form-field warnings.
pub proof fn law_no_regions_no_intersections<F: Fn(&PdfObject, &PdfObject, &PdfObject, &PdfObject, &PdfRectIn) -> bool>(
    doc: PdfDocument,
    f: F,
    pages: Seq<(u32, ObjectId)>,
)
    ensures
        annot_warnings(doc, f, Seq::<RedactRegion>::empty(), pages) == Seq::<Seq<char>>::empty(),
        field_warnings(doc, f, Seq::<RedactRegion>::empty(), pages) == Seq::<Seq<char>>::empty(),
{
    lemma_no_regions_annots(doc, f, pages);
    let wp = widget_pass(doc, f, Seq::<RedactRegion>::empty(), pages);
    lemma_no_regions_acro(doc, f, pages, acroform_fields(doc), wp.1);
    assert(Seq::<Seq<char>>::empty() + Seq::<Seq<char>>::empty() =~= Seq::<Seq<char>>::empty());
}

proof fn lemma_run_in_prefix(a: Seq<u8>, b: Seq<u8>, p: Seq<u8>)
    requires
        contains_run(a, p),
    ensures
        contains_run(a + b, p),
{
    let k = choose|k: int| 0 <= k && k + p.len() <= a.len() && #[trigger] a.subrange(k, k + p.len()) == p;
    assert((a + b).subrange(k, k + p.len()) =~= a.subrange(k, k + p.len()));
}

proof fn lemma_run_in_suffix(a: Seq<u8>, b: Seq<u8>, p: Seq<u8>)
    requires
        contains_run(b, p),
    ensures
        contains_run(a + b, p),
{
    let k = choose|k: int| 0 <= k && k + p.len() <= b.len() && #[trigger] b.subrange(k, k + p.len()) == p;
    assert((a + b).subrange(a.len() + k, a.len() + k + p.len()) =~= b.subrange(k, k + p.len()));
}

proof fn lemma_run_whole(p: Seq<u8>)
    requires
        p.len() > 0,
    ensures
        contains_run(p, p),
{
    let k: int = 0;
    assert(p.subrange(k, k + p.len()) =~= p);
}

/// Every probe of visited streams occurs in their joined bytes.
proof fn lemma_probe_in_joined(v: Seq<PdfStream>, t: int)
    requires
        0 <= t < probes_of(v).len(),
    ensures
        contains_run(joined(v), probes_of(v)[t]),
    decreases v.len(),
{
    if v.len() > 0 {
        let front = v.drop_last();
        let st = stream_text(v.last());
        let tail = st + seq![10u8];
        assert(joined(v) =~= joined(front) + tail);
        if t < probes_of(front).len() {
            lemma_probe_in_joined(front, t);
            assert(probes_of(v)[t] == probes_of(front)[t]);
            lemma_run_in_prefix(joined(front), tail, probes_of(front)[t]);
        } else {
            assert(probe_of_last_is(v, t));
            lemma_run_whole(st);
            lemma_run_in_prefix(st, seq![10u8], st);
            lemma_run_in_suffix(joined(front), tail, st);
        }
    }
}

/// Past the probes of all but the last stream, the probe is the last one's.
spec fn probe_of_last_is(v: Seq<PdfStream>, t: int) -> bool {
    &&& stream_text(v.last()).len() > 0
    &&& probes_of(v)[t] == stream_text(v.last())
}

/// Every probe of a page occurs in the page's own haystack bytes.
proof fn lemma_page_probe_in_page(doc: PdfDocument, id: ObjectId, t: int)
    requires
        0 <= t < page_probes(doc, id).len(),
    ensures
        contains_run(page_bytes(doc, id), page_probes(doc, id)[t]),
{
    let c = page_content_of(doc, id);
    let head: Seq<Seq<u8>> = if c.len() > 0 {
        seq![c]
    } else {
        Seq::<Seq<u8>>::empty()
    };
    let visits = page_xobject_visits(doc, id);
    let rest = seq![10u8] + joined(streams_among(doc, pdf_page_content_ids(doc, id)));
    assert(page_bytes(doc, id) =~= c + (rest + joined(visits)));
    assert(page_bytes(doc, id) =~= (c + rest) + joined(visits));
    if t < head.len() {
        assert(page_probes(doc, id)[t] == c);
        lemma_run_whole(c);
        lemma_run_in_prefix(c, rest + joined(visits), c);
    } else {
        assert(page_probes(doc, id)[t] == probes_of(visits)[t - head.len()]);
        lemma_probe_in_joined(visits, t - head.len());
        lemma_run_in_suffix(c + rest, joined(visits), probes_of(visits)[t - head.len()]);
    }
}

/// Each probe collected from the distinct redacted pages `up` occurs in the
/// haystack of one of them.
proof fn lemma_redact_probe_source(doc: PdfDocument, pages: Seq<(u32, ObjectId)>, up: Seq<u32>, ps: Seq<Seq<u8>>, k: int)
    requires
        redact_probes(doc, pages, up) == Ok::<Seq<Seq<u8>>, u32>(ps),
        0 <= k < ps.len(),
    ensures
        exists|j: int| 0 <= j < up.len() && contains_run(page_index_bytes(doc, pages, #[trigger] up[j]), ps[k]),
    decreases up.len(),
{
    if up.len() > 0 {
        match redact_probes(doc, pages, up.drop_last()) {
            Err(_) => {},
            Ok(acc) => match page_lookup(pages, (up.last() + 1) as u32) {
                None => {},
                Some(id) => {
                    assert(ps == acc + page_probes(doc, id));
                    if k < acc.len() {
                        lemma_redact_probe_source(doc, pages, up.drop_last(), acc, k);
                        let j = choose|j: int| 0 <= j < up.drop_last().len() && contains_run(page_index_bytes(doc, pages, #[trigger] up.drop_last()[j]), acc[k]);
                        assert(up.drop_last()[j] == up[j]);
                        assert(ps[k] == acc[k]);
                        assert(contains_run(page_index_bytes(doc, pages, up[j]), ps[k]));
                    } else {
                        lemma_page_probe_in_page(doc, id, k - acc.len());
                        assert(ps[k] == page_probes(doc, id)[k - acc.len()]);
                        let j = up.len() - 1;
                        assert(up[j] == up.last());
                        assert(page_index_bytes(doc, pages, up[j]) == page_bytes(doc, id));
                    }
                },
            },
        }
    }
}

proof fn lemma_redact_probes_ok_pages(doc: PdfDocument, pages: Seq<(u32, ObjectId)>, up: Seq<u32>, j: int)
    requires
        redact_probes(doc, pages, up) is Ok,
        0 <= j < up.len(),
    ensures
        page_lookup(pages, (up[j] + 1) as u32) is Some,
    decreases up.len(),
{
    if j < up.len() - 1 {
        lemma_redact_probes_ok_pages(doc, pages, up.drop_last(), j);
        assert(up.drop_last()[j] == up[j]);
    }
}

proof fn lemma_no_missing_page(pages: Seq<(u32, ObjectId)>, regions: Seq<RedactRegion>)
    requires
        forall|i: int| 0 <= i < regions.len() ==> page_lookup(pages, ((#[trigger] regions[i]).page_index + 1) as u32) is Some,
    ensures
        first_missing_page(pages, regions) is None,
    decreases regions.len(),
{
    if regions.len() > 0 {
        let front = regions.drop_last();
        assert forall|i: int| 0 <= i < front.len() implies page_lookup(pages, ((#[trigger] front[i]).page_index + 1) as u32) is Some by {
            assert(front[i] == regions[i]);
        }
        lemma_no_missing_page(pages, front);
        assert(regions.last() == regions[regions.len() - 1]);
    }
}

/// What was not removed is found again: verifying a document against the
/// probes collected from its own redacted pages (as
/// `collect_redact_probes_for_pages` gathers them) fails closed with
/// `REDACTION_INCOMPLETE` whenever there is at least one probe.
pub proof fn law_unredacted_content_is_detected<F: Fn(&PdfObject, &PdfObject, &PdfObject, &PdfObject, &PdfRectIn) -> bool>(
    doc: PdfDocument,
    f: F,
    regions: Seq<RedactRegion>,
    probes: Seq<Seq<u8>>,
    r: Result<Vec<String>, AppError>,
)
    requires
        redact_probes(doc, pdf_pages(doc), first_occurrences(region_pages(regions))) == Ok::<Seq<Seq<u8>>, u32>(probes),
        probes.len() > 0,
        verified_outcome(doc, f, probes, regions, r),
    ensures
        r matches Err(e) && is_incomplete_error(e),
{
    let pages = pdf_pages(doc);
    let rp = region_pages(regions);
    let up = first_occurrences(rp);
    assert forall|i: int| 0 <= i < regions.len() implies page_lookup(pages, ((#[trigger] regions[i]).page_index + 1) as u32) is Some by {
        assert(rp[i] == regions[i].page_index);
        assert(rp.contains(rp[i]));
        lemma_first_occurrences_contains(rp, rp[i]);
        let j = choose|j: int| 0 <= j < up.len() && up[j] == rp[i];
        lemma_redact_probes_ok_pages(doc, pages, up, j);
    }
    lemma_no_missing_page(pages, regions);
    lemma_redact_probe_source(doc, pages, up, probes, 0);
    let j = choose|j: int| 0 <= j < up.len() && contains_run(page_index_bytes(doc, pages, #[trigger] up[j]), probes[0]);
    assert(some_probe_in(page_index_bytes(doc, pages, up[j]), probes));
    assert(probe_remains(doc, pages, probes, regions));
}

/// Any leftover probe fails closed, whatever its position in the list: when
/// every region's page exists and some probe occurs as a contiguous run in
/// the haystack of a page that a region targets (or, with no regions, in
/// the haystack of the whole document), verification is refused with
/// `REDACTION_INCOMPLETE`.
pub proof fn law_any_leftover_probe_fails_closed<F: Fn(&PdfObject, &PdfObject, &PdfObject, &PdfObject, &PdfRectIn) -> bool>(
    doc: PdfDocument,
    f: F,
    probes: Seq<Seq<u8>>,
    regions: Seq<RedactRegion>,
    r: Result<Vec<String>, AppError>,
    k: int,
)
    requires
        verified_outcome(doc, f, probes, regions, r),
        first_missing_page(pdf_pages(doc), regions) is None,
        0 <= k < probes.len(),
        if regions.len() == 0 {
            contains_run(document_bytes(doc, pdf_pages(doc)), probes[k])
        } else {
            exists|i: int| 0 <= i < regions.len()
                && contains_run(page_index_bytes(doc, pdf_pages(doc), (#[trigger] regions[i]).page_index), probes[k])
        },
    ensures
        r matches Err(e) && is_incomplete_error(e),
{
    let pages = pdf_pages(doc);
    let rp = region_pages(regions);
    let up = first_occurrences(rp);
    if regions.len() == 0 {
        assert(rp.len() == 0);
        assert(up.len() == 0);
        assert(some_probe_in(document_bytes(doc, pages), probes));
    } else {
        let i = choose|i: int| 0 <= i < regions.len()
            && contains_run(page_index_bytes(doc, pages, (#[trigger] regions[i]).page_index), probes[k]);
        assert(rp[i] == regions[i].page_index);
        assert(rp.contains(rp[i]));
        lemma_first_occurrences_contains(rp, rp[i]);
        let j = choose|j: int| 0 <= j < up.len() && up[j] == rp[i];
        assert(some_probe_in(page_index_bytes(doc, pages, up[j]), probes));
    }
    assert(probe_remains(doc, pages, probes, regions));
}

/// Streams in a visit have their bytes in the visit's joined bytes.
proof fn lemma_stream_in_joined(v: Seq<PdfStream>, st: PdfStream)
    requires
        v.contains(st),
        stream_text(st).len() > 0,
    ensures
        contains_run(joined(v), stream_text(st)),
    decreases v.len(),
{
    let front = v.drop_last();
    let tail = stream_text(v.last()) + seq![10u8];
    assert(joined(v) =~= joined(front) + tail);
    if v.last() == st {
        lemma_run_whole(stream_text(st));
        lemma_run_in_prefix(stream_text(st), seq![10u8], stream_text(st));
        lemma_run_in_suffix(joined(front), tail, stream_text(st));
    } else {
        let k = choose|k: int| 0 <= k < v.len() && v[k] == st;
        assert(front[k] == st);
        lemma_stream_in_joined(front, st);
        lemma_run_in_prefix(joined(front), tail, stream_text(st));
    }
}

/// Every XObject that a page's own or inherited resources name is searched
/// and collected: its stream is among the page's XObject streams, its
/// (non-empty) bytes occur in the page's haystack, and a form or image
/// with non-empty bytes is one of the page's probes.
pub proof fn law_every_named_xobject_is_searched(doc: PdfDocument, page_id: ObjectId, t: int, id: ObjectId)
    requires
        0 <= t < ancestor_resources(doc, page_id).len(),
        names_xobject(doc, ancestor_resources(doc, page_id)[t], id),
        get_stream(doc, id) is Some,
    ensures
        page_xobject_visits(doc, page_id).contains(get_stream(doc, id)->Some_0),
        stream_text(get_stream(doc, id)->Some_0).len() > 0
            ==> contains_run(page_bytes(doc, page_id), stream_text(get_stream(doc, id)->Some_0)),
        (is_form(get_stream(doc, id)->Some_0) || is_image(get_stream(doc, id)->Some_0))
            && stream_text(get_stream(doc, id)->Some_0).len() > 0
            ==> page_probes(doc, page_id).contains(stream_text(get_stream(doc, id)->Some_0)),
{
    let st = get_stream(doc, id)->Some_0;
    let dicts = ancestor_resources(doc, page_id);
    let fuel: nat = doc.objects@.len();
    let seen0 = Seq::<ObjectId>::empty();
    lemma_fold_visits_covers(doc, dicts, seen0, fuel);
    let visits = page_xobject_visits(doc, page_id);
    assert(visits.contains(st));
    if stream_text(st).len() > 0 {
        lemma_stream_in_joined(visits, st);
        let c = page_content_of(doc, page_id);
        let rest = seq![10u8] + joined(streams_among(doc, pdf_page_content_ids(doc, page_id)));
        assert(page_bytes(doc, page_id) =~= (c + rest) + joined(visits));
        lemma_run_in_suffix(c + rest, joined(visits), stream_text(st));
        if is_form(st) || is_image(st) {
            assert(probe_of(st) == Some(stream_text(st)));
            lemma_probe_of_visited(visits, st);
            let head: Seq<Seq<u8>> = if c.len() > 0 {
                seq![c]
            } else {
                Seq::<Seq<u8>>::empty()
            };
            assert(page_probes(doc, page_id) == head + probes_of(visits));
            lemma_contains_concat(head, probes_of(visits), stream_text(st));
        }
    }
}

/// A file attachment on any page, whatever its position in the page list,
/// is reported: when verification succeeds, its last warning is the
/// attachments warning.
pub proof fn law_attachment_on_any_page_is_reported<F: Fn(&PdfObject, &PdfObject, &PdfObject, &PdfObject, &PdfRectIn) -> bool>(
    doc: PdfDocument,
    f: F,
    probes: Seq<Seq<u8>>,
    regions: Seq<RedactRegion>,
    r: Result<Vec<String>, AppError>,
    j: int,
    k: int,
)
    requires
        verified_outcome(doc, f, probes, regions, r),
        r is Ok,
        0 <= j < pdf_pages(doc).len(),
        0 <= k < page_annots(doc, pdf_pages(doc)[j].1).len(),
        annot_is_attachment(doc, page_annots(doc, pdf_pages(doc)[j].1)[k]),
    ensures
        r matches Ok(w) && w@.len() > 0 && w@.last()@ == attachment_message(),
{
    let pages = pdf_pages(doc);
    assert(has_attachments(doc, pages));
    let w = r->Ok_0;
    let ws = redaction_warnings(doc, f, pages, regions);
    assert(texts(w@) == ws);
    assert(ws.len() > 0 && ws.last() == attachment_message());
    assert(texts(w@)[texts(w@).len() - 1] == w@[w@.len() - 1]@);
}

} // verus!

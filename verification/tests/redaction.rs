use lopdf::Object as LObject;
use std::path::Path;
use vision_core::pdf_engine::edit_redact::{
    apply_redactions, collect_redact_probes_for_pages, decompress, haystack_contains, redaction_incomplete,
    redaction_page_missing, unique_redact_pages, verify_decompressed_redaction,
    verify_redaction, PdfRectIn, RedactRegion,
};
use vision_core::pdf_model::{PdfDictionary, PdfDocument, PdfObject, PdfStream, PdfStringFormat};

fn name(s: &str) -> PdfObject {
    PdfObject::Name(s.as_bytes().to_vec())
}

fn text(s: &str) -> PdfObject {
    PdfObject::String(s.as_bytes().to_vec(), PdfStringFormat::Literal)
}

fn int_obj(i: i64) -> PdfObject {
    PdfObject::Integer(i)
}

fn real_obj(r: f32) -> PdfObject {
    PdfObject::Real(LObject::Real(r))
}

fn r(n: u32) -> PdfObject {
    PdfObject::Reference((n, 0))
}

fn dict(entries: Vec<(&str, PdfObject)>) -> PdfDictionary {
    PdfDictionary { entries: entries.into_iter().map(|(k, v)| (k.as_bytes().to_vec(), v)).collect() }
}

fn stream(d: Vec<(&str, PdfObject)>, content: &[u8]) -> PdfObject {
    PdfObject::Stream(PdfStream {
        dict: dict(d),
        content: content.to_vec(),
        allows_compression: true,
        start_position: None,
    })
}

fn rect4(a: PdfObject, b: PdfObject, c: PdfObject, d: PdfObject) -> PdfObject {
    PdfObject::Array(vec![a, b, c, d])
}

fn number(o: &PdfObject) -> f64 {
    match o {
        PdfObject::Integer(i) => *i as f64,
        PdfObject::Real(LObject::Real(x)) => *x as f64,
        _ => f64::NAN,
    }
}

/// The geometry test as the application does it: normalise the /Rect, then
/// strict overlap with the region.
fn intersects(a: &PdfObject, b: &PdfObject, c: &PdfObject, d: &PdfObject, region: &PdfRectIn) -> bool {
    let (v0, v1, v2, v3) = (number(a), number(b), number(c), number(d));
    let annot = [v0.min(v2), v1.min(v3), v0.max(v2), v1.max(v3)];
    let x = f64::from_bits(region.x);
    let y = f64::from_bits(region.y);
    let w = f64::from_bits(region.w);
    let h = f64::from_bits(region.h);
    annot[0] < x + w && annot[2] > x && annot[1] < y + h && annot[3] > y
}

fn region(page_index: u32, x: f64, y: f64, w: f64, h: f64) -> RedactRegion {
    RedactRegion {
        page_index,
        rect: PdfRectIn { x: x.to_bits(), y: y.to_bits(), w: w.to_bits(), h: h.to_bits() },
        fill: None,
        label: None,
    }
}

/// A document of `contents.len()` pages; page `i` is object `10 + i`, its
/// content stream object `20 + i`. `page_extra` adds entries to page 0.
fn document(contents: &[&[u8]], page_extra: Vec<(&str, PdfObject)>, catalog_extra: Vec<(&str, PdfObject)>, more: Vec<((u32, u16), PdfObject)>) -> PdfDocument {
    let mut objects: Vec<((u32, u16), PdfObject)> = Vec::new();
    let mut cat = vec![("Type", name("Catalog")), ("Pages", r(2))];
    cat.extend(catalog_extra);
    objects.push(((1, 0), PdfObject::Dictionary(dict(cat))));
    let kids: Vec<PdfObject> = (0..contents.len()).map(|i| r(10 + i as u32)).collect();
    objects.push(((2, 0), PdfObject::Dictionary(dict(vec![
        ("Type", name("Pages")),
        ("Kids", PdfObject::Array(kids)),
        ("Count", int_obj(contents.len() as i64)),
    ]))));
    let mut extra = Some(page_extra);
    for (i, _) in contents.iter().enumerate() {
        let mut page = vec![("Type", name("Page")), ("Parent", r(2)), ("Contents", r(20 + i as u32))];
        if i == 0 {
            page.extend(extra.take().unwrap());
        }
        objects.push(((10 + i as u32, 0), PdfObject::Dictionary(dict(page))));
    }
    for (i, c) in contents.iter().enumerate() {
        objects.push(((20 + i as u32, 0), stream(vec![], c)));
    }
    objects.extend(more);
    objects.sort_by_key(|(id, _)| *id);
    PdfDocument { objects, trailer: dict(vec![("Root", r(1))]) }
}

fn messages(w: &[String]) -> Vec<&str> {
    w.iter().map(|s| s.as_str()).collect()
}

#[test]
fn apply_redactions_returns_capability_unavailable() {
    let res = apply_redactions(Path::new("dummy.pdf"), &[]);
    assert!(res.is_err());
    assert_eq!(res.unwrap_err().code, "CapabilityUnavailable");
}

#[test]
fn apply_redactions_explains_why() {
    let res = apply_redactions(Path::new("dummy.pdf"), &[region(0, 0.0, 0.0, 1.0, 1.0)]);
    let e = res.unwrap_err();
    assert_eq!(e.title, "Secure redaction temporarily unavailable");
    assert!(e.message.starts_with("Redaction has been disabled during the M1 architecture migration."));
    assert!(e.details.is_none());
}

#[test]
fn clean_document_verifies_without_warnings() {
    let doc = document(&[b"BT (public) Tj ET"], vec![], vec![], vec![]);
    let probes: Vec<&[u8]> = vec![b"secret"];
    let res = verify_redaction(doc, &probes, &[region(0, 0.0, 0.0, 10.0, 10.0)], &intersects);
    assert_eq!(res.unwrap(), Vec::<String>::new());
}

#[test]
fn leftover_probe_fails_closed() {
    let doc = document(&[b"BT (top secret) Tj ET"], vec![], vec![], vec![]);
    let probes: Vec<&[u8]> = vec![b"secret"];
    let e = verify_redaction(doc, &probes, &[region(0, 0.0, 0.0, 10.0, 10.0)], &intersects).unwrap_err();
    assert_eq!(e.code, "REDACTION_INCOMPLETE");
    assert_eq!(e.title, "Redaction could not be verified");
    assert_eq!(e.message, "Page content that should have been removed is still in the PDF. The file was not saved.");
}

#[test]
fn region_on_missing_page_is_reported_with_its_number() {
    let doc = document(&[b"x"], vec![], vec![], vec![]);
    let probes: Vec<&[u8]> = vec![b"x"];
    let e = verify_redaction(doc, &probes, &[region(0, 0.0, 0.0, 1.0, 1.0), region(5, 0.0, 0.0, 1.0, 1.0)], &intersects)
        .unwrap_err();
    assert_eq!(e.code, "REDACTION_INCOMPLETE");
    assert_eq!(e.message, "A redaction region targets page 6 which is not in the PDF. The file was not saved.");
}

#[test]
fn unredacted_page_is_not_scanned() {
    let doc = document(&[b"BT (clean) Tj ET", b"BT (secret) Tj ET"], vec![], vec![], vec![]);
    let probes: Vec<&[u8]> = vec![b"secret"];
    let res = verify_redaction(doc, &probes, &[region(0, 0.0, 0.0, 1.0, 1.0)], &intersects);
    assert!(res.is_ok());
}

#[test]
fn redacted_second_page_is_scanned() {
    let doc = document(&[b"BT (clean) Tj ET", b"BT (secret) Tj ET"], vec![], vec![], vec![]);
    let probes: Vec<&[u8]> = vec![b"secret"];
    let res = verify_redaction(doc, &probes, &[region(1, 0.0, 0.0, 1.0, 1.0)], &intersects);
    assert_eq!(res.unwrap_err().code, "REDACTION_INCOMPLETE");
}

#[test]
fn without_regions_the_whole_document_is_scanned() {
    let doc = document(&[b"BT (clean) Tj ET", b"BT (secret) Tj ET"], vec![], vec![], vec![]);
    let probes: Vec<&[u8]> = vec![b"secret"];
    let res = verify_redaction(doc, &probes, &[], &intersects);
    assert_eq!(res.unwrap_err().code, "REDACTION_INCOMPLETE");
}

#[test]
fn empty_probe_never_matches() {
    let doc = document(&[b"anything"], vec![], vec![], vec![]);
    let probes: Vec<&[u8]> = vec![b""];
    assert!(verify_redaction(doc, &probes, &[], &intersects).is_ok());
}

#[test]
fn compressed_content_is_decoded_before_searching() {
    let plain: Vec<u8> = b"abcdefghij".repeat(30);
    let mut s = lopdf::Stream::new(lopdf::Dictionary::new(), plain);
    s.compress().unwrap();
    assert!(s.dict.get(b"Filter").is_ok());
    let filter = s.dict.get(b"Filter").unwrap().as_name().unwrap().to_vec();
    let compressed = s.content.clone();
    assert!(!compressed.windows(14).any(|w| w == b"jabcdefghijabc"));
    let mut doc = document(&[b"placeholder"], vec![], vec![], vec![]);
    for (id, o) in doc.objects.iter_mut() {
        if *id == (20, 0) {
            *o = stream(vec![("Filter", PdfObject::Name(filter.clone()))], &compressed);
        }
    }
    let probes: Vec<&[u8]> = vec![b"jabcdefghijabc"];
    let res = verify_redaction(doc, &probes, &[region(0, 0.0, 0.0, 1.0, 1.0)], &intersects);
    assert_eq!(res.unwrap_err().code, "REDACTION_INCOMPLETE");
}

#[test]
fn decompress_decodes_streams_and_keeps_others() {
    let mut s = lopdf::Stream::new(lopdf::Dictionary::new(), b"hello ".repeat(40));
    s.compress().unwrap();
    let filter = s.dict.get(b"Filter").unwrap().as_name().unwrap().to_vec();
    let mut doc = PdfDocument {
        objects: vec![
            ((1, 0), int_obj(7)),
            ((2, 0), stream(vec![("Filter", PdfObject::Name(filter))], &s.content)),
        ],
        trailer: dict(vec![]),
    };
    decompress(&mut doc);
    assert!(matches!(doc.objects[0].1, PdfObject::Integer(7)));
    match &doc.objects[1].1 {
        PdfObject::Stream(st) => {
            assert_eq!(st.content, b"hello ".repeat(40));
            assert!(!st.dict.entries.iter().any(|(k, _)| k == b"Filter"));
        },
        _ => panic!("not a stream"),
    }
}

#[test]
fn form_xobject_content_is_searched() {
    let resources = PdfObject::Dictionary(dict(vec![("XObject", PdfObject::Dictionary(dict(vec![("Fm1", r(30))])))]));
    let form = stream(vec![("Type", name("XObject")), ("Subtype", name("Form"))], b"BT (hidden secret) Tj ET");
    let doc = document(&[b"q /Fm1 Do Q"], vec![("Resources", resources)], vec![], vec![((30, 0), form)]);
    let probes: Vec<&[u8]> = vec![b"hidden"];
    let res = verify_redaction(doc, &probes, &[region(0, 0.0, 0.0, 1.0, 1.0)], &intersects);
    assert_eq!(res.unwrap_err().code, "REDACTION_INCOMPLETE");
}

#[test]
fn inherited_resources_are_searched_and_cycles_end() {
    // The page inherits /Resources from its parent; the form refers to itself.
    let form = stream(
        vec![
            ("Subtype", name("Form")),
            ("Resources", PdfObject::Dictionary(dict(vec![("XObject", PdfObject::Dictionary(dict(vec![("Me", r(30))])))]))),
        ],
        b"inherited words",
    );
    let mut doc = document(&[b"q Q"], vec![], vec![], vec![((30, 0), form)]);
    for (id, o) in doc.objects.iter_mut() {
        if *id == (2, 0) {
            if let PdfObject::Dictionary(d) = o {
                d.entries.push((b"Resources".to_vec(), PdfObject::Dictionary(dict(vec![("XObject", PdfObject::Dictionary(dict(vec![("F", r(30))])))]))));
            }
        }
    }
    let probes: Vec<&[u8]> = vec![b"inherited"];
    let res = verify_redaction(doc, &probes, &[region(0, 0.0, 0.0, 1.0, 1.0)], &intersects);
    assert_eq!(res.unwrap_err().code, "REDACTION_INCOMPLETE");
}

#[test]
fn annotation_text_in_region_is_a_warning() {
    let annot = PdfObject::Dictionary(dict(vec![
        ("Subtype", name("Text")),
        ("Contents", text("leftover")),
        ("Rect", rect4(int_obj(10), int_obj(10), real_obj(20.5), int_obj(20))),
    ]));
    let doc = document(&[b"x"], vec![("Annots", PdfObject::Array(vec![r(40)]))], vec![], vec![((40, 0), annot)]);
    let w = verify_redaction(doc, &[], &[region(0, 15.0, 15.0, 10.0, 10.0)], &intersects).unwrap();
    assert_eq!(
        messages(&w),
        vec!["An annotation on page 1 still contains text that intersects a redaction region."]
    );
}

#[test]
fn annotation_outside_region_or_blank_is_not_reported() {
    let far = PdfObject::Dictionary(dict(vec![("Contents", text("leftover")), ("Rect", rect4(int_obj(100), int_obj(100), int_obj(120), int_obj(120)))]));
    let blank = PdfObject::Dictionary(dict(vec![("Contents", text(" \t\n")), ("Rect", rect4(int_obj(10), int_obj(10), int_obj(20), int_obj(20)))]));
    let doc = document(&[b"x"], vec![("Annots", PdfObject::Array(vec![r(40), r(41)]))], vec![], vec![((40, 0), far), ((41, 0), blank)]);
    let w = verify_redaction(doc, &[], &[region(0, 15.0, 15.0, 10.0, 10.0)], &intersects).unwrap();
    assert!(w.is_empty());
}

#[test]
fn no_regions_means_no_intersection_warnings() {
    let annot = PdfObject::Dictionary(dict(vec![("Contents", text("leftover")), ("Rect", rect4(int_obj(10), int_obj(10), int_obj(20), int_obj(20)))]));
    let doc = document(&[b"x"], vec![("Annots", PdfObject::Array(vec![r(40)]))], vec![], vec![((40, 0), annot)]);
    let w = verify_redaction(doc, &[], &[], &intersects).unwrap();
    assert!(w.is_empty());
}

#[test]
fn widget_value_in_region_is_a_warning_once() {
    let widget = PdfObject::Dictionary(dict(vec![
        ("Subtype", name("Widget")),
        ("FT", name("Tx")),
        ("V", text("123-45-6789")),
        ("Rect", rect4(int_obj(0), int_obj(0), int_obj(50), int_obj(10))),
        ("P", r(10)),
    ]));
    let acro = PdfObject::Dictionary(dict(vec![("Fields", PdfObject::Array(vec![r(40)]))]));
    let doc = document(&[b"x"], vec![("Annots", PdfObject::Array(vec![r(40)]))], vec![("AcroForm", acro)], vec![((40, 0), widget)]);
    let w = verify_redaction(doc, &[], &[region(0, 5.0, 5.0, 1.0, 1.0)], &intersects).unwrap();
    assert_eq!(
        messages(&w),
        vec!["A form field on page 1 still holds a value that intersects a redaction region."]
    );
}

#[test]
fn flattened_field_value_is_found_through_the_form() {
    // The widget is no longer among the page's annotations; its value is
    // inherited from the parent field.
    let parent = PdfObject::Dictionary(dict(vec![("FT", name("Tx")), ("V", text("secret")), ("Kids", PdfObject::Array(vec![r(41)]))]));
    let kid = PdfObject::Dictionary(dict(vec![("Parent", r(40)), ("Rect", rect4(int_obj(0), int_obj(0), int_obj(10), int_obj(10)))]));
    let acro = PdfObject::Dictionary(dict(vec![("Fields", PdfObject::Array(vec![r(40)]))]));
    let doc = document(&[b"x", b"y"], vec![], vec![("AcroForm", acro)], vec![((40, 0), parent), ((41, 0), kid)]);
    let w = verify_redaction(doc, &[], &[region(1, 1.0, 1.0, 2.0, 2.0)], &intersects).unwrap();
    // No /P on the widget: the page reported is the region's.
    assert_eq!(
        messages(&w),
        vec![
            "A form field on page 2 still holds a value that intersects a redaction region.",
            "A form field on page 2 still holds a value that intersects a redaction region.",
        ]
    );
}

#[test]
fn thumbnail_structure_tree_and_attachments_are_warnings() {
    let names = PdfObject::Dictionary(dict(vec![("EmbeddedFiles", PdfObject::Dictionary(dict(vec![])))]));
    let doc = document(
        &[b"x"],
        vec![("Thumb", r(50))],
        vec![("StructTreeRoot", PdfObject::Dictionary(dict(vec![]))), ("Names", names)],
        vec![((50, 0), stream(vec![], b"thumb"))],
    );
    let w = verify_redaction(doc, &[], &[region(0, 0.0, 0.0, 1.0, 1.0)], &intersects).unwrap();
    assert_eq!(
        messages(&w),
        vec![
            "A redacted page still has a thumbnail (/Thumb) that was not removed. It may still hold sensitive data.",
            "This PDF has a structure tree (/StructTreeRoot) that was not removed. It may still hold sensitive data.",
            "This PDF has attachments that were not removed. They may still hold sensitive data.",
        ]
    );
}

#[test]
fn file_attachment_annotation_is_an_attachment() {
    let annot = PdfObject::Dictionary(dict(vec![("Subtype", name("FileAttachment"))]));
    let doc = document(&[b"x"], vec![("Annots", PdfObject::Array(vec![r(40)]))], vec![], vec![((40, 0), annot)]);
    let w = verify_decompressed_redaction(&doc, &[], &[], &intersects).unwrap();
    assert_eq!(messages(&w), vec!["This PDF has attachments that were not removed. They may still hold sensitive data."]);
}

#[test]
fn probes_of_redacted_pages_once_each() {
    let img = stream(vec![("Subtype", name("Image"))], b"\x01\x02\x03");
    let other = stream(vec![("Subtype", name("PS"))], b"ignored");
    let resources = PdfObject::Dictionary(dict(vec![("XObject", PdfObject::Dictionary(dict(vec![("Im1", r(30)), ("X", r(31))])))]));
    let doc = document(&[b"page one", b"page two"], vec![("Resources", resources)], vec![], vec![((30, 0), img), ((31, 0), other)]);
    let probes = collect_redact_probes_for_pages(&doc, &[region(0, 0.0, 0.0, 1.0, 1.0), region(0, 2.0, 2.0, 1.0, 1.0), region(1, 0.0, 0.0, 1.0, 1.0)]).unwrap();
    assert_eq!(probes.len(), 3);
    assert!(probes[0].windows(8).any(|w| w == b"page one"));
    assert_eq!(probes[1], b"\x01\x02\x03".to_vec());
    assert!(probes[2].windows(8).any(|w| w == b"page two"));
}

#[test]
fn probes_of_missing_page_is_an_error() {
    let doc = document(&[b"x"], vec![], vec![], vec![]);
    let e = collect_redact_probes_for_pages(&doc, &[region(2, 0.0, 0.0, 1.0, 1.0)]).unwrap_err();
    assert_eq!(e.message, "A redaction region targets page 3 which is not in the PDF. The file was not saved.");
}

#[test]
fn own_probes_are_found_again() {
    let img = stream(vec![("Subtype", name("Image"))], b"\x07\x08\x09");
    let resources = PdfObject::Dictionary(dict(vec![("XObject", PdfObject::Dictionary(dict(vec![("Im1", r(30))])))]));
    let doc = document(&[b"page one", b"page two"], vec![], vec![], vec![((30, 0), img)]);
    let regions = [region(1, 0.0, 0.0, 1.0, 1.0)];
    let collected = collect_redact_probes_for_pages(&doc, &regions).unwrap();
    let probes: Vec<&[u8]> = collected.iter().map(|p| p.as_slice()).collect();
    let res = verify_decompressed_redaction(&doc, &probes, &regions, &intersects);
    assert_eq!(res.unwrap_err().code, "REDACTION_INCOMPLETE");
    let img = stream(vec![("Subtype", name("Image"))], b"\x07\x08\x09");
    let doc = document(&[b"q Q"], vec![("Resources", resources)], vec![], vec![((30, 0), img)]);
    let collected = collect_redact_probes_for_pages(&doc, &[region(0, 0.0, 0.0, 1.0, 1.0)]).unwrap();
    let probes: Vec<&[u8]> = collected.iter().map(|p| p.as_slice()).collect();
    let res = verify_decompressed_redaction(&doc, &probes, &[region(0, 0.0, 0.0, 1.0, 1.0)], &intersects);
    assert_eq!(res.unwrap_err().code, "REDACTION_INCOMPLETE");
}

#[test]
fn haystack_search() {
    assert!(haystack_contains(b"abc secret xyz", b"secret"));
    assert!(haystack_contains(b"secret", b"secret"));
    assert!(haystack_contains(b"xsecret", b"secret"));
    assert!(!haystack_contains(b"secre", b"secret"));
    assert!(!haystack_contains(b"sec ret", b"secret"));
    assert!(!haystack_contains(b"anything", b""));
    assert!(!haystack_contains(b"", b"a"));
}

#[test]
fn distinct_pages_in_first_order() {
    let regions = [
        region(3, 0.0, 0.0, 1.0, 1.0),
        region(1, 0.0, 0.0, 1.0, 1.0),
        region(3, 5.0, 5.0, 1.0, 1.0),
        region(0, 0.0, 0.0, 1.0, 1.0),
        region(1, 2.0, 2.0, 1.0, 1.0),
    ];
    assert_eq!(unique_redact_pages(&regions), vec![3, 1, 0]);
    assert_eq!(unique_redact_pages(&[]), Vec::<u32>::new());
}

#[test]
fn redaction_errors() {
    let e = redaction_page_missing(0);
    assert_eq!(e.code, "REDACTION_INCOMPLETE");
    assert_eq!(e.title, "Redaction could not be verified");
    assert_eq!(e.message, "A redaction region targets page 1 which is not in the PDF. The file was not saved.");
    let e = redaction_page_missing(u32::MAX - 1);
    assert_eq!(e.message, "A redaction region targets page 4294967295 which is not in the PDF. The file was not saved.");
    let e = redaction_incomplete();
    assert_eq!(e.code, "REDACTION_INCOMPLETE");
    assert_eq!(e.message, "Page content that should have been removed is still in the PDF. The file was not saved.");
}

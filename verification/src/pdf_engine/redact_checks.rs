//! Reading what a redaction may have left behind: annotation texts, form
//! field values, rectangles, and attachments. Rectangle geometry is decided
//! by the caller's intersection test (floating point), given the four
//! numbers of a `/Rect` and a region.

use crate::pdf_engine::edit_redact::PdfRectIn;
use crate::pdf_engine::redact_graph::{ids_contain, name_is};
use crate::pdf_model::{
    dict_from, dict_get, dict_has, get_dictionary, get_object, lemma_deref_direct, name_under,
    ref_under, resolve, stored, unref, ObjectId, PdfDictionary, PdfDocument, PdfObject,
};
use crate::pdf_engine::edit_redact::{pages_numberable, RedactRegion};
use crate::pdf_engine::redact_graph::{lookup_page, page_lookup};
use crate::pdf_model::catalog;
use crate::pdf_names::{
    af_key, af_name, annots, annots_key, ef_key, ef_name, embedded_files, embedded_files_key,
    file_attachment, file_attachment_key, fs_key, fs_name, ft_key, ft_name, names, names_key,
    parent, parent_key, struct_tree_root, struct_tree_root_key, subtype, subtype_key, thumb,
    thumb_key, v_key, v_name, widget, widget_key,
};
use crate::pdf_reader::{lossy_text, utf8_lossy};
use vstd::prelude::*;

verus! {

/// The caller's intersection test answers every query, and always the same
/// way for the same query.
pub open spec fn decides<F: Fn(&PdfObject, &PdfObject, &PdfObject, &PdfObject, &PdfRectIn) -> bool>(f: F) -> bool {
    &&& forall|a: &PdfObject, b: &PdfObject, c: &PdfObject, d: &PdfObject, r: &PdfRectIn|
        #[trigger] f.requires((a, b, c, d, r))
    &&& forall|a: &PdfObject, b: &PdfObject, c: &PdfObject, d: &PdfObject, r: &PdfRectIn, x: bool, y: bool|
        #![trigger f.ensures((a, b, c, d, r), x), f.ensures((a, b, c, d, r), y)]
        f.ensures((a, b, c, d, r), x) && f.ensures((a, b, c, d, r), y) ==> x == y
}

/// The four numbers of a `/Rect`, as given (references resolved).
pub type RectNumbers = (PdfObject, PdfObject, PdfObject, PdfObject);

/// The rectangle `q` intersects the region rectangle `r`, per the test.
pub open spec fn hits<F: Fn(&PdfObject, &PdfObject, &PdfObject, &PdfObject, &PdfRectIn) -> bool>(f: F, q: RectNumbers, r: PdfRectIn) -> bool {
    f.ensures((&q.0, &q.1, &q.2, &q.3, &r), true)
}

pub(crate) fn ask<F: Fn(&PdfObject, &PdfObject, &PdfObject, &PdfObject, &PdfRectIn) -> bool>(
    f: &F,
    a: &PdfObject,
    b: &PdfObject,
    c: &PdfObject,
    d: &PdfObject,
    r: &PdfRectIn,
) -> (res: bool)
    requires
        decides(*f),
    ensures
        res == hits(*f, (*a, *b, *c, *d), *r),
{
    let res = f(a, b, c, d, r);
    assert(f.ensures((a, b, c, d, r), res));
    proof {
        if !res && hits(*f, (*a, *b, *c, *d), *r) {
            assert(f.ensures((a, b, c, d, r), true));
        }
    }
    res
}

/// An integer or real, references resolved.
pub open spec fn number(doc: PdfDocument, o: PdfObject) -> Option<PdfObject> {
    match o {
        PdfObject::Integer(_) => Some(o),
        PdfObject::Real(_) => Some(o),
        PdfObject::Reference(id) => match get_object(doc, id) {
            Some(x) => match x {
                PdfObject::Integer(_) => Some(x),
                PdfObject::Real(_) => Some(x),
                _ => None,
            },
            None => None,
        },
        _ => None,
    }
}

fn num<'a>(doc: &'a PdfDocument, o: &'a PdfObject) -> (r: Option<&'a PdfObject>)
    ensures
        unref(r) == number(*doc, *o),
{
    match o {
        PdfObject::Integer(_) => Some(o),
        PdfObject::Real(_) => Some(o),
        PdfObject::Reference(id) => match doc.get_object(*id) {
            Some(x) => match x {
                PdfObject::Integer(_) => Some(x),
                PdfObject::Real(_) => Some(x),
                _ => None,
            },
            None => None,
        },
        _ => None,
    }
}

/// The four numbers of the rectangle under `key` (an array of four numbers,
/// inline or by reference).
pub open spec fn rect_of(doc: PdfDocument, d: PdfDictionary, key: Seq<u8>) -> Option<RectNumbers> {
    match dict_get(d, key) {
        Some(o) => match resolve(doc, o) {
            Some(PdfObject::Array(items)) => if items@.len() == 4 {
                match (number(doc, items@[0]), number(doc, items@[1]), number(doc, items@[2]), number(doc, items@[3])) {
                    (Some(a), Some(b), Some(c), Some(e)) => Some((a, b, c, e)),
                    _ => None,
                }
            } else {
                None
            },
            _ => None,
        },
        None => None,
    }
}

pub(crate) fn dict_rect<'a>(doc: &'a PdfDocument, d: &'a PdfDictionary, key: &[u8]) -> (r: Option<(&'a PdfObject, &'a PdfObject, &'a PdfObject, &'a PdfObject)>)
    ensures
        match r {
            Some((a, b, c, e)) => rect_of(*doc, *d, key@) == Some((*a, *b, *c, *e)),
            None => rect_of(*doc, *d, key@) is None,
        },
{
    let o = match d.get(key) {
        Some(o) => o,
        None => {
            return None;
        },
    };
    let resolved = match doc.resolve(o) {
        Some(x) => x,
        None => {
            return None;
        },
    };
    let items = match resolved {
        PdfObject::Array(items) => items,
        _ => {
            return None;
        },
    };
    if items.len() != 4 {
        return None;
    }
    let a = match num(doc, &items[0]) {
        Some(x) => x,
        None => {
            return None;
        },
    };
    let b = match num(doc, &items[1]) {
        Some(x) => x,
        None => {
            return None;
        },
    };
    let c = match num(doc, &items[2]) {
        Some(x) => x,
        None => {
            return None;
        },
    };
    let e = match num(doc, &items[3]) {
        Some(x) => x,
        None => {
            return None;
        },
    };
    Some((a, b, c, e))
}

/// The text under `key`: a string or a name (references resolved),
/// decoded as UTF-8 with invalid sequences replaced.
pub open spec fn dict_text(doc: PdfDocument, d: PdfDictionary, key: Seq<u8>) -> Option<Seq<char>> {
    match dict_get(d, key) {
        Some(o) => match resolve(doc, o) {
            Some(PdfObject::String(bytes, _)) => Some(utf8_lossy(bytes@)),
            Some(PdfObject::Name(name)) => Some(utf8_lossy(name@)),
            _ => None,
        },
        None => None,
    }
}

pub(crate) fn dict_string(doc: &PdfDocument, d: &PdfDictionary, key: &[u8]) -> (r: Option<String>)
    ensures
        match r {
            Some(t) => dict_text(*doc, *d, key@) == Some(t@),
            None => dict_text(*doc, *d, key@) is None,
        },
{
    let o = match d.get(key) {
        Some(o) => o,
        None => {
            return None;
        },
    };
    match doc.resolve(o) {
        Some(PdfObject::String(bytes, _)) => Some(lossy_text(bytes.as_slice())),
        Some(PdfObject::Name(name)) => Some(lossy_text(name.as_slice())),
        _ => None,
    }
}

/// The references among `items`, in order.
pub open spec fn refs_in(items: Seq<PdfObject>) -> Seq<ObjectId>
    decreases items.len(),
{
    if items.len() == 0 {
        seq![]
    } else {
        match items.last() {
            PdfObject::Reference(id) => refs_in(items.drop_last()).push(id),
            _ => refs_in(items.drop_last()),
        }
    }
}

pub(crate) fn references_in(items: &Vec<PdfObject>) -> (r: Vec<ObjectId>)
    ensures
        r@ == refs_in(items@),
{
    let mut out: Vec<ObjectId> = Vec::new();
    let n = items.len();
    let mut i: usize = 0;
    assert(items@.take(0) =~= Seq::<PdfObject>::empty());
    while i < n
        invariant
            n == items@.len(),
            i <= n,
            out@ == refs_in(items@.take(i as int)),
        decreases n - i,
    {
        assert(items@.take(i + 1).drop_last() =~= items@.take(i as int));
        assert(items@.take(i + 1).last() == items@[i as int]);
        match &items[i] {
            PdfObject::Reference(id) => {
                out.push(*id);
            },
            _ => {},
        }
        i = i + 1;
    }
    assert(items@.take(n as int) =~= items@);
    out
}

/// The annotation references of a page: its `/Annots` array (inline or by
/// reference).
pub open spec fn page_annots(doc: PdfDocument, page_id: ObjectId) -> Seq<ObjectId> {
    match get_dictionary(doc, page_id) {
        None => seq![],
        Some(page) => match dict_get(page, annots()) {
            None => seq![],
            Some(a) => match resolve(doc, a) {
                Some(PdfObject::Array(items)) => refs_in(items@),
                Some(PdfObject::Reference(id)) => seq![id],
                _ => seq![],
            },
        },
    }
}

pub(crate) fn page_annot_ids(doc: &PdfDocument, page_id: ObjectId) -> (r: Vec<ObjectId>)
    ensures
        r@ == page_annots(*doc, page_id),
{
    let page = match doc.get_dictionary(page_id) {
        Some(p) => p,
        None => {
            return Vec::new();
        },
    };
    let key = annots_key();
    let a = match page.get(key.as_slice()) {
        Some(a) => a,
        None => {
            return Vec::new();
        },
    };
    match doc.resolve(a) {
        Some(PdfObject::Array(items)) => references_in(items),
        Some(PdfObject::Reference(id)) => {
            let mut v = Vec::new();
            v.push(*id);
            assert(v@ =~= seq![*id]);
            v
        },
        _ => Vec::new(),
    }
}

/// A widget annotation or form field: `/Subtype /Widget`, or an `/FT` or
/// `/Parent` entry.
pub open spec fn is_widget(a: PdfDictionary) -> bool {
    name_under(a, subtype()) == Some(widget()) || dict_has(a, ft_name()) || dict_has(a, parent())
}

pub(crate) fn is_widget_dict(a: &PdfDictionary) -> (r: bool)
    ensures
        r == is_widget(*a),
{
    let sub = subtype_key();
    let w = widget_key();
    if name_is(a, sub.as_slice(), w.as_slice()) {
        return true;
    }
    let ft = ft_key();
    let par = parent_key();
    a.contains(ft.as_slice()) || a.contains(par.as_slice())
}

/// A field's value `/V`, looked up on the field and then up its `/Parent`
/// chain, at most `steps` levels.
pub open spec fn field_value_from(doc: PdfDocument, id: ObjectId, steps: nat) -> Option<Seq<char>>
    decreases steps,
{
    if steps == 0 {
        None
    } else {
        match get_dictionary(doc, id) {
            None => None,
            Some(d) => match dict_text(doc, d, v_name()) {
                Some(t) => Some(t),
                None => match ref_under(d, parent()) {
                    Some(p) => field_value_from(doc, p, (steps - 1) as nat),
                    None => None,
                },
            },
        }
    }
}

/// A field's value, inherited from at most sixteen levels of parents.
pub open spec fn field_value_of(doc: PdfDocument, id: ObjectId) -> Option<Seq<char>> {
    field_value_from(doc, id, 16)
}

pub(crate) fn field_value(doc: &PdfDocument, id: ObjectId) -> (r: Option<String>)
    ensures
        match r {
            Some(t) => field_value_of(*doc, id) == Some(t@),
            None => field_value_of(*doc, id) is None,
        },
{
    let vk = v_key();
    let pk = parent_key();
    let mut cur = id;
    let mut k: usize = 0;
    while k < 16
        invariant
            k <= 16,
            vk@ == v_name(),
            pk@ == parent(),
            field_value_of(*doc, id) == field_value_from(*doc, cur, (16 - k) as nat),
        decreases 16 - k,
    {
        let d = match doc.get_dictionary(cur) {
            Some(d) => d,
            None => {
                return None;
            },
        };
        match dict_string(doc, d, vk.as_slice()) {
            Some(t) => {
                return Some(t);
            },
            None => {},
        }
        cur = match d.reference(pk.as_slice()) {
            Some(p) => p,
            None => {
                return None;
            },
        };
        k = k + 1;
    }
    None
}

/// The 0-based index of a page object, `page_no - 1` (0 for page number 0).
pub open spec fn page_index_lookup(pages: Seq<(u32, ObjectId)>, page_id: ObjectId) -> Option<u32> {
    if exists|i: int| 0 <= i < pages.len() && pages[i].1 == page_id
        && forall|j: int| 0 <= j < i ==> (#[trigger] pages[j]).1 != page_id {
        let i = choose|i: int| 0 <= i < pages.len() && pages[i].1 == page_id
            && forall|j: int| 0 <= j < i ==> (#[trigger] pages[j]).1 != page_id;
        Some(if pages[i].0 == 0 { 0u32 } else { (pages[i].0 - 1) as u32 })
    } else {
        None
    }
}

pub(crate) fn page_index_of(pages: &Vec<(u32, ObjectId)>, page_id: ObjectId) -> (r: Option<u32>)
    ensures
        r == page_index_lookup(pages@, page_id),
{
    let n = pages.len();
    let mut i: usize = 0;
    while i < n
        invariant
            n == pages@.len(),
            i <= n,
            forall|j: int| 0 <= j < i ==> (#[trigger] pages@[j]).1 != page_id,
        decreases n - i,
    {
        if pages[i].1.0 == page_id.0 && pages[i].1.1 == page_id.1 {
            let ghost w = choose|k: int| 0 <= k < pages@.len() && pages@[k].1 == page_id
                && forall|j: int| 0 <= j < k ==> (#[trigger] pages@[j]).1 != page_id;
            assert(w == i) by {
                if w < i {
                    assert(pages@[w].1 != page_id);
                } else if w > i {
                    assert(pages@[i as int].1 != page_id);
                }
            }
            return Some(pages[i].0.saturating_sub(1));
        }
        i = i + 1;
    }
    None
}

/// The page with index `pi` exists, loads as a dictionary, and still has
/// a `/Thumb`.
pub open spec fn thumb_on_page(doc: PdfDocument, pages: Seq<(u32, ObjectId)>, pi: u32) -> bool {
    match page_lookup(pages, (pi + 1) as u32) {
        Some(id) => match get_dictionary(doc, id) {
            Some(d) => dict_has(d, thumb()),
            None => false,
        },
        None => false,
    }
}

/// Some redacted page still has a thumbnail.
pub open spec fn thumb_left(doc: PdfDocument, pages: Seq<(u32, ObjectId)>, regions: Seq<RedactRegion>) -> bool {
    exists|k: int| 0 <= k < regions.len() && thumb_on_page(doc, pages, (#[trigger] regions[k]).page_index)
}

/// The catalog has a `/StructTreeRoot`.
pub open spec fn has_struct_tree(doc: PdfDocument) -> bool {
    match catalog(doc) {
        Some(c) => dict_has(c, struct_tree_root()),
        None => false,
    }
}

pub open spec fn thumb_message() -> Seq<char> {
    "A redacted page still has a thumbnail (/Thumb) that was not removed. It may still hold sensitive data."@
}

pub open spec fn struct_message() -> Seq<char> {
    "This PDF has a structure tree (/StructTreeRoot) that was not removed. It may still hold sensitive data."@
}

pub open spec fn attachment_message() -> Seq<char> {
    "This PDF has attachments that were not removed. They may still hold sensitive data."@
}

/// Warnings for a leftover thumbnail and structure tree, in that order.
pub open spec fn leftover_warnings(doc: PdfDocument, pages: Seq<(u32, ObjectId)>, regions: Seq<RedactRegion>) -> Seq<Seq<char>> {
    (if thumb_left(doc, pages, regions) {
        seq![thumb_message()]
    } else {
        Seq::<Seq<char>>::empty()
    }) + (if has_struct_tree(doc) {
        seq![struct_message()]
    } else {
        Seq::<Seq<char>>::empty()
    })
}

fn page_has_thumb(doc: &PdfDocument, pages: &Vec<(u32, ObjectId)>, pi: u32) -> (r: bool)
    requires
        pi < u32::MAX,
    ensures
        r == thumb_on_page(*doc, pages@, pi),
{
    let id = match lookup_page(pages, pi + 1) {
        Some(id) => id,
        None => {
            return false;
        },
    };
    let page = match doc.get_dictionary(id) {
        Some(p) => p,
        None => {
            return false;
        },
    };
    let tk = thumb_key();
    page.contains(tk.as_slice())
}

fn u32s_contain(v: &Vec<u32>, x: u32) -> (r: bool)
    ensures
        r == v@.contains(x),
{
    let mut i: usize = 0;
    while i < v.len()
        invariant
            i <= v@.len(),
            forall|j: int| 0 <= j < i ==> v@[j] != x,
        decreases v@.len() - i,
    {
        if v[i] == x {
            return true;
        }
        i = i + 1;
    }
    false
}

pub(crate) fn has_struct_tree_root(doc: &PdfDocument) -> (r: bool)
    ensures
        r == has_struct_tree(*doc),
{
    match doc.catalog() {
        Some(c) => {
            let k = struct_tree_root_key();
            c.contains(k.as_slice())
        },
        None => false,
    }
}

pub(crate) fn warn_leftover_thumbs_and_struct(
    doc: &PdfDocument,
    pages: &Vec<(u32, ObjectId)>,
    regions: &[RedactRegion],
    warnings: &mut Vec<String>,
)
    requires
        pages_numberable(regions@),
    ensures
        final(warnings)@.map_values(|s: String| s@) == old(warnings)@.map_values(|s: String| s@) + leftover_warnings(*doc, pages@, regions@),
{
    let mut thumb_found = false;
    let mut seen: Vec<u32> = Vec::new();
    let n = regions.len();
    let mut i: usize = 0;
    while i < n
        invariant_except_break
            n == regions@.len(),
            i <= n,
            pages_numberable(regions@),
            !thumb_found,
            forall|t: int| 0 <= t < i ==> !thumb_on_page(*doc, pages@, (#[trigger] regions@[t]).page_index),
            forall|x: u32| seen@.contains(x) ==> exists|t: int| 0 <= t < i && (#[trigger] regions@[t]).page_index == x,
        ensures
            thumb_found == thumb_left(*doc, pages@, regions@),
        decreases n - i,
    {
        let pi = regions[i].page_index;
        if u32s_contain(&seen, pi) {
            proof {
                let t = choose|t: int| 0 <= t < i && (#[trigger] regions@[t]).page_index == pi;
                assert(!thumb_on_page(*doc, pages@, regions@[t].page_index));
            }
            assert(!thumb_on_page(*doc, pages@, regions@[i as int].page_index));
            assert forall|x: u32| seen@.contains(x) implies exists|t: int| 0 <= t < i + 1 && (#[trigger] regions@[t]).page_index == x by {
                let t = choose|t: int| 0 <= t < i && (#[trigger] regions@[t]).page_index == x;
                assert(0 <= t < i + 1 && regions@[t].page_index == x);
            }
            i = i + 1;
            continue;
        }
        let ghost seen_before = seen@;
        seen.push(pi);
        assert(regions@[i as int].page_index < u32::MAX);
        if page_has_thumb(doc, pages, pi) {
            thumb_found = true;
            break;
        }
        assert forall|x: u32| seen@.contains(x) implies exists|t: int| 0 <= t < i + 1 && (#[trigger] regions@[t]).page_index == x by {
            let q = choose|q: int| 0 <= q < seen@.len() && seen@[q] == x;
            if q < seen_before.len() {
                assert(seen_before[q] == x);
                assert(seen_before.contains(x));
                let t = choose|t: int| 0 <= t < i && (#[trigger] regions@[t]).page_index == x;
                assert(0 <= t < i + 1 && regions@[t].page_index == x);
            } else {
                assert(regions@[i as int].page_index == x);
            }
        }
        i = i + 1;
    }
    let ghost w0 = warnings@.map_values(|s: String| s@);
    if thumb_found {
        warnings.push("A redacted page still has a thumbnail (/Thumb) that was not removed. It may still hold sensitive data.".to_string());
    }
    let ghost w1 = warnings@.map_values(|s: String| s@);
    if has_struct_tree_root(doc) {
        warnings.push("This PDF has a structure tree (/StructTreeRoot) that was not removed. It may still hold sensitive data.".to_string());
    }
    assert(warnings@.map_values(|s: String| s@) =~= w0 + leftover_warnings(*doc, pages@, regions@));
}

/// The catalog declares associated files (`/AF`) or embedded files in its
/// name tree (`/Names` → `/EmbeddedFiles`).
pub open spec fn catalog_attachments(doc: PdfDocument) -> bool {
    match catalog(doc) {
        None => false,
        Some(c) => dict_has(c, af_name()) || match dict_get(c, names()) {
            Some(n) => match dict_from(doc, n) {
                Some(nd) => dict_has(nd, embedded_files()),
                None => false,
            },
            None => false,
        },
    }
}

/// A file-attachment annotation, or one whose `/FS` file specification
/// embeds a file (`/EF`).
pub open spec fn is_file_attachment(doc: PdfDocument, a: PdfDictionary) -> bool {
    name_under(a, subtype()) == Some(file_attachment()) || match dict_get(a, fs_name()) {
        Some(o) => match dict_from(doc, o) {
            Some(d) => dict_has(d, ef_name()),
            None => false,
        },
        None => false,
    }
}

/// The annotation `id` loads and is a file attachment.
pub open spec fn annot_is_attachment(doc: PdfDocument, id: ObjectId) -> bool {
    match get_dictionary(doc, id) {
        Some(a) => is_file_attachment(doc, a),
        None => false,
    }
}

/// The document still carries attachments.
pub open spec fn has_attachments(doc: PdfDocument, pages: Seq<(u32, ObjectId)>) -> bool {
    catalog_attachments(doc) || exists|j: int, k: int|
        0 <= j < pages.len() && 0 <= k < page_annots(doc, (#[trigger] pages[j]).1).len()
            && annot_is_attachment(doc, #[trigger] page_annots(doc, pages[j].1)[k])
}

fn catalog_has_attachments(doc: &PdfDocument) -> (r: bool)
    ensures
        r == catalog_attachments(*doc),
{
    let c = match doc.catalog() {
        Some(c) => c,
        None => {
            return false;
        },
    };
    let afk = af_key();
    if c.contains(afk.as_slice()) {
        return true;
    }
    let nk = names_key();
    let n = match c.get(nk.as_slice()) {
        Some(n) => n,
        None => {
            return false;
        },
    };
    let nd = match doc.dict_from(n) {
        Some(d) => d,
        None => {
            return false;
        },
    };
    let ek = embedded_files_key();
    nd.contains(ek.as_slice())
}

fn is_file_attachment_dict(doc: &PdfDocument, a: &PdfDictionary) -> (r: bool)
    ensures
        r == is_file_attachment(*doc, *a),
{
    let sk = subtype_key();
    let fk = file_attachment_key();
    if name_is(a, sk.as_slice(), fk.as_slice()) {
        return true;
    }
    let fsk = fs_key();
    let o = match a.get(fsk.as_slice()) {
        Some(o) => o,
        None => {
            return false;
        },
    };
    let d = match doc.dict_from(o) {
        Some(d) => d,
        None => {
            return false;
        },
    };
    let efk = ef_key();
    d.contains(efk.as_slice())
}

pub(crate) fn has_attachments_in(doc: &PdfDocument, pages: &Vec<(u32, ObjectId)>) -> (r: bool)
    ensures
        r == has_attachments(*doc, pages@),
{
    if catalog_has_attachments(doc) {
        return true;
    }
    let n = pages.len();
    let mut j: usize = 0;
    while j < n
        invariant
            n == pages@.len(),
            j <= n,
            forall|jj: int, k: int| 0 <= jj < j && 0 <= k < page_annots(*doc, (#[trigger] pages@[jj]).1).len()
                ==> !annot_is_attachment(*doc, #[trigger] page_annots(*doc, pages@[jj].1)[k]),
        decreases n - j,
    {
        let ids = page_annot_ids(doc, pages[j].1);
        let m = ids.len();
        let mut k: usize = 0;
        while k < m
            invariant
                m == ids@.len(),
                ids@ == page_annots(*doc, pages@[j as int].1),
                k <= m,
                j < n,
                n == pages@.len(),
                forall|kk: int| 0 <= kk < k ==> !annot_is_attachment(*doc, #[trigger] ids@[kk]),
            decreases m - k,
        {
            match doc.get_dictionary(ids[k]) {
                Some(a) => {
                    if is_file_attachment_dict(doc, a) {
                        assert(annot_is_attachment(*doc, page_annots(*doc, pages@[j as int].1)[k as int]));
                        return true;
                    }
                },
                None => {},
            }
            k = k + 1;
        }
        j = j + 1;
    }
    false
}

/// The ids that `refs_in` lists are exactly those of the references among
/// the items.
pub proof fn lemma_refs_in_members(items: Seq<PdfObject>, id: ObjectId)
    ensures
        refs_in(items).contains(id) <==> exists|i: int| 0 <= i < items.len() && items[i] == PdfObject::Reference(id),
    decreases items.len(),
{
    if items.len() > 0 {
        let front = items.drop_last();
        lemma_refs_in_members(front, id);
        let last = items.last();
        if exists|i: int| 0 <= i < front.len() && front[i] == PdfObject::Reference(id) {
            let i = choose|i: int| 0 <= i < front.len() && front[i] == PdfObject::Reference(id);
            assert(items[i] == PdfObject::Reference(id));
        }
        if exists|i: int| 0 <= i < items.len() && items[i] == PdfObject::Reference(id) {
            let i = choose|i: int| 0 <= i < items.len() && items[i] == PdfObject::Reference(id);
            if i < items.len() - 1 {
                assert(front[i] == items[i]);
            }
        }
        match last {
            PdfObject::Reference(x) => {
                let q = refs_in(front);
                assert(refs_in(items) == q.push(x));
                if q.contains(id) {
                    let k = choose|k: int| 0 <= k < q.len() && q[k] == id;
                    assert(q.push(x)[k] == id);
                }
                if x == id {
                    assert(q.push(x)[q.len() as int] == id);
                    assert(items[items.len() - 1] == PdfObject::Reference(id));
                }
                if q.push(x).contains(id) {
                    let k = choose|k: int| 0 <= k < q.push(x).len() && q.push(x)[k] == id;
                    if k < q.len() {
                        assert(q[k] == id);
                    }
                }
            },
            _ => {
                assert(refs_in(items) == refs_in(front));
            },
        }
    }
}

/// An `/Annots` entry given by reference to an array is resolved: the
/// page's annotations are exactly the references listed in that array, in
/// order, and no others.
pub proof fn law_indirect_annots_are_resolved(doc: PdfDocument, page_id: ObjectId, page: PdfDictionary, aid: ObjectId, items: Vec<PdfObject>)
    requires
        get_dictionary(doc, page_id) == Some(page),
        dict_get(page, annots()) == Some(PdfObject::Reference(aid)),
        get_object(doc, aid) == Some(PdfObject::Array(items)),
    ensures
        page_annots(doc, page_id) == refs_in(items@),
        forall|id: ObjectId| #[trigger] page_annots(doc, page_id).contains(id)
            <==> exists|i: int| 0 <= i < items@.len() && items@[i] == PdfObject::Reference(id),
{
    assert forall|id: ObjectId| #[trigger] page_annots(doc, page_id).contains(id)
        <==> exists|i: int| 0 <= i < items@.len() && items@[i] == PdfObject::Reference(id) by {
        lemma_refs_in_members(items@, id);
    }
}

/// The same for an `/Annots` array written inline in the page.
pub proof fn law_inline_annots(doc: PdfDocument, page_id: ObjectId, page: PdfDictionary, items: Vec<PdfObject>)
    requires
        get_dictionary(doc, page_id) == Some(page),
        dict_get(page, annots()) == Some(PdfObject::Array(items)),
    ensures
        page_annots(doc, page_id) == refs_in(items@),
        forall|id: ObjectId| #[trigger] page_annots(doc, page_id).contains(id)
            <==> exists|i: int| 0 <= i < items@.len() && items@[i] == PdfObject::Reference(id),
{
    assert forall|id: ObjectId| #[trigger] page_annots(doc, page_id).contains(id)
        <==> exists|i: int| 0 <= i < items@.len() && items@[i] == PdfObject::Reference(id) by {
        lemma_refs_in_members(items@, id);
    }
}

} // verus!

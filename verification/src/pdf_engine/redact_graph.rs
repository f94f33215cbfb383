//! Walks over the object graph used by redaction verification: the chain of
//! inherited `/Resources` of a page, and the depth-first walk through
//! `/XObject` streams. Each walk remembers the objects it has seen, so a
//! cyclic document ends; the specifications carry a step bound (`fuel`) of
//! one step per stored object, which the walks never exhaust.

use crate::pdf_model::{
    bytes_eq, dict_from, dict_get, get_dictionary, get_object, get_stream, has_object, is_first_id,
    name_under, ref_under, ObjectId, PdfDictionary, PdfDocument, PdfObject, PdfStream,
};
use crate::pdf_names::{
    form, form_key, image, image_key, parent, parent_key, resources, resources_key, subtype,
    subtype_key, xobject, xobject_key,
};
use crate::pdf_reader::{
    decompressed_content, page_content_ids, pdf_decompressed_content, pdf_page_content_ids, pdf_plain_content,
    plain_content,
};
use vstd::prelude::*;

verus! {

/// The ids of the stored objects.
pub open spec fn object_ids(doc: PdfDocument) -> Set<ObjectId> {
    Set::new(|id: ObjectId| has_object(doc, id))
}

/// The ids in `seen` that name stored objects.
pub open spec fn known(doc: PdfDocument, seen: Seq<ObjectId>) -> Set<ObjectId> {
    Set::new(|id: ObjectId| seen.contains(id) && has_object(doc, id))
}

pub proof fn lemma_object_ids_finite(doc: PdfDocument)
    ensures
        object_ids(doc).finite(),
        object_ids(doc).len() <= doc.objects@.len(),
{
    let ids = doc.objects@.map_values(|e: (ObjectId, PdfObject)| e.0);
    ids.lemma_cardinality_of_set();
    assert forall|id: ObjectId| object_ids(doc).contains(id) implies ids.to_set().contains(id) by {
        let i = choose|i: int| 0 <= i < doc.objects@.len() && doc.objects@[i].0 == id;
        assert(ids[i] == id);
    }
    vstd::set_lib::lemma_len_subset(object_ids(doc), ids.to_set());
}

pub proof fn lemma_known_bound(doc: PdfDocument, seen: Seq<ObjectId>)
    ensures
        known(doc, seen).finite(),
        known(doc, seen).len() <= doc.objects@.len(),
{
    lemma_object_ids_finite(doc);
    assert(known(doc, seen).subset_of(object_ids(doc)));
    vstd::set_lib::lemma_len_subset(known(doc, seen), object_ids(doc));
}

/// Seeing a new stored object adds one to what is known.
pub proof fn lemma_known_push_new(doc: PdfDocument, seen: Seq<ObjectId>, x: ObjectId)
    requires
        !seen.contains(x),
        has_object(doc, x),
    ensures
        known(doc, seen.push(x)).len() == known(doc, seen).len() + 1,
{
    lemma_known_bound(doc, seen);
    assert forall|y: ObjectId| seen.push(x).contains(y) <==> seen.contains(y) || y == x by {
        if seen.contains(y) {
            let k = choose|k: int| 0 <= k < seen.len() && seen[k] == y;
            assert(seen.push(x)[k] == y);
        }
        if y == x {
            assert(seen.push(x)[seen.len() as int] == y);
        }
        if seen.push(x).contains(y) {
            let k = choose|k: int| 0 <= k < seen.push(x).len() && seen.push(x)[k] == y;
            if k < seen.len() {
                assert(seen[k] == y);
            }
        }
    }
    assert(known(doc, seen.push(x)) =~= known(doc, seen).insert(x));
}

/// What is known only grows when `seen` grows.
pub proof fn lemma_known_grows(doc: PdfDocument, s1: Seq<ObjectId>, s2: Seq<ObjectId>)
    requires
        s1.is_prefix_of(s2),
    ensures
        known(doc, s1).len() <= known(doc, s2).len(),
{
    lemma_known_bound(doc, s2);
    assert forall|y: ObjectId| known(doc, s1).contains(y) implies known(doc, s2).contains(y) by {
        let k = choose|k: int| 0 <= k < s1.len() && s1[k] == y;
        assert(s2[k] == s1[k]);
    }
    vstd::set_lib::lemma_len_subset(known(doc, s1), known(doc, s2));
}

pub proof fn lemma_get_object_stored(doc: PdfDocument, id: ObjectId)
    ensures
        get_object(doc, id) is Some ==> has_object(doc, id),
{
    if get_object(doc, id) is Some {
        let i = choose|i: int| is_first_id(doc.objects@, id, i);
        assert(doc.objects@[i].0 == id);
    }
}

/// Whether `id` is among `v`.
pub fn ids_contain(v: &Vec<ObjectId>, id: ObjectId) -> (r: bool)
    ensures
        r == v@.contains(id),
{
    let mut i: usize = 0;
    while i < v.len()
        invariant
            i <= v@.len(),
            forall|j: int| 0 <= j < i ==> v@[j] != id,
        decreases v@.len() - i,
    {
        if v[i].0 == id.0 && v[i].1 == id.1 {
            return true;
        }
        i = i + 1;
    }
    false
}

/// The `/Resources` dictionary of a page-tree node, given inline or by
/// reference, if any.
pub open spec fn resources_of(doc: PdfDocument, node: PdfDictionary) -> Seq<PdfDictionary> {
    match dict_get(node, resources()) {
        Some(r) => match dict_from(doc, r) {
            Some(d) => seq![d],
            None => seq![],
        },
        None => seq![],
    }
}

/// Resource dictionaries met walking `/Parent` links from `cur`, stopping
/// at a missing link, a non-dictionary, or a node seen before.
pub open spec fn ancestors_from(doc: PdfDocument, cur: Option<ObjectId>, seen: Seq<ObjectId>, fuel: nat) -> Seq<PdfDictionary>
    decreases fuel,
{
    if fuel == 0 {
        seq![]
    } else {
        match cur {
            None => seq![],
            Some(id) => if seen.contains(id) {
                seq![]
            } else {
                match get_dictionary(doc, id) {
                    None => seq![],
                    Some(node) => resources_of(doc, node) + ancestors_from(doc, ref_under(node, parent()), seen.push(id), (fuel - 1) as nat),
                }
            },
        }
    }
}

/// The resource dictionaries of a page and of its page-tree ancestors,
/// nearest first.
pub open spec fn ancestor_resources(doc: PdfDocument, start: ObjectId) -> Seq<PdfDictionary> {
    ancestors_from(doc, Some(start), seq![], doc.objects@.len() + 1)
}

pub open spec fn derefs<'a>(v: Seq<&'a PdfDictionary>) -> Seq<PdfDictionary> {
    v.map_values(|d: &PdfDictionary| *d)
}

pub(crate) fn ancestor_resource_dicts<'a>(doc: &'a PdfDocument, start: ObjectId) -> (r: Vec<&'a PdfDictionary>)
    ensures
        derefs(r@) == ancestor_resources(*doc, start),
{
    let mut dicts: Vec<&'a PdfDictionary> = Vec::new();
    let mut current: Option<ObjectId> = Some(start);
    let mut seen: Vec<ObjectId> = Vec::new();
    let ghost mut fuel: nat = doc.objects@.len() + 1;
    let res_key = resources_key();
    let parent_k = parent_key();
    proof {
        assert(known(*doc, seen@) =~= Set::<ObjectId>::empty());
    }
    loop
        invariant_except_break
            res_key@ == resources(),
            parent_k@ == parent(),
            fuel + known(*doc, seen@).len() >= doc.objects@.len() + 1,
            derefs(dicts@) + ancestors_from(*doc, current, seen@, fuel) == ancestor_resources(*doc, start),
        ensures
            derefs(dicts@) == ancestor_resources(*doc, start),
        decreases fuel,
    {
        proof {
            lemma_known_bound(*doc, seen@);
        }
        match current {
            None => {
                assert(derefs(dicts@) + seq![] =~= derefs(dicts@));
                break;
            },
            Some(id) => {
                if ids_contain(&seen, id) {
                    assert(derefs(dicts@) + seq![] =~= derefs(dicts@));
                    break;
                }
                let ghost before = seen@;
                seen.push(id);
                match doc.get_dictionary(id) {
                    None => {
                        assert(derefs(dicts@) + seq![] =~= derefs(dicts@));
                        break;
                    },
                    Some(node) => {
                        proof {
                            lemma_get_object_stored(*doc, id);
                            lemma_known_push_new(*doc, before, id);
                        }
                        let ghost old_dicts = derefs(dicts@);
                        match node.get(res_key.as_slice()) {
                            Some(res) => match doc.dict_from(res) {
                                Some(d) => {
                                    dicts.push(d);
                                    assert(derefs(dicts@) =~= old_dicts + seq![*d]);
                                    assert(resources_of(*doc, *node) == seq![*d]);
                                },
                                None => {
                                    assert(old_dicts + seq![] =~= old_dicts);
                                    assert(resources_of(*doc, *node) == Seq::<PdfDictionary>::empty());
                                },
                            },
                            None => {
                                assert(old_dicts + seq![] =~= old_dicts);
                                assert(resources_of(*doc, *node) == Seq::<PdfDictionary>::empty());
                            },
                        }
                        current = node.reference(parent_k.as_slice());
                        proof {
                            fuel = (fuel - 1) as nat;
                        }
                        assert(derefs(dicts@) == old_dicts + resources_of(*doc, *node));
                    },
                }
            },
        }
    }
    dicts
}

/// The bytes of a stream as the checks read them: decoded when its filters
/// can be undone, else its stored bytes.
pub open spec fn stream_text(s: PdfStream) -> Seq<u8> {
    match pdf_plain_content(s) {
        Some(b) => b,
        None => match pdf_decompressed_content(s) {
            Some(b) => b,
            None => s.content@,
        },
    }
}

pub(crate) fn plain_stream(s: &PdfStream) -> (r: Vec<u8>)
    ensures
        r@ == stream_text(*s),
{
    match plain_content(s) {
        Some(b) => b,
        None => match decompressed_content(s) {
            Some(b) => b,
            None => s.content.clone(),
        },
    }
}

/// A stream's `/Subtype` is `/Form`.
pub open spec fn is_form(st: PdfStream) -> bool {
    name_under(st.dict, subtype()) == Some(form())
}

/// A stream's `/Subtype` is `/Image`.
pub open spec fn is_image(st: PdfStream) -> bool {
    name_under(st.dict, subtype()) == Some(image())
}

/// Whether the name under `key` is `value`.
pub(crate) fn name_is(d: &PdfDictionary, key: &[u8], value: &[u8]) -> (r: bool)
    ensures
        r == (name_under(*d, key@) == Some(value@)),
{
    match d.name(key) {
        Some(n) => bytes_eq(n, value),
        None => false,
    }
}

/// The `/Resources` of a form XObject, inline or by reference.
pub open spec fn form_resources(doc: PdfDocument, st: PdfStream) -> Option<PdfDictionary> {
    match dict_get(st.dict, resources()) {
        Some(r) => dict_from(doc, r),
        None => None,
    }
}

/// The streams reached from the `/XObject` entries of a resource
/// dictionary, depth first through form XObjects, each stream at most once;
/// and `seen` afterwards.
pub open spec fn xobject_visits(doc: PdfDocument, res: PdfDictionary, seen: Seq<ObjectId>, fuel: nat) -> (Seq<PdfStream>, Seq<ObjectId>)
    decreases fuel, 1nat, 0nat,
{
    match dict_get(res, xobject()) {
        Some(xo) => match dict_from(doc, xo) {
            Some(xobjs) => entry_visits(doc, xobjs.entries@, 0, seen, fuel),
            None => (seq![], seen),
        },
        None => (seq![], seen),
    }
}

/// `xobject_visits` over the entries from position `i` on.
pub open spec fn entry_visits(doc: PdfDocument, es: Seq<(Vec<u8>, PdfObject)>, i: int, seen: Seq<ObjectId>, fuel: nat) -> (Seq<PdfStream>, Seq<ObjectId>)
    decreases fuel, 0nat, (es.len() - i) as nat,
{
    if i < 0 || i >= es.len() {
        (seq![], seen)
    } else {
        let (here, seen1) = visit_entry(doc, es[i].1, seen, fuel);
        let (rest, seen2) = entry_visits(doc, es, i + 1, seen1, fuel);
        (here + rest, seen2)
    }
}

/// One `/XObject` entry: a reference not seen before is marked seen; if it
/// names a stream, that stream is visited, and a form's own resources after it.
pub open spec fn visit_entry(doc: PdfDocument, o: PdfObject, seen: Seq<ObjectId>, fuel: nat) -> (Seq<PdfStream>, Seq<ObjectId>)
    decreases fuel, 0nat, 0nat,
{
    match o {
        PdfObject::Reference(id) => if seen.contains(id) {
            (seq![], seen)
        } else {
            match get_stream(doc, id) {
                None => (seq![], seen.push(id)),
                Some(st) => if is_form(st) && fuel > 0 {
                    match form_resources(doc, st) {
                        Some(d) => {
                            let (inner, s2) = xobject_visits(doc, d, seen.push(id), (fuel - 1) as nat);
                            (seq![st] + inner, s2)
                        },
                        None => (seq![st], seen.push(id)),
                    }
                } else {
                    (seq![st], seen.push(id))
                },
            }
        },
        _ => (seq![], seen),
    }
}

/// The bytes of visited streams, each followed by a newline.
pub open spec fn joined(v: Seq<PdfStream>) -> Seq<u8>
    decreases v.len(),
{
    if v.len() == 0 {
        seq![]
    } else {
        joined(v.drop_last()) + stream_text(v.last()) + seq![10u8]
    }
}

pub proof fn lemma_joined_single(s: PdfStream)
    ensures
        joined(seq![s]) == stream_text(s) + seq![10u8],
{
    let v = seq![s];
    assert(v.drop_last() =~= Seq::<PdfStream>::empty());
    assert(v.last() == s);
    assert(joined(v.drop_last()) == Seq::<u8>::empty());
    assert(joined(v) == joined(v.drop_last()) + stream_text(v.last()) + seq![10u8]);
    assert(Seq::<u8>::empty() + stream_text(s) + seq![10u8] =~= stream_text(s) + seq![10u8]);
}

pub proof fn lemma_joined_concat(a: Seq<PdfStream>, b: Seq<PdfStream>)
    ensures
        joined(a + b) == joined(a) + joined(b),
    decreases b.len(),
{
    if b.len() == 0 {
        assert(a + b =~= a);
        assert(joined(a) + joined(b) =~= joined(a));
    } else {
        lemma_joined_concat(a, b.drop_last());
        assert((a + b).drop_last() =~= a + b.drop_last());
        assert((a + b).last() == b.last());
        assert(joined(a + b) =~= joined(a) + joined(b));
    }
}

/// The byte strings held by a vector of byte vectors.
pub open spec fn views(v: Seq<Vec<u8>>) -> Seq<Seq<u8>> {
    v.map_values(|b: Vec<u8>| b@)
}

/// The probe of a visited stream: a form's or image's non-empty bytes.
pub open spec fn probe_of(s: PdfStream) -> Option<Seq<u8>> {
    if (is_form(s) || is_image(s)) && stream_text(s).len() > 0 {
        Some(stream_text(s))
    } else {
        None
    }
}

/// The probes of visited streams, in order.
pub open spec fn probes_of(v: Seq<PdfStream>) -> Seq<Seq<u8>>
    decreases v.len(),
{
    if v.len() == 0 {
        seq![]
    } else {
        match probe_of(v.last()) {
            Some(p) => probes_of(v.drop_last()).push(p),
            None => probes_of(v.drop_last()),
        }
    }
}

pub proof fn lemma_probes_single(s: PdfStream)
    ensures
        probes_of(seq![s]) == match probe_of(s) {
            Some(p) => seq![p],
            None => Seq::<Seq<u8>>::empty(),
        },
{
    let v = seq![s];
    assert(v.drop_last() =~= Seq::<PdfStream>::empty());
    assert(v.last() == s);
    assert(probes_of(v.drop_last()) == Seq::<Seq<u8>>::empty());
    if let Some(p) = probe_of(s) {
        assert(Seq::<Seq<u8>>::empty().push(p) =~= seq![p]);
    }
}

pub proof fn lemma_probes_concat(a: Seq<PdfStream>, b: Seq<PdfStream>)
    ensures
        probes_of(a + b) == probes_of(a) + probes_of(b),
    decreases b.len(),
{
    if b.len() == 0 {
        assert(a + b =~= a);
        assert(probes_of(a) + probes_of(b) =~= probes_of(a));
    } else {
        lemma_probes_concat(a, b.drop_last());
        assert((a + b).drop_last() =~= a + b.drop_last());
        assert((a + b).last() == b.last());
        assert(probes_of(a + b) =~= probes_of(a) + probes_of(b));
    }
}

pub proof fn lemma_prefix_push(a: Seq<ObjectId>, x: ObjectId)
    ensures
        a.is_prefix_of(a.push(x)),
{
    assert(a =~= a.push(x).subrange(0, a.len() as int));
}

pub proof fn lemma_prefix_trans(a: Seq<ObjectId>, b: Seq<ObjectId>, c: Seq<ObjectId>)
    requires
        a.is_prefix_of(b),
        b.is_prefix_of(c),
    ensures
        a.is_prefix_of(c),
{
    assert(a =~= c.subrange(0, a.len() as int));
}

/// Appends the bytes of every stream reached from `resources` (see
/// `xobject_visits`), each followed by a newline.
pub(crate) fn append_xobject_streams(
    doc: &PdfDocument,
    res_dict: &PdfDictionary,
    out: &mut Vec<u8>,
    seen: &mut Vec<ObjectId>,
    Ghost(fuel): Ghost<nat>,
)
    requires
        fuel + known(*doc, old(seen)@).len() >= doc.objects@.len(),
    ensures
        final(out)@ == old(out)@ + joined(xobject_visits(*doc, *res_dict, old(seen)@, fuel).0),
        final(seen)@ == xobject_visits(*doc, *res_dict, old(seen)@, fuel).1,
        old(seen)@.is_prefix_of(final(seen)@),
    decreases fuel,
{
    let ghost out0 = out@;
    let ghost seen0 = seen@;
    assert(seen0 =~= seen0.subrange(0, seen0.len() as int));
    assert(out0 + joined(Seq::<PdfStream>::empty()) =~= out0);
    let xo_key = xobject_key();
    let xo = match res_dict.get(xo_key.as_slice()) {
        Some(x) => x,
        None => {
            return;
        },
    };
    let xobjects = match doc.dict_from(xo) {
        Some(d) => d,
        None => {
            return;
        },
    };
    let sub_key = subtype_key();
    let form_name = form_key();
    let res_key = resources_key();
    let n = xobjects.entries.len();
    let ghost es = xobjects.entries@;
    let ghost mut acc: Seq<PdfStream> = seq![];
    let mut i: usize = 0;
    while i < n
        invariant
            n == es.len(),
            es == xobjects.entries@,
            i <= n,
            sub_key@ == subtype(),
            form_name@ == form(),
            res_key@ == resources(),
            xobject_visits(*doc, *res_dict, seen0, fuel) == entry_visits(*doc, es, 0, seen0, fuel),
            entry_visits(*doc, es, 0, seen0, fuel) == (acc + entry_visits(*doc, es, i as int, seen@, fuel).0, entry_visits(*doc, es, i as int, seen@, fuel).1),
            out@ == out0 + joined(acc),
            seen0.is_prefix_of(seen@),
            fuel + known(*doc, seen@).len() >= doc.objects@.len(),
        decreases n - i,
    {
        let ghost seen_i = seen@;
        let ghost out_i = out@;
        let ghost step = visit_entry(*doc, es[i as int].1, seen_i, fuel);
        assert(entry_visits(*doc, es, i as int, seen_i, fuel) == (step.0 + entry_visits(*doc, es, i + 1, step.1, fuel).0, entry_visits(*doc, es, i + 1, step.1, fuel).1));
        match &xobjects.entries[i].1 {
            PdfObject::Reference(id) => {
                if !ids_contain(seen, *id) {
                    seen.push(*id);
                    proof {
                        lemma_prefix_push(seen_i, *id);
                        lemma_prefix_trans(seen0, seen_i, seen@);
                        lemma_known_grows(*doc, seen_i, seen@);
                    }
                    match doc.get_stream(*id) {
                        Some(stream) => {
                            proof {
                                lemma_get_object_stored(*doc, *id);
                                lemma_known_push_new(*doc, seen_i, *id);
                                lemma_known_bound(*doc, seen@);
                            }
                            let mut bytes = plain_stream(stream);
                            out.append(&mut bytes);
                            out.push(10u8);
                            proof {
                                lemma_joined_single(*stream);
                            }
                            assert(out@ =~= out_i + joined(seq![*stream]));
                            let mut nested = false;
                            if name_is(&stream.dict, sub_key.as_slice(), form_name.as_slice()) {
                                match stream.dict.get(res_key.as_slice()) {
                                    Some(r) => match doc.dict_from(r) {
                                        Some(d) => {
                                            let ghost out_j = out@;
                                            let ghost seen_j = seen@;
                                            append_xobject_streams(doc, d, out, seen, Ghost((fuel - 1) as nat));
                                            proof {
                                                lemma_prefix_trans(seen0, seen_j, seen@);
                                                lemma_known_grows(*doc, seen_j, seen@);
                                                let inner = xobject_visits(*doc, *d, seen_j, (fuel - 1) as nat).0;
                                                lemma_joined_concat(seq![*stream], inner);
                                                assert(out@ =~= out_i + joined(seq![*stream] + inner));
                                            }
                                            nested = true;
                                        },
                                        None => {},
                                    },
                                    None => {},
                                }
                            }
                            assert(out@ == out_i + joined(step.0));
                        },
                        None => {
                            assert(out@ =~= out_i + joined(step.0));
                        },
                    }
                } else {
                    assert(out@ =~= out_i + joined(step.0));
                }
            },
            _ => {
                assert(out@ =~= out_i + joined(step.0));
            },
        }
        proof {
            lemma_joined_concat(acc, step.0);
            assert(acc + entry_visits(*doc, es, i as int, seen_i, fuel).0 =~= (acc + step.0) + entry_visits(*doc, es, i + 1, step.1, fuel).0);
            acc = acc + step.0;
        }
        i = i + 1;
    }
    assert(entry_visits(*doc, es, n as int, seen@, fuel).0 =~= Seq::<PdfStream>::empty());
    assert(acc + Seq::<PdfStream>::empty() =~= acc);
}

/// Appends the probes of the streams reached from `resources` (see
/// `xobject_visits`): the non-empty bytes of each form or image.
pub(crate) fn collect_xobject_probes_from_dict(
    doc: &PdfDocument,
    res_dict: &PdfDictionary,
    probes: &mut Vec<Vec<u8>>,
    seen: &mut Vec<ObjectId>,
    Ghost(fuel): Ghost<nat>,
)
    requires
        fuel + known(*doc, old(seen)@).len() >= doc.objects@.len(),
    ensures
        views(final(probes)@) == views(old(probes)@) + probes_of(xobject_visits(*doc, *res_dict, old(seen)@, fuel).0),
        final(seen)@ == xobject_visits(*doc, *res_dict, old(seen)@, fuel).1,
        old(seen)@.is_prefix_of(final(seen)@),
    decreases fuel,
{
    let ghost out0 = views(probes@);
    let ghost seen0 = seen@;
    assert(seen0 =~= seen0.subrange(0, seen0.len() as int));
    assert(out0 + probes_of(Seq::<PdfStream>::empty()) =~= out0);
    let xo_key = xobject_key();
    let xo = match res_dict.get(xo_key.as_slice()) {
        Some(x) => x,
        None => {
            return;
        },
    };
    let xobjects = match doc.dict_from(xo) {
        Some(d) => d,
        None => {
            return;
        },
    };
    let sub_key = subtype_key();
    let form_name = form_key();
    let image_name = image_key();
    let res_key = resources_key();
    let n = xobjects.entries.len();
    let ghost es = xobjects.entries@;
    let ghost mut acc: Seq<PdfStream> = seq![];
    let mut i: usize = 0;
    while i < n
        invariant
            n == es.len(),
            es == xobjects.entries@,
            i <= n,
            sub_key@ == subtype(),
            form_name@ == form(),
            image_name@ == image(),
            res_key@ == resources(),
            xobject_visits(*doc, *res_dict, seen0, fuel) == entry_visits(*doc, es, 0, seen0, fuel),
            entry_visits(*doc, es, 0, seen0, fuel) == (acc + entry_visits(*doc, es, i as int, seen@, fuel).0, entry_visits(*doc, es, i as int, seen@, fuel).1),
            views(probes@) == out0 + probes_of(acc),
            seen0.is_prefix_of(seen@),
            fuel + known(*doc, seen@).len() >= doc.objects@.len(),
        decreases n - i,
    {
        let ghost seen_i = seen@;
        let ghost out_i = views(probes@);
        let ghost step = visit_entry(*doc, es[i as int].1, seen_i, fuel);
        assert(entry_visits(*doc, es, i as int, seen_i, fuel) == (step.0 + entry_visits(*doc, es, i + 1, step.1, fuel).0, entry_visits(*doc, es, i + 1, step.1, fuel).1));
        match &xobjects.entries[i].1 {
            PdfObject::Reference(id) => {
                if !ids_contain(seen, *id) {
                    seen.push(*id);
                    proof {
                        lemma_prefix_push(seen_i, *id);
                        lemma_prefix_trans(seen0, seen_i, seen@);
                        lemma_known_grows(*doc, seen_i, seen@);
                    }
                    match doc.get_stream(*id) {
                        Some(stream) => {
                            proof {
                                lemma_get_object_stored(*doc, *id);
                                lemma_known_push_new(*doc, seen_i, *id);
                                lemma_known_bound(*doc, seen@);
                            }
                            let stream_is_form = name_is(&stream.dict, sub_key.as_slice(), form_name.as_slice());
                            let stream_is_image = name_is(&stream.dict, sub_key.as_slice(), image_name.as_slice());
                            if stream_is_form || stream_is_image {
                                let bytes = plain_stream(stream);
                                if bytes.len() > 0 {
                                    probes.push(bytes);
                                }
                            }
                            proof {
                                lemma_probes_single(*stream);
                            }
                            assert(views(probes@) =~= out_i + probes_of(seq![*stream]));
                            let mut nested = false;
                            if stream_is_form {
                                match stream.dict.get(res_key.as_slice()) {
                                    Some(r) => match doc.dict_from(r) {
                                        Some(d) => {
                                            let ghost out_j = views(probes@);
                                            let ghost seen_j = seen@;
                                            collect_xobject_probes_from_dict(doc, d, probes, seen, Ghost((fuel - 1) as nat));
                                            proof {
                                                lemma_prefix_trans(seen0, seen_j, seen@);
                                                lemma_known_grows(*doc, seen_j, seen@);
                                                let inner = xobject_visits(*doc, *d, seen_j, (fuel - 1) as nat).0;
                                                lemma_probes_concat(seq![*stream], inner);
                                                assert(views(probes@) =~= out_i + probes_of(seq![*stream] + inner));
                                            }
                                            nested = true;
                                        },
                                        None => {},
                                    },
                                    None => {},
                                }
                            }
                            assert(views(probes@) == out_i + probes_of(step.0));
                        },
                        None => {
                            assert(views(probes@) =~= out_i + probes_of(step.0));
                        },
                    }
                } else {
                    assert(views(probes@) =~= out_i + probes_of(step.0));
                }
            },
            _ => {
                assert(views(probes@) =~= out_i + probes_of(step.0));
            },
        }
        proof {
            lemma_probes_concat(acc, step.0);
            assert(acc + entry_visits(*doc, es, i as int, seen_i, fuel).0 =~= (acc + step.0) + entry_visits(*doc, es, i + 1, step.1, fuel).0);
            acc = acc + step.0;
        }
        i = i + 1;
    }
    assert(entry_visits(*doc, es, n as int, seen@, fuel).0 =~= Seq::<PdfStream>::empty());
    assert(acc + Seq::<PdfStream>::empty() =~= acc);
}

/// Streams reached from a sequence of resource dictionaries, one walk
/// after another, sharing what has been seen.
pub open spec fn fold_visits(doc: PdfDocument, dicts: Seq<PdfDictionary>, seen: Seq<ObjectId>, fuel: nat) -> (Seq<PdfStream>, Seq<ObjectId>)
    decreases dicts.len(),
{
    if dicts.len() == 0 {
        (seq![], seen)
    } else {
        let (v1, s1) = fold_visits(doc, dicts.drop_last(), seen, fuel);
        let (v2, s2) = xobject_visits(doc, dicts.last(), s1, fuel);
        (v1 + v2, s2)
    }
}

/// The XObject streams of a page: those reached from its own and its
/// inherited resource dictionaries.
pub open spec fn page_xobject_visits(doc: PdfDocument, page_id: ObjectId) -> Seq<PdfStream> {
    fold_visits(doc, ancestor_resources(doc, page_id), seq![], doc.objects@.len()).0
}

pub(crate) fn append_page_xobjects(doc: &PdfDocument, page_id: ObjectId, out: &mut Vec<u8>)
    ensures
        final(out)@ == old(out)@ + joined(page_xobject_visits(*doc, page_id)),
{
    let ghost out0 = out@;
    let ghost fuel: nat = doc.objects@.len();
    let mut seen: Vec<ObjectId> = Vec::new();
    let dicts = ancestor_resource_dicts(doc, page_id);
    let ghost all = derefs(dicts@);
    let n = dicts.len();
    let mut j: usize = 0;
    proof {
        assert(known(*doc, seen@) =~= Set::<ObjectId>::empty());
        assert(all.take(0) =~= Seq::<PdfDictionary>::empty());
        assert(out0 + joined(Seq::<PdfStream>::empty()) =~= out0);
    }
    while j < n
        invariant
            n == dicts@.len(),
            all == derefs(dicts@),
            j <= n,
            fuel == doc.objects@.len(),
            out@ == out0 + joined(fold_visits(*doc, all.take(j as int), seq![], fuel).0),
            seen@ == fold_visits(*doc, all.take(j as int), seq![], fuel).1,
            fuel + known(*doc, seen@).len() >= doc.objects@.len(),
        decreases n - j,
    {
        let ghost prev = fold_visits(*doc, all.take(j as int), seq![], fuel);
        append_xobject_streams(doc, dicts[j], out, &mut seen, Ghost(fuel));
        proof {
            lemma_known_bound(*doc, seen@);
            assert(all.take(j + 1).drop_last() =~= all.take(j as int));
            assert(all.take(j + 1).last() == *dicts@[j as int]);
            let step = xobject_visits(*doc, *dicts@[j as int], prev.1, fuel);
            lemma_joined_concat(prev.0, step.0);
            assert(out@ =~= out0 + joined(prev.0 + step.0));
        }
        j = j + 1;
    }
    proof {
        assert(all.take(n as int) =~= all);
    }
}

pub(crate) fn collect_xobject_probes(doc: &PdfDocument, page_id: ObjectId, probes: &mut Vec<Vec<u8>>)
    ensures
        views(final(probes)@) == views(old(probes)@) + probes_of(page_xobject_visits(*doc, page_id)),
{
    let ghost out0 = views(probes@);
    let ghost fuel: nat = doc.objects@.len();
    let mut seen: Vec<ObjectId> = Vec::new();
    let dicts = ancestor_resource_dicts(doc, page_id);
    let ghost all = derefs(dicts@);
    let n = dicts.len();
    let mut j: usize = 0;
    proof {
        assert(known(*doc, seen@) =~= Set::<ObjectId>::empty());
        assert(all.take(0) =~= Seq::<PdfDictionary>::empty());
        assert(out0 + probes_of(Seq::<PdfStream>::empty()) =~= out0);
    }
    while j < n
        invariant
            n == dicts@.len(),
            all == derefs(dicts@),
            j <= n,
            fuel == doc.objects@.len(),
            views(probes@) == out0 + probes_of(fold_visits(*doc, all.take(j as int), seq![], fuel).0),
            seen@ == fold_visits(*doc, all.take(j as int), seq![], fuel).1,
            fuel + known(*doc, seen@).len() >= doc.objects@.len(),
        decreases n - j,
    {
        let ghost prev = fold_visits(*doc, all.take(j as int), seq![], fuel);
        collect_xobject_probes_from_dict(doc, dicts[j], probes, &mut seen, Ghost(fuel));
        proof {
            lemma_known_bound(*doc, seen@);
            assert(all.take(j + 1).drop_last() =~= all.take(j as int));
            assert(all.take(j + 1).last() == *dicts@[j as int]);
            let step = xobject_visits(*doc, *dicts@[j as int], prev.1, fuel);
            lemma_probes_concat(prev.0, step.0);
            assert(views(probes@) =~= out0 + probes_of(prev.0 + step.0));
        }
        j = j + 1;
    }
    proof {
        assert(all.take(n as int) =~= all);
    }
}

/// The streams among the objects `ids`, in order.
pub open spec fn streams_among(doc: PdfDocument, ids: Seq<ObjectId>) -> Seq<PdfStream>
    decreases ids.len(),
{
    if ids.len() == 0 {
        seq![]
    } else {
        match get_stream(doc, ids.last()) {
            Some(st) => streams_among(doc, ids.drop_last()).push(st),
            None => streams_among(doc, ids.drop_last()),
        }
    }
}

/// A content stream's bytes as `Document::get_page_content` takes them:
/// decoded, or its stored bytes when its filters cannot be undone.
pub open spec fn content_text(s: PdfStream) -> Seq<u8> {
    match pdf_decompressed_content(s) {
        Some(b) => b,
        None => s.content@,
    }
}

/// The content texts of streams, each followed by a newline.
pub open spec fn content_joined(v: Seq<PdfStream>) -> Seq<u8>
    decreases v.len(),
{
    if v.len() == 0 {
        seq![]
    } else {
        content_joined(v.drop_last()) + content_text(v.last()) + seq![10u8]
    }
}

/// `Document::get_page_content`: every content stream of the page that
/// resolves to a stream, decoded, each followed by a newline.
pub open spec fn page_content_of(doc: PdfDocument, page_id: ObjectId) -> Seq<u8> {
    content_joined(streams_among(doc, pdf_page_content_ids(doc, page_id)))
}

/// The page's content, as `Document::get_page_content` concatenates it.
pub(crate) fn page_content(doc: &PdfDocument, page_id: ObjectId) -> (r: Vec<u8>)
    ensures
        r@ == page_content_of(*doc, page_id),
{
    let ids = page_content_ids(doc, page_id);
    let mut out: Vec<u8> = Vec::new();
    let n = ids.len();
    let mut k: usize = 0;
    assert(ids@.take(0) =~= Seq::<ObjectId>::empty());
    while k < n
        invariant
            n == ids@.len(),
            ids@ == pdf_page_content_ids(*doc, page_id),
            k <= n,
            out@ == content_joined(streams_among(*doc, ids@.take(k as int))),
        decreases n - k,
    {
        assert(ids@.take(k + 1).drop_last() =~= ids@.take(k as int));
        assert(ids@.take(k + 1).last() == ids@[k as int]);
        match doc.get_stream(ids[k]) {
            Some(stream) => {
                let mut b = match decompressed_content(stream) {
                    Some(d) => d,
                    None => stream.content.clone(),
                };
                out.append(&mut b);
                out.push(10u8);
                let ghost prev = streams_among(*doc, ids@.take(k as int));
                assert(prev.push(*stream).drop_last() =~= prev);
                assert(out@ =~= content_joined(prev.push(*stream)));
            },
            None => {},
        }
        k = k + 1;
    }
    assert(ids@.take(n as int) =~= ids@);
    out
}

/// What a page contributes to a haystack: its content as the reader
/// concatenates it and a newline, each content stream's bytes, then its
/// XObject streams' bytes (each followed by a newline).
pub open spec fn page_bytes(doc: PdfDocument, page_id: ObjectId) -> Seq<u8> {
    page_content_of(doc, page_id) + seq![10u8]
        + joined(streams_among(doc, pdf_page_content_ids(doc, page_id)))
        + joined(page_xobject_visits(doc, page_id))
}

pub(crate) fn append_page_streams(doc: &PdfDocument, page_id: ObjectId, out: &mut Vec<u8>)
    ensures
        final(out)@ == old(out)@ + page_bytes(*doc, page_id),
{
    let ghost out0 = out@;
    let mut bytes = page_content(doc, page_id);
    out.append(&mut bytes);
    out.push(10u8);
    let ghost head = out@;
    let ids = page_content_ids(doc, page_id);
    let n = ids.len();
    let mut k: usize = 0;
    assert(ids@.take(0) =~= Seq::<ObjectId>::empty());
    assert(head + joined(Seq::<PdfStream>::empty()) =~= head);
    while k < n
        invariant
            n == ids@.len(),
            k <= n,
            out@ == head + joined(streams_among(*doc, ids@.take(k as int))),
        decreases n - k,
    {
        let ghost before = out@;
        assert(ids@.take(k + 1).drop_last() =~= ids@.take(k as int));
        assert(ids@.take(k + 1).last() == ids@[k as int]);
        match doc.get_stream(ids[k]) {
            Some(stream) => {
                let mut b = plain_stream(stream);
                out.append(&mut b);
                out.push(10u8);
                let ghost prev = streams_among(*doc, ids@.take(k as int));
                assert(prev.push(*stream).drop_last() =~= prev);
                assert(out@ =~= head + joined(prev.push(*stream)));
            },
            None => {},
        }
        k = k + 1;
    }
    assert(ids@.take(n as int) =~= ids@);
    append_page_xobjects(doc, page_id, out);
    assert(out@ =~= out0 + page_bytes(*doc, page_id));
}

/// `i` is the first position of page number `no`.
pub open spec fn is_first_page(pages: Seq<(u32, ObjectId)>, no: u32, i: int) -> bool {
    &&& 0 <= i < pages.len()
    &&& pages[i].0 == no
    &&& forall|j: int| 0 <= j < i ==> (#[trigger] pages[j]).0 != no
}

/// The page object with page number `no`.
pub open spec fn page_lookup(pages: Seq<(u32, ObjectId)>, no: u32) -> Option<ObjectId> {
    if exists|i: int| is_first_page(pages, no, i) {
        Some(pages[choose|i: int| is_first_page(pages, no, i)].1)
    } else {
        None
    }
}

pub(crate) fn lookup_page(pages: &Vec<(u32, ObjectId)>, no: u32) -> (r: Option<ObjectId>)
    ensures
        r == page_lookup(pages@, no),
{
    let n = pages.len();
    let mut i: usize = 0;
    while i < n
        invariant
            n == pages@.len(),
            i <= n,
            forall|j: int| 0 <= j < i ==> (#[trigger] pages@[j]).0 != no,
        decreases n - i,
    {
        if pages[i].0 == no {
            assert(is_first_page(pages@, no, i as int));
            let ghost k = choose|k: int| is_first_page(pages@, no, k);
            assert(k == i) by {
                if k < i {
                    assert(pages@[k].0 != no);
                } else if k > i {
                    assert(pages@[i as int].0 != no);
                }
            }
            return Some(pages[i].1);
        }
        i = i + 1;
    }
    None
}

/// The haystack of a whole document: every page's bytes, in page order.
pub open spec fn document_bytes(doc: PdfDocument, pages: Seq<(u32, ObjectId)>) -> Seq<u8>
    decreases pages.len(),
{
    if pages.len() == 0 {
        seq![]
    } else {
        document_bytes(doc, pages.drop_last()) + page_bytes(doc, pages.last().1)
    }
}

pub(crate) fn page_content_haystack(doc: &PdfDocument, pages: &Vec<(u32, ObjectId)>) -> (r: Vec<u8>)
    ensures
        r@ == document_bytes(*doc, pages@),
{
    let mut out: Vec<u8> = Vec::new();
    let n = pages.len();
    let mut i: usize = 0;
    assert(pages@.take(0) =~= Seq::<(u32, ObjectId)>::empty());
    while i < n
        invariant
            n == pages@.len(),
            i <= n,
            out@ == document_bytes(*doc, pages@.take(i as int)),
        decreases n - i,
    {
        append_page_streams(doc, pages[i].1, &mut out);
        assert(pages@.take(i + 1).drop_last() =~= pages@.take(i as int));
        i = i + 1;
    }
    assert(pages@.take(n as int) =~= pages@);
    out
}

/// The haystack of one page, given by index: empty when there is no such page.
pub open spec fn page_index_bytes(doc: PdfDocument, pages: Seq<(u32, ObjectId)>, page_index: u32) -> Seq<u8> {
    match page_lookup(pages, (page_index + 1) as u32) {
        Some(id) => page_bytes(doc, id),
        None => seq![],
    }
}

pub(crate) fn page_content_haystack_for(doc: &PdfDocument, pages: &Vec<(u32, ObjectId)>, page_index: u32) -> (r: Vec<u8>)
    requires
        page_index < u32::MAX,
    ensures
        r@ == page_index_bytes(*doc, pages@, page_index),
{
    match lookup_page(pages, page_index + 1) {
        None => Vec::new(),
        Some(page_id) => {
            let mut out: Vec<u8> = Vec::new();
            append_page_streams(doc, page_id, &mut out);
            assert(out@ =~= page_bytes(*doc, page_id));
            out
        },
    }
}

/// The resource dictionary `res` names the object `id` among the entries of
/// its `/XObject` dictionary (inline or by reference).
pub open spec fn names_xobject(doc: PdfDocument, res: PdfDictionary, id: ObjectId) -> bool {
    match dict_get(res, xobject()) {
        Some(xo) => match dict_from(doc, xo) {
            Some(xobjs) => exists|i: int| 0 <= i < xobjs.entries@.len() && (#[trigger] xobjs.entries@[i]).1 == PdfObject::Reference(id),
            None => false,
        },
        None => false,
    }
}

/// A walk that started with `seen0` and ended with `s` extended what had
/// been seen, and every stream it newly marked seen is among the visited
/// streams `v`.
pub open spec fn walk_covers(doc: PdfDocument, seen0: Seq<ObjectId>, v: Seq<PdfStream>, s: Seq<ObjectId>) -> bool {
    &&& seen0.is_prefix_of(s)
    &&& forall|id: ObjectId| #[trigger] s.contains(id) && !seen0.contains(id) && get_stream(doc, id) is Some
        ==> v.contains(get_stream(doc, id)->Some_0)
}

pub proof fn lemma_prefix_contains(a: Seq<ObjectId>, b: Seq<ObjectId>, x: ObjectId)
    requires
        a.is_prefix_of(b),
        a.contains(x),
    ensures
        b.contains(x),
{
    let k = choose|k: int| 0 <= k < a.len() && a[k] == x;
    assert(a == b.subrange(0, a.len() as int));
    assert(b[k] == x);
}

pub proof fn lemma_contains_concat<T>(a: Seq<T>, b: Seq<T>, x: T)
    requires
        a.contains(x) || b.contains(x),
    ensures
        (a + b).contains(x),
{
    if a.contains(x) {
        let k = choose|k: int| 0 <= k < a.len() && a[k] == x;
        assert((a + b)[k] == x);
    } else {
        let k = choose|k: int| 0 <= k < b.len() && b[k] == x;
        assert((a + b)[a.len() + k] == x);
    }
}

proof fn lemma_walk_covers_chain(doc: PdfDocument, s0: Seq<ObjectId>, v1: Seq<PdfStream>, s1: Seq<ObjectId>, v2: Seq<PdfStream>, s2: Seq<ObjectId>)
    requires
        walk_covers(doc, s0, v1, s1),
        walk_covers(doc, s1, v2, s2),
    ensures
        walk_covers(doc, s0, v1 + v2, s2),
{
    lemma_prefix_trans(s0, s1, s2);
    assert forall|id: ObjectId| #[trigger] s2.contains(id) && !s0.contains(id) && get_stream(doc, id) is Some
        implies (v1 + v2).contains(get_stream(doc, id)->Some_0) by {
        let st = get_stream(doc, id)->Some_0;
        if s1.contains(id) {
            assert(v1.contains(st));
        } else {
            assert(v2.contains(st));
        }
        lemma_contains_concat(v1, v2, st);
    }
}

/// What one `/XObject` entry visits covers what it marks seen, and a
/// reference ends up seen.
pub proof fn lemma_visit_entry_covers(doc: PdfDocument, o: PdfObject, seen: Seq<ObjectId>, fuel: nat)
    ensures
        walk_covers(doc, seen, visit_entry(doc, o, seen, fuel).0, visit_entry(doc, o, seen, fuel).1),
        o matches PdfObject::Reference(id) ==> visit_entry(doc, o, seen, fuel).1.contains(id),
    decreases fuel, 0nat, 0nat,
{
    let r = visit_entry(doc, o, seen, fuel);
    match o {
        PdfObject::Reference(id) => {
            if seen.contains(id) {
                assert(seen.is_prefix_of(seen)) by {
                    assert(seen =~= seen.subrange(0, seen.len() as int));
                }
            } else {
                lemma_prefix_push(seen, id);
                assert(seen.push(id)[seen.len() as int] == id);
                match get_stream(doc, id) {
                    None => {},
                    Some(st) => {
                        assert(seq![st][0] == st);
                        if is_form(st) && fuel > 0 && form_resources(doc, st) is Some {
                            let d = form_resources(doc, st)->Some_0;
                            let inner = xobject_visits(doc, d, seen.push(id), (fuel - 1) as nat);
                            lemma_xobject_visits_covers(doc, d, seen.push(id), (fuel - 1) as nat);
                            lemma_prefix_trans(seen, seen.push(id), inner.1);
                            lemma_prefix_contains(seen.push(id), inner.1, id);
                            assert(r == (seq![st] + inner.0, inner.1));
                            assert forall|x: ObjectId| #[trigger] r.1.contains(x) && !seen.contains(x) && get_stream(doc, x) is Some
                                implies r.0.contains(get_stream(doc, x)->Some_0) by {
                                if x == id {
                                    lemma_contains_concat(seq![st], inner.0, st);
                                } else {
                                    if seen.push(id).contains(x) {
                                        let k = choose|k: int| 0 <= k < seen.push(id).len() && seen.push(id)[k] == x;
                                        assert(k < seen.len());
                                        assert(seen[k] == x);
                                    }
                                    lemma_contains_concat(seq![st], inner.0, get_stream(doc, x)->Some_0);
                                }
                            }
                        } else {
                            assert forall|x: ObjectId| #[trigger] r.1.contains(x) && !seen.contains(x) && get_stream(doc, x) is Some
                                implies r.0.contains(get_stream(doc, x)->Some_0) by {
                                let k = choose|k: int| 0 <= k < seen.push(id).len() && seen.push(id)[k] == x;
                                if k < seen.len() {
                                    assert(seen[k] == x);
                                }
                            }
                        }
                    },
                }
            }
        },
        _ => {
            assert(seen =~= seen.subrange(0, seen.len() as int));
        },
    }
}

/// `entry_visits` covers what it marks seen, and every reference among the
/// entries from `i` on ends up seen.
pub proof fn lemma_entry_visits_covers(doc: PdfDocument, es: Seq<(Vec<u8>, PdfObject)>, i: int, seen: Seq<ObjectId>, fuel: nat)
    ensures
        walk_covers(doc, seen, entry_visits(doc, es, i, seen, fuel).0, entry_visits(doc, es, i, seen, fuel).1),
        forall|j: int| 0 <= i <= j < es.len() && (#[trigger] es[j]).1 is Reference
            ==> entry_visits(doc, es, i, seen, fuel).1.contains(es[j].1->Reference_0),
    decreases fuel, 0nat, (es.len() - i) as nat,
{
    if i < 0 || i >= es.len() {
        assert(seen =~= seen.subrange(0, seen.len() as int));
    } else {
        let (here, seen1) = visit_entry(doc, es[i].1, seen, fuel);
        let (rest, seen2) = entry_visits(doc, es, i + 1, seen1, fuel);
        lemma_visit_entry_covers(doc, es[i].1, seen, fuel);
        lemma_entry_visits_covers(doc, es, i + 1, seen1, fuel);
        lemma_walk_covers_chain(doc, seen, here, seen1, rest, seen2);
        assert forall|j: int| 0 <= i <= j < es.len() && (#[trigger] es[j]).1 is Reference
            implies seen2.contains(es[j].1->Reference_0) by {
            if j == i {
                lemma_prefix_contains(seen1, seen2, es[j].1->Reference_0);
            }
        }
    }
}

/// `xobject_visits` covers what it marks seen, and every object that the
/// resource dictionary names among its XObjects ends up seen.
pub proof fn lemma_xobject_visits_covers(doc: PdfDocument, res: PdfDictionary, seen: Seq<ObjectId>, fuel: nat)
    ensures
        walk_covers(doc, seen, xobject_visits(doc, res, seen, fuel).0, xobject_visits(doc, res, seen, fuel).1),
        forall|id: ObjectId| #[trigger] names_xobject(doc, res, id) ==> xobject_visits(doc, res, seen, fuel).1.contains(id),
    decreases fuel, 1nat, 0nat,
{
    match dict_get(res, xobject()) {
        Some(xo) => match dict_from(doc, xo) {
            Some(xobjs) => {
                lemma_entry_visits_covers(doc, xobjs.entries@, 0, seen, fuel);
                assert forall|id: ObjectId| #[trigger] names_xobject(doc, res, id) implies xobject_visits(doc, res, seen, fuel).1.contains(id) by {
                    let i = choose|i: int| 0 <= i < xobjs.entries@.len() && (#[trigger] xobjs.entries@[i]).1 == PdfObject::Reference(id);
                    assert(xobjs.entries@[i].1 is Reference);
                }
            },
            None => {
                assert(seen =~= seen.subrange(0, seen.len() as int));
            },
        },
        None => {
            assert(seen =~= seen.subrange(0, seen.len() as int));
        },
    }
}

/// A walk over several resource dictionaries covers what it marks seen, and
/// every object that any of them names among its XObjects ends up seen.
pub proof fn lemma_fold_visits_covers(doc: PdfDocument, dicts: Seq<PdfDictionary>, seen: Seq<ObjectId>, fuel: nat)
    ensures
        walk_covers(doc, seen, fold_visits(doc, dicts, seen, fuel).0, fold_visits(doc, dicts, seen, fuel).1),
        forall|t: int, id: ObjectId| 0 <= t < dicts.len() && #[trigger] names_xobject(doc, dicts[t], id)
            ==> fold_visits(doc, dicts, seen, fuel).1.contains(id),
    decreases dicts.len(),
{
    if dicts.len() == 0 {
        assert(seen =~= seen.subrange(0, seen.len() as int));
    } else {
        let (v1, s1) = fold_visits(doc, dicts.drop_last(), seen, fuel);
        let (v2, s2) = xobject_visits(doc, dicts.last(), s1, fuel);
        lemma_fold_visits_covers(doc, dicts.drop_last(), seen, fuel);
        lemma_xobject_visits_covers(doc, dicts.last(), s1, fuel);
        lemma_walk_covers_chain(doc, seen, v1, s1, v2, s2);
        assert forall|t: int, id: ObjectId| 0 <= t < dicts.len() && #[trigger] names_xobject(doc, dicts[t], id)
            implies s2.contains(id) by {
            if t < dicts.len() - 1 {
                assert(dicts.drop_last()[t] == dicts[t]);
                lemma_prefix_contains(s1, s2, id);
            }
        }
    }
}

/// Each probe of a visited stream is among the probes of the visit.
pub proof fn lemma_probe_of_visited(v: Seq<PdfStream>, st: PdfStream)
    requires
        v.contains(st),
        probe_of(st) is Some,
    ensures
        probes_of(v).contains(probe_of(st)->Some_0),
    decreases v.len(),
{
    let p = probe_of(st)->Some_0;
    if v.last() == st {
        assert(probes_of(v) == probes_of(v.drop_last()).push(p));
        assert(probes_of(v)[probes_of(v.drop_last()).len() as int] == p);
    } else {
        let k = choose|k: int| 0 <= k < v.len() && v[k] == st;
        assert(v.drop_last()[k] == st);
        lemma_probe_of_visited(v.drop_last(), st);
        let q = probes_of(v.drop_last());
        let kk = choose|kk: int| 0 <= kk < q.len() && q[kk] == p;
        assert(probes_of(v)[kk] == p);
    }
}

} // verus!

//! A plain model of a PDF object graph as the reader hands it over: the
//! indirect objects in ascending id order and the trailer dictionary.
//! Lookups here follow the reader's rules (first entry with a key; chains of
//! references followed at most 128 times).

use crate::pdf_names::{root, root_key};
use vstd::prelude::*;

verus! {

/// Object number and generation.
pub type ObjectId = (u32, u16);

/// How a string object is written in the file.
#[derive(Debug, Clone, Copy)]
pub enum PdfStringFormat {
    Literal,
    Hexadecimal,
}

/// A PDF object. A real number is carried as the reader's own value: it only
/// ever reaches the geometry test, which lives with the caller.
pub enum PdfObject {
    Null,
    Boolean(bool),
    Integer(i64),
    Real(lopdf::Object),
    Name(Vec<u8>),
    String(Vec<u8>, PdfStringFormat),
    Array(Vec<PdfObject>),
    Dictionary(PdfDictionary),
    Stream(PdfStream),
    Reference(ObjectId),
}

/// A dictionary: its entries in insertion order.
pub struct PdfDictionary {
    pub entries: Vec<(Vec<u8>, PdfObject)>,
}

/// A stream: its dictionary and its (possibly encoded) bytes.
pub struct PdfStream {
    pub dict: PdfDictionary,
    pub content: Vec<u8>,
    pub allows_compression: bool,
    pub start_position: Option<usize>,
}

/// A document: indirect objects in ascending id order, and the trailer.
pub struct PdfDocument {
    pub objects: Vec<(ObjectId, PdfObject)>,
    pub trailer: PdfDictionary,
}

/// The reader's own value type, carried opaquely.
#[verifier::external_type_specification]
#[verifier::external_body]
pub struct ExLopdfObject(lopdf::Object);

/// Forgets the reference in an optional borrowed value.
pub open spec fn unref<T>(r: Option<&T>) -> Option<T> {
    match r {
        Some(x) => Some(*x),
        None => None,
    }
}

/// `i` is the first position of `key` among the entries.
pub open spec fn is_first_key(es: Seq<(Vec<u8>, PdfObject)>, key: Seq<u8>, i: int) -> bool {
    &&& 0 <= i < es.len()
    &&& es[i].0@ == key
    &&& forall|j: int| 0 <= j < i ==> (#[trigger] es[j]).0@ != key
}

/// `Dictionary::get`: the value stored under `key`.
pub open spec fn dict_get(d: PdfDictionary, key: Seq<u8>) -> Option<PdfObject> {
    if exists|i: int| is_first_key(d.entries@, key, i) {
        Some(d.entries@[choose|i: int| is_first_key(d.entries@, key, i)].1)
    } else {
        None
    }
}

pub open spec fn dict_has(d: PdfDictionary, key: Seq<u8>) -> bool {
    dict_get(d, key) is Some
}

/// `i` is the first position of object `id`.
pub open spec fn is_first_id(os: Seq<(ObjectId, PdfObject)>, id: ObjectId, i: int) -> bool {
    &&& 0 <= i < os.len()
    &&& os[i].0 == id
    &&& forall|j: int| 0 <= j < i ==> (#[trigger] os[j]).0 != id
}

/// The object stored under `id`, references not followed.
pub open spec fn stored(doc: PdfDocument, id: ObjectId) -> Option<PdfObject> {
    if exists|i: int| is_first_id(doc.objects@, id, i) {
        Some(doc.objects@[choose|i: int| is_first_id(doc.objects@, id, i)].1)
    } else {
        None
    }
}

/// Whether `id` names a stored object.
pub open spec fn has_object(doc: PdfDocument, id: ObjectId) -> bool {
    exists|i: int| 0 <= i < doc.objects@.len() && doc.objects@[i].0 == id
}

/// The most references the reader follows in one lookup.
pub open spec fn deref_limit() -> nat {
    128
}

/// `Document::dereference` after `n` steps: follow references until a
/// direct object; fail on a missing object or past the limit.
pub open spec fn deref_from(doc: PdfDocument, o: PdfObject, n: nat) -> Option<PdfObject>
    decreases deref_limit() + 1 - n,
{
    match o {
        PdfObject::Reference(r) => match stored(doc, r) {
            Some(next) => if n + 1 > deref_limit() {
                None
            } else {
                deref_from(doc, next, n + 1)
            },
            None => None,
        },
        _ => Some(o),
    }
}

/// `Document::get_object`: the object under `id`, references followed.
pub open spec fn get_object(doc: PdfDocument, id: ObjectId) -> Option<PdfObject> {
    match stored(doc, id) {
        Some(o) => deref_from(doc, o, 0),
        None => None,
    }
}

/// `Document::get_dictionary`.
pub open spec fn get_dictionary(doc: PdfDocument, id: ObjectId) -> Option<PdfDictionary> {
    match get_object(doc, id) {
        Some(PdfObject::Dictionary(d)) => Some(d),
        _ => None,
    }
}

/// `Document::get_object(..).and_then(Object::as_stream)`.
pub open spec fn get_stream(doc: PdfDocument, id: ObjectId) -> Option<PdfStream> {
    match get_object(doc, id) {
        Some(PdfObject::Stream(s)) => Some(s),
        _ => None,
    }
}

/// A dictionary given inline or by reference.
pub open spec fn dict_from(doc: PdfDocument, o: PdfObject) -> Option<PdfDictionary> {
    match o {
        PdfObject::Dictionary(d) => Some(d),
        PdfObject::Reference(id) => get_dictionary(doc, id),
        _ => None,
    }
}

/// An object resolved when it is a reference.
pub open spec fn resolve(doc: PdfDocument, o: PdfObject) -> Option<PdfObject> {
    match o {
        PdfObject::Reference(id) => get_object(doc, id),
        _ => Some(o),
    }
}

/// The reference stored under `key`, if that entry is a reference.
pub open spec fn ref_under(d: PdfDictionary, key: Seq<u8>) -> Option<ObjectId> {
    match dict_get(d, key) {
        Some(PdfObject::Reference(id)) => Some(id),
        _ => None,
    }
}

/// The name stored under `key`, if that entry is a name.
pub open spec fn name_under(d: PdfDictionary, key: Seq<u8>) -> Option<Seq<u8>> {
    match dict_get(d, key) {
        Some(PdfObject::Name(n)) => Some(n@),
        _ => None,
    }
}

/// The catalog: the dictionary that the trailer's `/Root` refers to.
pub open spec fn catalog(doc: PdfDocument) -> Option<PdfDictionary> {
    match ref_under(doc.trailer, root()) {
        Some(root) => get_dictionary(doc, root),
        None => None,
    }
}

/// Following references never ends on a reference.
pub proof fn lemma_deref_direct(doc: PdfDocument, o: PdfObject, n: nat)
    ensures
        deref_from(doc, o, n) matches Some(r) ==> !(r is Reference),
    decreases deref_limit() + 1 - n,
{
    if let PdfObject::Reference(r) = o {
        if let Some(next) = stored(doc, r) {
            if n + 1 <= deref_limit() {
                lemma_deref_direct(doc, next, n + 1);
            }
        }
    }
}

/// Byte-wise equality of two byte strings.
pub fn bytes_eq(a: &[u8], b: &[u8]) -> (r: bool)
    ensures
        r == (a@ == b@),
{
    if a.len() != b.len() {
        return false;
    }
    let mut i: usize = 0;
    while i < a.len()
        invariant
            a@.len() == b@.len(),
            i <= a@.len(),
            forall|j: int| 0 <= j < i ==> a@[j] == b@[j],
        decreases a@.len() - i,
    {
        if a[i] != b[i] {
            return false;
        }
        i = i + 1;
    }
    assert(a@ =~= b@);
    true
}

impl PdfDictionary {
    /// `Dictionary::get`.
    pub fn get(&self, key: &[u8]) -> (r: Option<&PdfObject>)
        ensures
            unref(r) == dict_get(*self, key@),
    {
        let n = self.entries.len();
        let mut i: usize = 0;
        while i < n
            invariant
                n == self.entries@.len(),
                i <= n,
                forall|j: int| 0 <= j < i ==> (#[trigger] self.entries@[j]).0@ != key@,
            decreases n - i,
        {
            if bytes_eq(self.entries[i].0.as_slice(), key) {
                assert(is_first_key(self.entries@, key@, i as int));
                let ghost k = choose|k: int| is_first_key(self.entries@, key@, k);
                assert(k == i) by {
                    if k < i {
                        assert(self.entries@[k].0@ != key@);
                    } else if k > i {
                        assert(self.entries@[i as int].0@ != key@);
                    }
                }
                return Some(&self.entries[i].1);
            }
            i = i + 1;
        }
        None
    }

    /// Whether `key` is present.
    pub fn contains(&self, key: &[u8]) -> (r: bool)
        ensures
            r == dict_has(*self, key@),
    {
        self.get(key).is_some()
    }

    /// The reference stored under `key`.
    pub fn reference(&self, key: &[u8]) -> (r: Option<ObjectId>)
        ensures
            r == ref_under(*self, key@),
    {
        match self.get(key) {
            Some(PdfObject::Reference(id)) => Some(*id),
            _ => None,
        }
    }

    /// The name stored under `key`.
    pub fn name(&self, key: &[u8]) -> (r: Option<&[u8]>)
        ensures
            match r {
                Some(n) => name_under(*self, key@) == Some(n@),
                None => name_under(*self, key@) is None,
            },
    {
        match self.get(key) {
            Some(PdfObject::Name(n)) => Some(n.as_slice()),
            _ => None,
        }
    }
}

impl PdfDocument {
    /// The object stored under `id`, references not followed.
    pub fn stored(&self, id: ObjectId) -> (r: Option<&PdfObject>)
        ensures
            unref(r) == stored(*self, id),
    {
        let n = self.objects.len();
        let mut i: usize = 0;
        while i < n
            invariant
                n == self.objects@.len(),
                i <= n,
                forall|j: int| 0 <= j < i ==> (#[trigger] self.objects@[j]).0 != id,
            decreases n - i,
        {
            if self.objects[i].0.0 == id.0 && self.objects[i].0.1 == id.1 {
                assert(is_first_id(self.objects@, id, i as int));
                let ghost k = choose|k: int| is_first_id(self.objects@, id, k);
                assert(k == i) by {
                    if k < i {
                        assert(self.objects@[k].0 != id);
                    } else if k > i {
                        assert(self.objects@[i as int].0 != id);
                    }
                }
                return Some(&self.objects[i].1);
            }
            i = i + 1;
        }
        None
    }

    /// `Document::get_object`.
    pub fn get_object(&self, id: ObjectId) -> (r: Option<&PdfObject>)
        ensures
            unref(r) == get_object(*self, id),
    {
        match self.stored(id) {
            None => None,
            Some(first) => {
                let mut o = first;
                let mut n: usize = 0;
                while n <= 128
                    invariant
                        n <= 128,
                        stored(*self, id) == Some(*first),
                        deref_from(*self, *first, 0) == deref_from(*self, *o, n as nat),
                    decreases 129 - n,
                {
                    match o {
                        PdfObject::Reference(r) => {
                            match self.stored(*r) {
                                None => {
                                    return None;
                                },
                                Some(next) => {
                                    if n + 1 > 128 {
                                        return None;
                                    }
                                    o = next;
                                    n = n + 1;
                                },
                            }
                        },
                        _ => {
                            return Some(o);
                        },
                    }
                }
                None
            },
        }
    }

    /// `Document::get_dictionary`.
    pub fn get_dictionary(&self, id: ObjectId) -> (r: Option<&PdfDictionary>)
        ensures
            unref(r) == get_dictionary(*self, id),
    {
        match self.get_object(id) {
            Some(PdfObject::Dictionary(d)) => Some(d),
            _ => None,
        }
    }

    /// `Document::get_object(..).and_then(Object::as_stream)`.
    pub fn get_stream(&self, id: ObjectId) -> (r: Option<&PdfStream>)
        ensures
            unref(r) == get_stream(*self, id),
    {
        match self.get_object(id) {
            Some(PdfObject::Stream(s)) => Some(s),
            _ => None,
        }
    }

    /// A dictionary given inline or by reference.
    pub fn dict_from<'a>(&'a self, o: &'a PdfObject) -> (r: Option<&'a PdfDictionary>)
        ensures
            unref(r) == dict_from(*self, *o),
    {
        match o {
            PdfObject::Dictionary(d) => Some(d),
            PdfObject::Reference(id) => self.get_dictionary(*id),
            _ => None,
        }
    }

    /// An object resolved when it is a reference.
    pub fn resolve<'a>(&'a self, o: &'a PdfObject) -> (r: Option<&'a PdfObject>)
        ensures
            unref(r) == resolve(*self, *o),
    {
        match o {
            PdfObject::Reference(id) => self.get_object(*id),
            _ => Some(o),
        }
    }

    /// The catalog dictionary.
    pub fn catalog(&self) -> (r: Option<&PdfDictionary>)
        ensures
            unref(r) == catalog(*self),
    {
        let key = root_key();
        match self.trailer.reference(key.as_slice()) {
            Some(id) => self.get_dictionary(id),
            None => None,
        }
    }
}

} // verus!

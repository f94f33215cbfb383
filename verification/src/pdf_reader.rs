//! The PDF reader's computations on the model: page tree, a page's content streams,
//! stream decoding and decompression, and lossy UTF-8 decoding of byte
//! strings. Each is a call into `lopdf` (or std) behind a trusted item whose
//! result is named; the model is rebuilt as the reader's own values for the
//! call.

use crate::pdf_model::{ObjectId, PdfDictionary, PdfDocument, PdfObject, PdfStream, PdfStringFormat};
use vstd::prelude::*;

verus! {

#[verifier::external_type_specification]
#[verifier::external_body]
pub struct ExLopdfDictionary(lopdf::Dictionary);

#[verifier::external_type_specification]
#[verifier::external_body]
pub struct ExLopdfStream(lopdf::Stream);

#[verifier::external_type_specification]
#[verifier::external_body]
pub struct ExLopdfDocument(lopdf::Document);

#[verifier::external_type_specification]
#[verifier::external_body]
pub struct ExLopdfStringFormat(lopdf::StringFormat);

/// The pages as `Document::get_pages` numbers them: (page number, page object).
pub uninterp spec fn pdf_pages(doc: PdfDocument) -> Seq<(u32, ObjectId)>;

/// `Document::get_page_contents`: the ids of the page's content streams.
pub uninterp spec fn pdf_page_content_ids(doc: PdfDocument, page_id: ObjectId) -> Seq<ObjectId>;

/// `Stream::get_plain_content`: the bytes with the stream's filters undone.
pub uninterp spec fn pdf_plain_content(s: PdfStream) -> Option<Seq<u8>>;

/// `Stream::decompressed_content`.
pub uninterp spec fn pdf_decompressed_content(s: PdfStream) -> Option<Seq<u8>>;

/// The stream after `Stream::decompress` (left as it was when decoding fails).
pub uninterp spec fn pdf_stream_decompressed(s: PdfStream) -> PdfStream;

/// `String::from_utf8_lossy`: invalid sequences become U+FFFD.
pub uninterp spec fn utf8_lossy(bytes: Seq<u8>) -> Seq<char>;

/// Rebuilds a string format as the reader's value.
#[verifier::external_body]
fn to_lopdf_format(f: PdfStringFormat) -> lopdf::StringFormat {
    match f {
        PdfStringFormat::Literal => lopdf::StringFormat::Literal,
        PdfStringFormat::Hexadecimal => lopdf::StringFormat::Hexadecimal,
    }
}

/// Rebuilds an object as the reader's value, one variant for one.
#[verifier::external_body]
fn to_lopdf_object(o: &PdfObject) -> lopdf::Object {
    match o {
        PdfObject::Null => lopdf::Object::Null,
        PdfObject::Boolean(b) => lopdf::Object::Boolean(*b),
        PdfObject::Integer(i) => lopdf::Object::Integer(*i),
        PdfObject::Real(r) => r.clone(),
        PdfObject::Name(n) => lopdf::Object::Name(n.clone()),
        PdfObject::String(s, f) => lopdf::Object::String(s.clone(), to_lopdf_format(*f)),
        PdfObject::Array(a) => lopdf::Object::Array(a.iter().map(to_lopdf_object).collect()),
        PdfObject::Dictionary(d) => lopdf::Object::Dictionary(to_lopdf_dictionary(d)),
        PdfObject::Stream(s) => lopdf::Object::Stream(to_lopdf_stream(s)),
        PdfObject::Reference(id) => lopdf::Object::Reference(*id),
    }
}

/// Rebuilds a dictionary as the reader's value, entries in order.
#[verifier::external_body]
fn to_lopdf_dictionary(d: &PdfDictionary) -> lopdf::Dictionary {
    d.entries.iter().map(|(k, v)| (k.clone(), to_lopdf_object(v))).collect()
}

/// Rebuilds a stream as the reader's value.
#[verifier::external_body]
fn to_lopdf_stream(s: &PdfStream) -> lopdf::Stream {
    lopdf::Stream {
        dict: to_lopdf_dictionary(&s.dict),
        content: s.content.clone(),
        allows_compression: s.allows_compression,
        start_position: s.start_position,
    }
}

/// Rebuilds a document (objects and trailer) as the reader's value.
#[verifier::external_body]
fn to_lopdf_document(doc: &PdfDocument) -> lopdf::Document {
    let mut d = lopdf::Document::new();
    d.trailer = to_lopdf_dictionary(&doc.trailer);
    d.objects = doc.objects.iter().map(|(id, o)| (*id, to_lopdf_object(o))).collect();
    d
}

/// Reads a string format back from the reader's value.
#[verifier::external_body]
fn from_lopdf_format(f: lopdf::StringFormat) -> PdfStringFormat {
    match f {
        lopdf::StringFormat::Literal => PdfStringFormat::Literal,
        lopdf::StringFormat::Hexadecimal => PdfStringFormat::Hexadecimal,
    }
}

/// Reads an object back from the reader's value, one variant for one.
#[verifier::external_body]
fn from_lopdf_object(o: &lopdf::Object) -> PdfObject {
    match o {
        lopdf::Object::Null => PdfObject::Null,
        lopdf::Object::Boolean(b) => PdfObject::Boolean(*b),
        lopdf::Object::Integer(i) => PdfObject::Integer(*i),
        lopdf::Object::Real(_) => PdfObject::Real(o.clone()),
        lopdf::Object::Name(n) => PdfObject::Name(n.clone()),
        lopdf::Object::String(s, f) => PdfObject::String(s.clone(), from_lopdf_format(*f)),
        lopdf::Object::Array(a) => PdfObject::Array(a.iter().map(from_lopdf_object).collect()),
        lopdf::Object::Dictionary(d) => PdfObject::Dictionary(from_lopdf_dictionary(d)),
        lopdf::Object::Stream(s) => PdfObject::Stream(from_lopdf_stream(s)),
        lopdf::Object::Reference(id) => PdfObject::Reference(*id),
    }
}

/// Reads a dictionary back from the reader's value, entries in order.
#[verifier::external_body]
fn from_lopdf_dictionary(d: &lopdf::Dictionary) -> PdfDictionary {
    PdfDictionary { entries: d.iter().map(|(k, v)| (k.clone(), from_lopdf_object(v))).collect() }
}

/// Reads a stream back from the reader's value.
#[verifier::external_body]
fn from_lopdf_stream(s: &lopdf::Stream) -> PdfStream {
    PdfStream {
        dict: from_lopdf_dictionary(&s.dict),
        content: s.content.clone(),
        allows_compression: s.allows_compression,
        start_position: s.start_position,
    }
}

/// `Document::get_pages`, in ascending page-number order (the order of the
/// `BTreeMap` it returns).
#[verifier::external_body]
pub(crate) fn page_numbers(doc: &PdfDocument) -> (r: Vec<(u32, ObjectId)>)
    ensures
        r@ == pdf_pages(*doc),
        forall|i: int, j: int| 0 <= i < j < r@.len() ==> r@[i].0 < r@[j].0,
{
    to_lopdf_document(doc).get_pages().into_iter().collect()
}

/// `Document::get_page_contents`.
#[verifier::external_body]
pub(crate) fn page_content_ids(doc: &PdfDocument, page_id: ObjectId) -> (r: Vec<ObjectId>)
    ensures
        r@ == pdf_page_content_ids(*doc, page_id),
{
    to_lopdf_document(doc).get_page_contents(page_id)
}

/// `Stream::get_plain_content`, its error as `None`.
#[verifier::external_body]
pub(crate) fn plain_content(s: &PdfStream) -> (r: Option<Vec<u8>>)
    ensures
        match r {
            Some(b) => pdf_plain_content(*s) == Some(b@),
            None => pdf_plain_content(*s) is None,
        },
{
    to_lopdf_stream(s).get_plain_content().ok()
}

/// `Stream::decompressed_content`, its error as `None`.
#[verifier::external_body]
pub(crate) fn decompressed_content(s: &PdfStream) -> (r: Option<Vec<u8>>)
    ensures
        match r {
            Some(b) => pdf_decompressed_content(*s) == Some(b@),
            None => pdf_decompressed_content(*s) is None,
        },
{
    to_lopdf_stream(s).decompressed_content().ok()
}

/// `Stream::decompress`, its error ignored (the stream then stays as it was).
#[verifier::external_body]
pub(crate) fn decompress_stream(s: &PdfStream) -> (r: PdfStream)
    ensures
        r == pdf_stream_decompressed(*s),
{
    let mut st = to_lopdf_stream(s);
    let _ = st.decompress();
    from_lopdf_stream(&st)
}

/// `String::from_utf8_lossy`.
#[verifier::external_body]
pub(crate) fn lossy_text(bytes: &[u8]) -> (r: String)
    ensures
        r@ == utf8_lossy(bytes@),
{
    String::from_utf8_lossy(bytes).into_owned()
}

} // verus!

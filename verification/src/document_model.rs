//! The logical state of a document: identity and metadata. The PDF bytes
//! and engine handles are not held here.

use vstd::prelude::*;

verus! {

/// Represents the identity of a document inside Vision.
#[derive(Debug, Clone)]
pub struct DocumentId(pub String);

/// Logical metadata extracted from the document.
#[derive(Debug, Clone)]
pub struct DocumentMetadata {
    pub title: Option<String>,
    pub author: Option<String>,
    pub creator: Option<String>,
    pub producer: Option<String>,
    pub pages_count: usize,
}

impl Default for DocumentMetadata {
    /// No title, author, creator or producer, and no pages.
    fn default() -> (r: Self)
        ensures
            r.title is None,
            r.author is None,
            r.creator is None,
            r.producer is None,
            r.pages_count == 0,
    {
        DocumentMetadata { title: None, author: None, creator: None, producer: None, pages_count: 0 }
    }
}

impl PartialEq for DocumentId {
    fn eq(&self, other: &Self) -> (r: bool) {
        self.0 == other.0
    }
}

impl Eq for DocumentId {}

impl vstd::std_specs::cmp::PartialEqSpecImpl for DocumentId {
    open spec fn obeys_eq_spec() -> bool {
        true
    }

    open spec fn eq_spec(&self, other: &Self) -> bool {
        self.0@ == other.0@
    }
}

} // verus!

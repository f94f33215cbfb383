//! Vision core library: the logical document state, typed errors, cooperative
//! job state, and the PDF-engine logic (redaction verification over a plain
//! model of a PDF object graph, base64 framing, capability stubs).

pub mod app_error;
pub mod document_model;
pub mod errors;
pub mod jobs;
pub mod pdf_engine;
pub mod pdf_model;
pub mod pdf_names;
pub mod pdf_reader;
pub mod text;

verus! {
} // verus!

use vstd::prelude::*;

//! The PDF engine: what runs on documents, and the capability stubs of the
//! pipelines that are not wired in this milestone.

pub mod blank;
pub mod edit_redact;
pub mod ocr;
pub mod qpdf;
pub mod redact_checks;
pub mod redact_fields;
pub mod redact_graph;
pub mod redact_warnings;
pub mod render;
pub mod textexport;

//! Blank-page detection. The rasterising step is not wired in this
//! milestone, so detection reports itself unavailable.

use crate::app_error::{is_plain_error, AppError};
use vstd::prelude::*;

verus! {

/// Detect blank pages of `input` (1-based page numbers). Unavailable:
/// always `CapabilityUnavailable`.
pub fn detect_blank_pages(job_id: &str, input: &str, sensitivity: &str) -> (r: Result<Vec<u32>, AppError>)
    ensures
        r matches Err(e) && is_plain_error(e, "CapabilityUnavailable"@,
            "Blank page detection temporarily unavailable"@,
            "Blank page detection has been disabled during the M1 architecture migration. The pipeline that previously relied on Poppler (pdftoppm) for rasterisation has been removed. A PDFium-based replacement is planned for M2."@),
{
    Err(AppError::new(
        "CapabilityUnavailable",
        "Blank page detection temporarily unavailable",
        "Blank page detection has been disabled during the M1 architecture migration. The pipeline that previously relied on Poppler (pdftoppm) for rasterisation has been removed. A PDFium-based replacement is planned for M2.",
    ))
}

} // verus!

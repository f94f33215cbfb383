//! Export a PDF's text to a `.txt` file. Not wired in this milestone.

use crate::app_error::{is_plain_error, AppError};
use vstd::prelude::*;

verus! {

/// Export the text of pages `first..=last` of `input` to `output`.
/// Unavailable: always `CapabilityUnavailable`.
pub fn export_text(
    job_id: &str,
    input: &str,
    output: &str,
    first: Option<u32>,
    last: Option<u32>,
) -> (r: Result<Vec<String>, AppError>)
    ensures
        r matches Err(e) && is_plain_error(e, "CapabilityUnavailable"@,
            "Feature temporarily unavailable"@,
            "Text export is disabled during the M1 architecture migration."@),
{
    Err(AppError::new(
        "CapabilityUnavailable",
        "Feature temporarily unavailable",
        "Text export is disabled during the M1 architecture migration.",
    ))
}

} // verus!

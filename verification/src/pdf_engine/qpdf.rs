//! qpdf naming and the reading of qpdf's answers.

use crate::app_error::{is_invalid_pdf_error, AppError};
use crate::pdf_reader::{lossy_text, utf8_lossy};
use crate::text::{parse_trimmed_u32, parse_u32, trimmed};
use vstd::prelude::*;

verus! {

/// The qpdf executable name.
pub fn exe_name() -> (r: &'static str)
    ensures
        r@ == "qpdf"@,
{
    "qpdf"
}

/// The page count that a finished `qpdf --show-npages <input>` reports:
/// the exit must be a success and the trimmed standard output must be a
/// `u32`; any failure (non-zero exit, unparseable output) makes the input
/// an invalid PDF.
pub fn npages_from_output(success: bool, stdout: &[u8], input: &str) -> (r: Result<u32, AppError>)
    ensures
        if !success {
            r matches Err(e) && is_invalid_pdf_error(e, input@)
        } else {
            match parse_u32(trimmed(utf8_lossy(stdout@))) {
                Some(n) => r == Ok::<u32, AppError>(n),
                None => r matches Err(e) && is_invalid_pdf_error(e, input@),
            }
        },
{
    if !success {
        return Err(AppError::invalid_pdf(input));
    }
    let text = lossy_text(stdout);
    match parse_trimmed_u32(text.as_str()) {
        Some(n) => Ok(n),
        None => Err(AppError::invalid_pdf(input)),
    }
}

} // verus!

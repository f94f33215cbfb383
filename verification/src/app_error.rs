//! The error value that engine operations hand back to the frontend: a
//! stable machine code, a short title, a sentence for the user, and optional
//! technical details and a suggested remedy.

use crate::text::{decimal, push_decimal};
use vstd::prelude::*;

verus! {

/// Error returned by PDF-engine operations.
#[derive(Debug, Clone)]
pub struct AppError {
    pub code: String,
    pub title: String,
    pub message: String,
    pub details: Option<String>,
    pub suggestion: Option<String>,
}

/// `e` carries exactly these code, title and message, and nothing else.
pub open spec fn is_plain_error(e: AppError, code: Seq<char>, title: Seq<char>, message: Seq<char>) -> bool {
    &&& e.code@ == code
    &&& e.title@ == title
    &&& e.message@ == message
    &&& e.details is None
    &&& e.suggestion is None
}

impl AppError {
    /// An error with a code, a title and a message.
    pub fn new(code: &str, title: &str, message: &str) -> (r: AppError)
        ensures
            is_plain_error(r, code@, title@, message@),
    {
        AppError {
            code: code.to_string(),
            title: title.to_string(),
            message: message.to_string(),
            details: None,
            suggestion: None,
        }
    }

    /// The same error with technical details attached.
    pub fn with_details(self, details: String) -> (r: AppError)
        ensures
            r.code == self.code,
            r.title == self.title,
            r.message == self.message,
            r.suggestion == self.suggestion,
            r.details == Some(details),
    {
        AppError { details: Some(details), ..self }
    }

    /// The same error with a suggested remedy attached.
    pub fn with_suggestion(self, suggestion: &str) -> (r: AppError)
        ensures
            r.code == self.code,
            r.title == self.title,
            r.message == self.message,
            r.details == self.details,
            r.suggestion matches Some(s) && s@ == suggestion@,
    {
        AppError { suggestion: Some(suggestion.to_string()), ..self }
    }

    /// The input at `path` is not a readable PDF.
    pub fn invalid_pdf(path: &str) -> (r: AppError)
        ensures
            is_plain_error(r, "INVALID_PDF"@, "Invalid PDF"@,
                "The file is not a readable PDF: "@ + path@),
    {
        let mut message = "The file is not a readable PDF: ".to_string();
        message.append(path);
        AppError {
            code: "INVALID_PDF".to_string(),
            title: "Invalid PDF".to_string(),
            message,
            details: None,
            suggestion: None,
        }
    }

    /// The PDF engine failed; `message` says how.
    pub fn engine_failed(message: String) -> (r: AppError)
        ensures
            is_plain_error(r, "ENGINE_FAILED"@, "The PDF engine failed"@, message@),
    {
        AppError {
            code: "ENGINE_FAILED".to_string(),
            title: "The PDF engine failed".to_string(),
            message,
            details: None,
            suggestion: None,
        }
    }
}

/// `e` is the invalid-PDF error for `path`.
pub open spec fn is_invalid_pdf_error(e: AppError, path: Seq<char>) -> bool {
    is_plain_error(e, "INVALID_PDF"@, "Invalid PDF"@, "The file is not a readable PDF: "@ + path)
}

/// The text `prefix`, the decimal rendering of `n`, then `suffix`.
pub open spec fn with_number(prefix: Seq<char>, n: nat, suffix: Seq<char>) -> Seq<char> {
    prefix + decimal(n) + suffix
}

/// Builds `prefix`, the decimal rendering of `n`, and `suffix`.
pub fn format_with_number(prefix: &str, n: u64, suffix: &str) -> (r: String)
    ensures
        r@ == with_number(prefix@, n as nat, suffix@),
{
    let mut s = prefix.to_string();
    push_decimal(&mut s, n);
    s.append(suffix);
    s
}

} // verus!

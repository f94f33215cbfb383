//! High-level typed errors for the Vision application.
//! These errors are safe to expose to the frontend.

use vstd::prelude::*;

verus! {

/// High-level typed errors for the Vision application.
#[derive(Debug)]
pub enum VisionError {
    UserError(String),
    DocumentError(String),
    EngineUnavailable(String),
    EngineError(String),
    IoError(String),
    SecurityError(String),
    CancellationError,
    ResourceError(String),
    UnsupportedError(String),
}

/// `Result` with a [`VisionError`].
pub type VisionResult<T> = Result<T, VisionError>;

/// The text shown to users for an error: a fixed prefix per variant, then
/// the carried detail.
pub open spec fn error_text(e: VisionError) -> Seq<char> {
    match e {
        VisionError::UserError(s) => "User error: "@ + s@,
        VisionError::DocumentError(s) => "Invalid or corrupted document: "@ + s@,
        VisionError::EngineUnavailable(s) => "Engine unavailable: "@ + s@,
        VisionError::EngineError(s) => "Engine error: "@ + s@,
        VisionError::IoError(s) => "I/O error: "@ + s@,
        VisionError::SecurityError(s) => "Security or permission error: "@ + s@,
        VisionError::CancellationError => "Operation cancelled"@,
        VisionError::ResourceError(s) => "Resource exhaustion or limit reached: "@ + s@,
        VisionError::UnsupportedError(s) => "Unsupported feature: "@ + s@,
    }
}

impl VisionError {
    /// The display text of the error (what `to_string()` gives in the
    /// frontend).
    pub fn message(&self) -> (r: String)
        ensures
            r@ == error_text(*self),
    {
        match self {
            VisionError::UserError(s) => prefixed("User error: ", s),
            VisionError::DocumentError(s) => prefixed("Invalid or corrupted document: ", s),
            VisionError::EngineUnavailable(s) => prefixed("Engine unavailable: ", s),
            VisionError::EngineError(s) => prefixed("Engine error: ", s),
            VisionError::IoError(s) => prefixed("I/O error: ", s),
            VisionError::SecurityError(s) => prefixed("Security or permission error: ", s),
            VisionError::CancellationError => "Operation cancelled".to_string(),
            VisionError::ResourceError(s) => prefixed("Resource exhaustion or limit reached: ", s),
            VisionError::UnsupportedError(s) => prefixed("Unsupported feature: ", s),
        }
    }
}

fn prefixed(prefix: &str, detail: &String) -> (r: String)
    ensures
        r@ == prefix@ + detail@,
{
    let mut r = prefix.to_string();
    r.append(detail.as_str());
    r
}

} // verus!

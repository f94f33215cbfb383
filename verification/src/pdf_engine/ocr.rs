//! OCR: make a scanned PDF searchable. The rasterising step is not wired
//! in this milestone, so OCR reports itself unavailable; the Tesseract
//! naming and error values used by probing and language listing are here.

use crate::app_error::{is_plain_error, AppError};
use crate::pdf_reader::{lossy_text, utf8_lossy};
use crate::text::{push_char, trim_text, trimmed};
use vstd::prelude::*;

verus! {

/// The Tesseract executable name.
pub fn tesseract_exe() -> (r: &'static str)
    ensures
        r@ == "tesseract"@,
{
    "tesseract"
}

/// Whether the OCR pipeline is available: without a page rasteriser it
/// cannot run, even with Tesseract installed, so `false`.
pub fn available() -> (r: bool)
    ensures
        !r,
{
    false
}

/// `e` is the error for a Tesseract that cannot be located.
pub open spec fn is_missing_error(e: AppError) -> bool {
    &&& e.code@ == "OCR_MISSING"@
    &&& e.title@ == "Tesseract not found"@
    &&& e.message@ == "OCR needs Tesseract, which couldn't be located."@
    &&& e.details is None
    &&& e.suggestion matches Some(s) && s@ == "Install Tesseract — e.g. sudo apt install tesseract-ocr."@
}

/// `e` is the error for a language listing that failed, with `details`.
pub open spec fn is_langs_failed_error(e: AppError, details: Seq<char>) -> bool {
    &&& e.code@ == "OCR_LANGS_FAILED"@
    &&& e.title@ == "Could not list OCR languages"@
    &&& e.message@ == "Tesseract did not report any installed language packs."@
    &&& e.details matches Some(d) && d@ == details
    &&& e.suggestion matches Some(s) && s@ == "Install Tesseract language packs locally (e.g. sudo apt install tesseract-ocr-eng). Vision does not download them."@
}

/// The error for a Tesseract that cannot be located.
pub fn missing() -> (r: AppError)
    ensures
        is_missing_error(r),
{
    AppError::new("OCR_MISSING", "Tesseract not found", "OCR needs Tesseract, which couldn't be located.")
        .with_suggestion("Install Tesseract — e.g. sudo apt install tesseract-ocr.")
}

/// The error for a language listing that failed; `details` is what
/// Tesseract reported.
pub fn langs_failed(details: String) -> (r: AppError)
    ensures
        is_langs_failed_error(r, details@),
        r.details == Some(details),
{
    AppError::new(
        "OCR_LANGS_FAILED",
        "Could not list OCR languages",
        "Tesseract did not report any installed language packs.",
    ).with_details(details).with_suggestion(
        "Install Tesseract language packs locally (e.g. sudo apt install tesseract-ocr-eng). Vision does not download them.",
    )
}

/// How a run of `tesseract --list-langs` went.
pub enum LangsRun {
    /// The executable was not found.
    SpawnNotFound,
    /// The process could not be started, for the given reason.
    SpawnFailed(String),
    /// The process ran: its exit status, its standard output and error, and
    /// the language codes parsed from `langs_output(stdout, stderr)`.
    Exited { success: bool, stdout: Vec<u8>, stderr: Vec<u8>, langs: Vec<String> },
}

/// The arguments of the listing: the language-data directory when there
/// is one, then `--list-langs`.
pub fn list_langs_args(tessdata: Option<&str>) -> (r: Vec<String>)
    ensures
        r@.map_values(|s: String| s@) == match tessdata {
            Some(d) => seq!["--tessdata-dir"@, d@, "--list-langs"@],
            None => seq!["--list-langs"@],
        },
{
    let mut args: Vec<String> = Vec::new();
    match tessdata {
        Some(d) => {
            args.push("--tessdata-dir".to_string());
            args.push(d.to_string());
        },
        None => {},
    }
    args.push("--list-langs".to_string());
    proof {
        match tessdata {
            Some(d) => {
                assert(args@.map_values(|s: String| s@) =~= seq!["--tessdata-dir"@, d@, "--list-langs"@]);
            },
            None => {
                assert(args@.map_values(|s: String| s@) =~= seq!["--list-langs"@]);
            },
        }
    }
    args
}

/// What Tesseract reported: its standard output, a newline, its standard
/// error, each decoded as lossy UTF-8.
pub open spec fn langs_report(stdout: Seq<u8>, stderr: Seq<u8>) -> Seq<char> {
    utf8_lossy(stdout) + seq!['\n'] + utf8_lossy(stderr)
}

/// The text the language codes are parsed from (see `langs_report`).
pub fn langs_output(stdout: &[u8], stderr: &[u8]) -> (r: String)
    ensures
        r@ == langs_report(stdout@, stderr@),
{
    let mut text = lossy_text(stdout);
    push_char(&mut text, '\n');
    let err = lossy_text(stderr);
    text.append(err.as_str());
    text
}

/// The answer of a language listing: Tesseract not found is `missing()`;
/// a failed start, a failed exit or no language found is `langs_failed`
/// (with the reason, or with the trimmed report); otherwise the languages.
pub fn list_langs_outcome(run: LangsRun) -> (r: Result<Vec<String>, AppError>)
    ensures
        match run {
            LangsRun::SpawnNotFound => r matches Err(e) && is_missing_error(e),
            LangsRun::SpawnFailed(m) => r matches Err(e) && is_langs_failed_error(e, m@),
            LangsRun::Exited { success, stdout, stderr, langs } => if !success || langs@.len() == 0 {
                r matches Err(e) && is_langs_failed_error(e, trimmed(langs_report(stdout@, stderr@)))
            } else {
                r matches Ok(v) && v@ == langs@
            },
        },
{
    match run {
        LangsRun::SpawnNotFound => Err(missing()),
        LangsRun::SpawnFailed(m) => Err(langs_failed(m)),
        LangsRun::Exited { success, stdout, stderr, langs } => {
            if !success || langs.len() == 0 {
                let report = langs_output(stdout.as_slice(), stderr.as_slice());
                Err(langs_failed(trim_text(report.as_str())))
            } else {
                Ok(langs)
            }
        },
    }
}

/// OCR every picked page into one searchable PDF. Unavailable: always
/// `CapabilityUnavailable`. `P` is the page-pick type of the caller.
pub fn ocr<P>(job_id: &str, picks: &[P], output: &str, lang: &str) -> (r: Result<Vec<String>, AppError>)
    ensures
        r matches Err(e) && is_plain_error(e, "CapabilityUnavailable"@, "OCR temporarily unavailable"@,
            "OCR has been disabled during the M1 architecture migration. The pipeline that previously relied on Poppler (pdftoppm) for rasterisation has been removed. A PDFium-based replacement is planned for M2."@),
{
    Err(AppError::new(
        "CapabilityUnavailable",
        "OCR temporarily unavailable",
        "OCR has been disabled during the M1 architecture migration. The pipeline that previously relied on Poppler (pdftoppm) for rasterisation has been removed. A PDFium-based replacement is planned for M2.",
    ))
}

} // verus!

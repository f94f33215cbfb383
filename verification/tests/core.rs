use vision_core::app_error::{format_with_number, AppError};
use vision_core::document_model::{DocumentId, DocumentMetadata};
use vision_core::errors::VisionError;
use vision_core::jobs::{cancellation_outcome, CancellationHandle, Job, JobState};
use vision_core::pdf_engine::{blank, ocr, qpdf, render, textexport};
use vision_core::pdf_engine::ocr::{langs_output, list_langs_args, list_langs_outcome, LangsRun};
use vision_core::text::{parse_trimmed_u32, push_decimal, text_is_blank, trim_text, white_space};

#[test]
fn new_job_is_queued_with_its_id() {
    let job = Job::new("job-1");
    assert_eq!(job.id, "job-1");
    assert_eq!(job.state, JobState::Queued);
    assert!(!job.cancellation_handle.is_cancelled());
}

#[test]
fn queued_job_runs_then_completes() {
    let mut job = Job::new("a");
    job.mark_running();
    assert_eq!(job.state, JobState::Running);
    job.mark_completed();
    assert_eq!(job.state, JobState::Completed);
}

#[test]
fn cancelling_a_running_job_sets_its_handle() {
    let mut job = Job::new("a");
    let seen_by_engine = job.cancellation_handle.clone();
    job.mark_running();
    job.cancel();
    assert_eq!(job.state, JobState::Cancelled);
    assert!(seen_by_engine.is_cancelled());
    assert!(matches!(seen_by_engine.check(), Err(VisionError::CancellationError)));
}

#[test]
fn cancelled_job_does_not_start() {
    let mut job = Job::new("a");
    job.cancel();
    job.mark_running();
    assert_eq!(job.state, JobState::Cancelled);
    job.cancel();
    assert_eq!(job.state, JobState::Cancelled);
}

#[test]
fn completed_job_ignores_cancel() {
    let mut job = Job::new("a");
    job.mark_running();
    job.mark_completed();
    job.cancel();
    assert_eq!(job.state, JobState::Completed);
    assert!(!job.cancellation_handle.is_cancelled());
}

#[test]
fn failed_job_keeps_error_text() {
    let mut job = Job::new("a");
    job.mark_failed(VisionError::EngineError("qpdf crashed".to_string()));
    assert_eq!(job.state, JobState::Failed("Engine error: qpdf crashed".to_string()));
    assert_eq!(job.id, "a");
}

#[test]
fn fresh_handle_checks_ok_and_clones_share_the_flag() {
    let handle = CancellationHandle::new();
    assert!(handle.check().is_ok());
    let other = handle.clone();
    other.cancel();
    assert!(handle.is_cancelled());
    assert!(matches!(handle.check(), Err(VisionError::CancellationError)));
    let default_handle = CancellationHandle::default();
    assert!(!default_handle.is_cancelled());
}

#[test]
fn cancellation_outcome_follows_the_flag() {
    assert!(cancellation_outcome(false).is_ok());
    assert!(matches!(cancellation_outcome(true), Err(VisionError::CancellationError)));
}

#[test]
fn error_messages_have_their_prefixes() {
    let cases = vec![
        (VisionError::UserError("x".to_string()), "User error: x"),
        (VisionError::DocumentError("x".to_string()), "Invalid or corrupted document: x"),
        (VisionError::EngineUnavailable("x".to_string()), "Engine unavailable: x"),
        (VisionError::EngineError("x".to_string()), "Engine error: x"),
        (VisionError::IoError("x".to_string()), "I/O error: x"),
        (VisionError::SecurityError("x".to_string()), "Security or permission error: x"),
        (VisionError::CancellationError, "Operation cancelled"),
        (VisionError::ResourceError("x".to_string()), "Resource exhaustion or limit reached: x"),
        (VisionError::UnsupportedError("x".to_string()), "Unsupported feature: x"),
    ];
    for (e, text) in cases {
        assert_eq!(e.message(), text);
    }
}

#[test]
fn app_error_builders() {
    let e = AppError::new("CODE", "Title", "Message");
    assert_eq!(e.code, "CODE");
    assert_eq!(e.title, "Title");
    assert_eq!(e.message, "Message");
    assert!(e.details.is_none());
    assert!(e.suggestion.is_none());
    let e = e.with_details("d".to_string()).with_suggestion("s");
    assert_eq!(e.details.as_deref(), Some("d"));
    assert_eq!(e.suggestion.as_deref(), Some("s"));
    assert_eq!(e.code, "CODE");
}

#[test]
fn invalid_pdf_and_engine_failed() {
    let e = AppError::invalid_pdf("/tmp/x.pdf");
    assert_eq!(e.code, "INVALID_PDF");
    assert_eq!(e.title, "Invalid PDF");
    assert_eq!(e.message, "The file is not a readable PDF: /tmp/x.pdf");
    let e = AppError::engine_failed("boom".to_string());
    assert_eq!(e.code, "ENGINE_FAILED");
    assert_eq!(e.message, "boom");
}

#[test]
fn number_formatting() {
    assert_eq!(format_with_number("Page ", 0, "."), "Page 0.");
    assert_eq!(format_with_number("Page ", 42, "!"), "Page 42!");
    assert_eq!(format_with_number("", u64::MAX, ""), "18446744073709551615");
    let mut s = "n=".to_string();
    push_decimal(&mut s, 907);
    assert_eq!(s, "n=907");
}

#[test]
fn base64_vectors() {
    assert_eq!(render::base64(b""), "");
    assert_eq!(render::base64(b"f"), "Zg==");
    assert_eq!(render::base64(b"fo"), "Zm8=");
    assert_eq!(render::base64(b"foo"), "Zm9v");
    assert_eq!(render::base64(b"foob"), "Zm9vYg==");
    assert_eq!(render::base64(b"fooba"), "Zm9vYmE=");
    assert_eq!(render::base64(b"foobar"), "Zm9vYmFy");
    assert_eq!(render::base64(&[0xff, 0xfe, 0xfd]), "//79");
    assert_eq!(render::base64(&[0xfb, 0xff]), "+/8=");
}

#[test]
fn base64_length_is_four_per_three() {
    for n in 0..20usize {
        let data: Vec<u8> = (0..n).map(|i| i as u8).collect();
        assert_eq!(render::base64(&data).len(), (n + 2) / 3 * 4);
    }
}

#[test]
fn npages_reads_trimmed_stdout() {
    assert_eq!(qpdf::npages_from_output(true, b"12\n", "a.pdf").unwrap(), 12);
    assert_eq!(qpdf::npages_from_output(true, b"  7 \r\n", "a.pdf").unwrap(), 7);
}

#[test]
fn npages_failure_is_invalid_pdf() {
    let e = qpdf::npages_from_output(false, b"12\n", "a.pdf").unwrap_err();
    assert_eq!(e.code, "INVALID_PDF");
    assert_eq!(e.message, "The file is not a readable PDF: a.pdf");
    let e = qpdf::npages_from_output(false, b"7\n", "a.pdf").unwrap_err();
    assert_eq!(e.code, "INVALID_PDF");
    let e = qpdf::npages_from_output(true, b"twelve\n", "b.pdf").unwrap_err();
    assert_eq!(e.message, "The file is not a readable PDF: b.pdf");
    let e = qpdf::npages_from_output(true, b"", "b.pdf").unwrap_err();
    assert_eq!(e.code, "INVALID_PDF");
    let e = qpdf::npages_from_output(true, b"4294967296", "b.pdf").unwrap_err();
    assert_eq!(e.code, "INVALID_PDF");
    assert_eq!(qpdf::npages_from_output(true, b"4294967295", "b.pdf").unwrap(), u32::MAX);
}

#[test]
fn npages_with_invalid_utf8_is_invalid_pdf() {
    let e = qpdf::npages_from_output(true, &[0x31, 0xff, 0x32], "c.pdf").unwrap_err();
    assert_eq!(e.code, "INVALID_PDF");
}

#[test]
fn trimmed_number_parsing() {
    assert_eq!(parse_trimmed_u32(" 42\n"), Some(42));
    assert_eq!(parse_trimmed_u32("+5"), Some(5));
    assert_eq!(parse_trimmed_u32("-5"), None);
    assert_eq!(parse_trimmed_u32(""), None);
    assert_eq!(parse_trimmed_u32("1 2"), None);
    assert_eq!(parse_trimmed_u32("\u{3000}9\u{2003}"), Some(9));
}

#[test]
fn blank_text_detection() {
    assert!(text_is_blank(""));
    assert!(text_is_blank(" \t\r\n"));
    assert!(!text_is_blank(" a "));
    assert!(white_space('\u{a0}'));
    assert!(!white_space('x'));
}

#[test]
fn executable_names() {
    assert_eq!(qpdf::exe_name(), "qpdf");
    assert_eq!(ocr::tesseract_exe(), "tesseract");
}

#[test]
fn ocr_errors() {
    let e = ocr::missing();
    assert_eq!(e.code, "OCR_MISSING");
    assert_eq!(e.title, "Tesseract not found");
    assert!(e.suggestion.unwrap().starts_with("Install Tesseract"));
    let e = ocr::langs_failed("no packs".to_string());
    assert_eq!(e.code, "OCR_LANGS_FAILED");
    assert_eq!(e.details.as_deref(), Some("no packs"));
    assert!(!ocr::available());
}

#[test]
fn unavailable_pipelines_say_so() {
    let picks: Vec<u32> = vec![1, 2];
    assert_eq!(ocr::ocr("j", &picks, "out.pdf", "eng").unwrap_err().code, "CapabilityUnavailable");
    assert_eq!(render::page_texts("a.pdf").unwrap_err().code, "CapabilityUnavailable");
    assert_eq!(render::page_pdf_b64("a.pdf", 1).unwrap(), None);
    assert_eq!(render::diff_pages::<u8>("a.pdf", 1, "b.pdf", 1, 256).unwrap_err().code, "CapabilityUnavailable");
    assert!(!render::available());
    assert_eq!(render::render_thumbnails::<u8>("a.pdf", &[1], 128).unwrap_err().code, "CapabilityUnavailable");
    assert_eq!(render::to_images("j", &picks, "/tmp", "png", 150).unwrap_err().code, "CapabilityUnavailable");
    assert_eq!(blank::detect_blank_pages("j", "a.pdf", "normal").unwrap_err().code, "CapabilityUnavailable");
    assert_eq!(
        textexport::export_text("j", "a.pdf", "a.txt", Some(1), None).unwrap_err().code,
        "CapabilityUnavailable"
    );
}

#[test]
fn document_identity_and_default_metadata() {
    assert!(DocumentId("a".to_string()) == DocumentId("a".to_string()));
    assert!(DocumentId("a".to_string()) != DocumentId("b".to_string()));
    let m = DocumentMetadata::default();
    assert!(m.title.is_none() && m.author.is_none() && m.creator.is_none() && m.producer.is_none());
    assert_eq!(m.pages_count, 0);
}

#[test]
fn language_listing_arguments() {
    assert_eq!(list_langs_args(None), vec!["--list-langs".to_string()]);
    assert_eq!(
        list_langs_args(Some("/opt/t/tessdata")),
        vec!["--tessdata-dir".to_string(), "/opt/t/tessdata".to_string(), "--list-langs".to_string()]
    );
}

#[test]
fn language_report_joins_both_streams() {
    assert_eq!(langs_output(b"eng\nosd", b"warn"), "eng\nosd\nwarn");
    assert_eq!(langs_output(b"", b""), "\n");
    assert_eq!(langs_output(&[0x61, 0xff], b""), "a\u{fffd}\n");
}

#[test]
fn language_listing_outcomes() {
    let e = list_langs_outcome(LangsRun::SpawnNotFound).unwrap_err();
    assert_eq!(e.code, "OCR_MISSING");
    let e = list_langs_outcome(LangsRun::SpawnFailed("permission denied".to_string())).unwrap_err();
    assert_eq!(e.code, "OCR_LANGS_FAILED");
    assert_eq!(e.details.as_deref(), Some("permission denied"));
    let e = list_langs_outcome(LangsRun::Exited {
        success: false,
        stdout: b"List of available languages (1):\neng\n".to_vec(),
        stderr: b"  error \n".to_vec(),
        langs: vec!["eng".to_string()],
    })
    .unwrap_err();
    assert_eq!(e.details.as_deref(), Some("List of available languages (1):\neng\n\n  error"));
    let e = list_langs_outcome(LangsRun::Exited {
        success: true,
        stdout: b"\n".to_vec(),
        stderr: b"".to_vec(),
        langs: vec![],
    })
    .unwrap_err();
    assert_eq!(e.details.as_deref(), Some(""));
    let ok = list_langs_outcome(LangsRun::Exited {
        success: true,
        stdout: b"eng\ndeu\n".to_vec(),
        stderr: vec![],
        langs: vec!["eng".to_string(), "deu".to_string()],
    })
    .unwrap();
    assert_eq!(ok, vec!["eng".to_string(), "deu".to_string()]);
}

#[test]
fn trimming() {
    assert_eq!(trim_text("  a b \n"), "a b");
    assert_eq!(trim_text("\u{3000}x"), "x");
    assert_eq!(trim_text(" \t "), "");
}

fn decode(s: &str) -> Vec<u8> {
    let alphabet = "ABCDEFGHIJKLMNOPQRSTUVWXYZabcdefghijklmnopqrstuvwxyz0123456789+/";
    let value = |c: char| alphabet.find(c).map(|i| i as u32).unwrap_or(0);
    let chars: Vec<char> = s.chars().collect();
    let mut out = Vec::new();
    for g in chars.chunks(4) {
        let n = value(g[0]) << 18 | value(g[1]) << 12 | value(g[2]) << 6 | value(g[3]);
        out.push((n >> 16) as u8);
        if g[2] != '=' {
            out.push((n >> 8) as u8);
        }
        if g[3] != '=' {
            out.push(n as u8);
        }
    }
    out
}

#[test]
fn base64_padding_and_round_trip() {
    for n in 0..30usize {
        let data: Vec<u8> = (0..n).map(|i| (i * 97 + 13) as u8).collect();
        let s = render::base64(&data);
        let pad = (3 - n % 3) % 3;
        assert!(s.ends_with(&"=".repeat(pad)));
        assert_eq!(s.matches('=').count(), pad);
        assert_eq!(decode(&s), data);
    }
}

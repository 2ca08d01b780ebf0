use ridiculous::config::validate_credentials_format;
use ridiculous::state::{is_retryable_error, should_retry, ProcessingState};
use ridiculous::types::{BookFormat, BookInfo, Config, DrmVersion, ProcessingError};

#[test]
fn test_book_format_detection() {
    assert_eq!(BookFormat::from_extension("epub"), BookFormat::Epub);
    assert_eq!(BookFormat::from_extension("PDF"), BookFormat::Pdf);
    assert_eq!(BookFormat::from_extension("unknown"), BookFormat::Unknown);
}

#[test]
fn test_config_defaults() {
    let config = Config::default();
    assert_eq!(config.max_retries, 3);
    assert_eq!(config.timeout_seconds, 30);
    assert!(!config.verbose);
    assert!(config.backup_originals);
    assert!(config.device_id.is_empty());
    assert!(config.user_idx.is_empty());
}

#[test]
fn test_retryable_error_detection() {
    assert!(is_retryable_error("Connection timeout occurred"));
    assert!(is_retryable_error("Network unreachable"));
    assert!(is_retryable_error("Temporary failure"));
    assert!(is_retryable_error("IO error: broken pipe"));
    assert!(!is_retryable_error("Authentication failed"));
    assert!(!is_retryable_error("File not found"));
}

#[test]
fn test_should_retry_consumes_budget() {
    assert!(should_retry("Connection timeout occurred", 3));
    assert!(should_retry("Connection timeout occurred", 2));
    assert!(!should_retry("Connection timeout occurred", 1));
    assert!(!should_retry("Authentication failed", 3));
}

#[test]
fn test_credential_validation_format() {
    let result = validate_credentials_format("invalid", "123");
    assert!(result.is_err());
    assert!(result
        .unwrap_err()
        .message()
        .contains("Invalid device ID format"));

    let result = validate_credentials_format("12345678-1234-1234-1234-123456789012", "");
    assert!(result.is_err());
    assert!(result
        .unwrap_err()
        .message()
        .contains("User index cannot be empty"));

    assert!(validate_credentials_format("12345678-1234-1234-1234-123456789012", "123").is_ok());
}

fn sample_book(id: &str, content_filename: &str, drm: DrmVersion) -> BookInfo {
    BookInfo {
        id: id.to_string(),
        format: BookFormat::Epub,
        path: format!("/library/_123/{}", id),
        title: None,
        content_filename: content_filename.to_string(),
        drm,
    }
}

#[test]
fn test_book_info_paths() {
    let book = sample_book("test_book", "test_book.epub", DrmVersion::V1);
    assert_eq!(book.id, "test_book");
    assert_eq!(book.format, BookFormat::Epub);
    assert!(book.get_data_file_path().ends_with("test_book.dat"));
    assert!(book.get_book_file_path().ends_with("test_book.epub"));
}

#[test]
fn test_display_name_prefers_title() {
    let mut book = sample_book("12345", "12345.epub", DrmVersion::V1);
    assert_eq!(book.get_display_name(), "12345");
    book.title = Some("A Real Title".to_string());
    assert_eq!(book.get_display_name(), "A Real Title");
}

#[test]
fn test_output_path_priorities() {
    let book = sample_book("b1", "b1.epub", DrmVersion::V1);
    let out = Some("/out".to_string());
    let lib = Some("/library".to_string());
    assert_eq!(book.get_output_path(&out, &lib), "/out/b1.epub");
    assert_eq!(book.get_output_path(&None, &lib), "/library/b1.epub");
    assert_eq!(book.get_output_path(&None, &None), "/library/_123/b1.epub");
    let rootless = BookInfo {
        path: "solo".to_string(),
        ..sample_book("b1", "b1.epub", DrmVersion::V1)
    };
    assert_eq!(rootless.get_output_path(&None, &None), "b1.epub");
}

#[test]
fn test_already_decrypted_checks() {
    let v1 = sample_book("b1", "b1.epub", DrmVersion::V1);
    let v11 = sample_book("b2", "b2.v11.epub", DrmVersion::V11);
    // a v1 content file that opens as an archive is prior plaintext
    assert!(v1.is_already_decrypted(true, false));
    assert!(!v1.is_already_decrypted(false, false));
    // the archive check does not apply to v11 books
    assert!(!v11.is_already_decrypted(true, false));
    // an existing output file always counts
    assert!(v11.is_already_decrypted(false, true));
}

#[test]
fn test_error_messages_name_the_kind() {
    assert_eq!(
        ProcessingError::IoError("boom".to_string()).message(),
        "IO Error: boom"
    );
    assert_eq!(
        ProcessingError::UnsupportedFormat("mobi".to_string()).message(),
        "Unsupported Format: mobi"
    );
    assert_eq!(
        ProcessingError::KeyExtractionError("short".to_string()).message(),
        "Key Extraction Error: short"
    );
}

#[test]
fn test_record_result_and_checkpoint() {
    let mut state = ProcessingState::default();
    let mut checkpoints = Vec::new();
    for i in 0..7 {
        let id = format!("book{}", i);
        let result = if i == 2 {
            Err("Decryption Error: bad padding".to_string())
        } else {
            Ok(())
        };
        checkpoints.push(state.record_result(id, result));
    }
    assert_eq!(state.completed.len(), 6);
    assert_eq!(state.failed.len(), 1);
    assert_eq!(state.failed[0].0, "book2");
    // a checkpoint fires after every fifth recorded outcome
    assert_eq!(
        checkpoints,
        vec![false, false, false, false, true, false, false]
    );
}

#[test]
fn test_resume_skips_completed_even_without_output() {
    // resume after a crash: "A" is recorded as completed, its output file is
    // gone, and it still must not be selected again
    let mut state = ProcessingState::default();
    state.record_result("A".to_string(), Ok(()));
    let books = vec![sample_book("A", "A.epub", DrmVersion::V1)];
    let selected =
        ridiculous::state::select_books_to_process(books, &vec![false], &state, false, true);
    assert!(selected.is_empty());
}

#[test]
fn test_second_run_selects_nothing() {
    // first run: nothing decrypted yet, everything selected
    let books = || {
        vec![
            sample_book("A", "A.epub", DrmVersion::V1),
            sample_book("B", "B.v11.epub", DrmVersion::V11),
        ]
    };
    let state = ProcessingState::default();
    let first =
        ridiculous::state::select_books_to_process(books(), &vec![false, false], &state, false, false);
    assert_eq!(first.len(), 2);

    // second run: both outputs exist, so nothing is selected
    let second =
        ridiculous::state::select_books_to_process(books(), &vec![true, true], &state, false, false);
    assert!(second.is_empty());

    // force overrides both checks
    let forced =
        ridiculous::state::select_books_to_process(books(), &vec![true, true], &state, true, false);
    assert_eq!(forced.len(), 2);
}

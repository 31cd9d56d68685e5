use zed_pdf_lsp::message_handler::MessageHandler;
use zed_pdf_lsp::pdf_converter::ConversionError;

#[test]
fn test_message_handler_new() {
    let _handler = MessageHandler::new();
}

#[test]
fn test_format_error_response_file_not_found() {
    let handler = MessageHandler::new();
    let error = ConversionError::FileNotFound("/path/to/missing.pdf".to_string());

    let markdown = handler.format_error_response(error);

    assert!(markdown.contains("# Error: File Not Found"));
    assert!(markdown.contains("**File**: /path/to/missing.pdf"));
    assert!(markdown.contains("**Reason**:"));
    assert!(markdown.contains("does not exist"));
    assert!(markdown.contains("check that the file path is correct"));
}

#[test]
fn test_format_error_response_file_not_readable() {
    let handler = MessageHandler::new();
    let error = ConversionError::FileNotReadable("/path/to/locked.pdf".to_string());

    let markdown = handler.format_error_response(error);

    assert!(markdown.contains("# Error: File Not Readable"));
    assert!(markdown.contains("**File**: /path/to/locked.pdf"));
    assert!(markdown.contains("**Reason**:"));
    assert!(markdown.contains("cannot be read"));
    assert!(markdown.contains("check file permissions"));
}

#[test]
fn test_format_error_response_corrupted_pdf() {
    let handler = MessageHandler::new();
    let error = ConversionError::CorruptedPdf {
        path: "/path/to/corrupted.pdf".to_string(),
        details: "Invalid PDF header".to_string(),
    };

    let markdown = handler.format_error_response(error);

    assert!(markdown.contains("# Error: Corrupted PDF"));
    assert!(markdown.contains("**File**: /path/to/corrupted.pdf"));
    assert!(markdown.contains("**Reason**:"));
    assert!(markdown.contains("Invalid PDF header"));
    assert!(markdown.contains("verify its integrity"));
}

#[test]
fn test_format_error_response_encrypted_pdf() {
    let handler = MessageHandler::new();
    let error = ConversionError::EncryptedPdf("/path/to/encrypted.pdf".to_string());

    let markdown = handler.format_error_response(error);

    assert!(markdown.contains("# Error: Encrypted PDF"));
    assert!(markdown.contains("**File**: /path/to/encrypted.pdf"));
    assert!(markdown.contains("**Reason**:"));
    assert!(markdown.contains("encrypted and requires a password"));
    assert!(markdown.contains("decrypt the PDF file"));
}

#[test]
fn test_format_error_response_empty_pdf() {
    let handler = MessageHandler::new();
    let error = ConversionError::EmptyPdf("/path/to/empty.pdf".to_string());

    let markdown = handler.format_error_response(error);

    assert!(markdown.contains("# Error: Empty PDF"));
    assert!(markdown.contains("**File**: /path/to/empty.pdf"));
    assert!(markdown.contains("**Reason**:"));
    assert!(markdown.contains("no extractable text content"));
    assert!(markdown.contains("OCR"));
}

#[test]
fn test_format_error_response_memory_limit_exceeded() {
    let handler = MessageHandler::new();
    let error = ConversionError::MemoryLimitExceeded("/path/to/large.pdf".to_string());

    let markdown = handler.format_error_response(error);

    assert!(markdown.contains("# Error: Memory Limit Exceeded"));
    assert!(markdown.contains("**File**: /path/to/large.pdf"));
    assert!(markdown.contains("**Reason**:"));
    assert!(markdown.contains("exceeded the memory limit"));
    assert!(markdown.contains("too large or complex"));
}

#[test]
fn test_format_error_response_conversion_timeout() {
    let handler = MessageHandler::new();
    let error = ConversionError::ConversionTimeout {
        path: "/path/to/slow.pdf".to_string(),
        timeout_secs: 10,
    };

    let markdown = handler.format_error_response(error);

    assert!(markdown.contains("# Error: Conversion Timed Out"));
    assert!(markdown.contains("**File**: /path/to/slow.pdf"));
    assert!(markdown.contains("10 seconds"));
}

#[test]
fn test_format_error_response_returns_valid_markdown() {
    let handler = MessageHandler::new();

    let errors: Vec<ConversionError> = vec![
        ConversionError::FileNotFound("/test.pdf".to_string()),
        ConversionError::FileNotReadable("/test.pdf".to_string()),
        ConversionError::CorruptedPdf {
            path: "/test.pdf".to_string(),
            details: "test error".to_string(),
        },
        ConversionError::EncryptedPdf("/test.pdf".to_string()),
        ConversionError::EmptyPdf("/test.pdf".to_string()),
        ConversionError::MemoryLimitExceeded("/test.pdf".to_string()),
        ConversionError::ConversionTimeout {
            path: "/test.pdf".to_string(),
            timeout_secs: 10,
        },
    ];

    for error in errors {
        let markdown = handler.format_error_response(error);

        assert!(!markdown.is_empty());
        assert!(markdown.starts_with("# Error:"));
        assert!(markdown.contains("**File**:"));
        assert!(markdown.contains("**Reason**:"));
    }
}

#[test]
fn test_format_error_response_markdown_structure() {
    let handler = MessageHandler::new();
    let error = ConversionError::FileNotFound("/test.pdf".to_string());

    let markdown = handler.format_error_response(error);

    assert!(markdown.contains("\n\n"));
    assert!(markdown.starts_with("# Error:"));
    assert!(markdown.contains("**File**:"));
    assert!(markdown.contains("**Reason**:"));
}

#[test]
fn format_error_includes_uri_for_file_not_found() {
    let handler = MessageHandler::new();
    let output = handler.format_error_response(ConversionError::FileNotFound(
        "/home/user/docs/report.pdf".to_string(),
    ));
    assert!(
        output.contains("/home/user/docs/report.pdf"),
        "error must include document URI"
    );
    assert!(
        output.contains("**Reason**:"),
        "error must include error details"
    );
    assert!(
        output.contains("does not exist"),
        "error must describe the problem"
    );
}

#[test]
fn format_error_includes_uri_for_corrupted_pdf() {
    let handler = MessageHandler::new();
    let output = handler.format_error_response(ConversionError::CorruptedPdf {
        path: "/data/broken.pdf".to_string(),
        details: "Invalid cross-reference table".to_string(),
    });
    assert!(
        output.contains("/data/broken.pdf"),
        "error must include document URI"
    );
    assert!(
        output.contains("Invalid cross-reference table"),
        "error must include specific details"
    );
}

#[test]
fn format_error_includes_uri_for_encrypted_pdf() {
    let handler = MessageHandler::new();
    let output = handler.format_error_response(ConversionError::EncryptedPdf(
        "/secure/secret.pdf".to_string(),
    ));
    assert!(
        output.contains("/secure/secret.pdf"),
        "error must include document URI"
    );
    assert!(
        output.contains("encrypted"),
        "error must describe encryption issue"
    );
}

#[test]
fn format_error_includes_uri_for_timeout() {
    let handler = MessageHandler::new();
    let output = handler.format_error_response(ConversionError::ConversionTimeout {
        path: "/large/huge.pdf".to_string(),
        timeout_secs: 10,
    });
    assert!(
        output.contains("/large/huge.pdf"),
        "error must include document URI"
    );
    assert!(
        output.contains("10 seconds"),
        "error must include timeout details"
    );
}

// Exact reports and edge cases.

#[test]
fn file_not_found_report_is_exact() {
    let handler = MessageHandler::default();
    let output =
        handler.format_error_response(ConversionError::FileNotFound("/a/b.pdf".to_string()));
    assert_eq!(
        output,
        "# Error: File Not Found\n\n**File**: /a/b.pdf\n\n**Reason**: The specified PDF file does not exist at the given path.\n\nPlease check that the file path is correct and the file exists."
    );
}

#[test]
fn empty_path_is_shown_as_placeholder() {
    let handler = MessageHandler::new();
    for error in [
        ConversionError::CorruptedPdf { path: String::new(), details: "d".to_string() },
        ConversionError::EncryptedPdf(String::new()),
        ConversionError::EmptyPdf(String::new()),
        ConversionError::MemoryLimitExceeded(String::new()),
        ConversionError::ConversionTimeout { path: String::new(), timeout_secs: 3 },
    ] {
        let output = handler.format_error_response(error);
        assert!(output.contains("**File**: (PDF file)\n\n"), "{}", output);
    }
    let output = handler.format_error_response(ConversionError::FileNotFound(String::new()));
    assert!(output.contains("**File**: \n\n"));
}

#[test]
fn timeout_report_spells_large_limits() {
    let handler = MessageHandler::new();
    let output = handler.format_error_response(ConversionError::ConversionTimeout {
        path: "/x.pdf".to_string(),
        timeout_secs: 18446744073709551615,
    });
    assert!(output.contains("within 18446744073709551615 seconds."));
    let output = handler.format_error_response(ConversionError::ConversionTimeout {
        path: "/x.pdf".to_string(),
        timeout_secs: 0,
    });
    assert!(output.contains("within 0 seconds."));
}

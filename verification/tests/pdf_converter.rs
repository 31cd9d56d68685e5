use std::time::Instant;
use zed_pdf_lsp::pdf_converter::{
    pages_from_extraction, ConversionError, Extraction, PdfConverter, ReadFailure,
    CONVERSION_TIMEOUT_SECS,
};

/// Runs the text extractor on `data` and records what it gave.
fn run_extractor(data: &[u8]) -> Extraction {
    match pdf_extract::extract_text_from_mem(data) {
        Ok(text) => Extraction::Text(text),
        Err(e) => Extraction::Failed(e.to_string()),
    }
}

#[test]
fn test_pdf_converter_new() {
    let converter = PdfConverter::new();
    assert_eq!(converter.max_memory_mb(), 500);
}

#[test]
fn test_conversion_error_display() {
    let err = ConversionError::FileNotFound("/path/to/file.pdf".to_string());
    assert_eq!(err.message(), "File not found: /path/to/file.pdf");

    let err = ConversionError::FileNotReadable("/path/to/file.pdf".to_string());
    assert_eq!(err.message(), "File not readable: /path/to/file.pdf");

    let err = ConversionError::CorruptedPdf {
        path: "/path/to/file.pdf".to_string(),
        details: "Invalid PDF structure".to_string(),
    };
    assert_eq!(err.message(), "Corrupted PDF (/path/to/file.pdf): Invalid PDF structure");

    let err = ConversionError::EncryptedPdf("/path/to/file.pdf".to_string());
    assert_eq!(err.message(), "PDF is encrypted and requires a password: /path/to/file.pdf");

    let err = ConversionError::EmptyPdf("/path/to/file.pdf".to_string());
    assert_eq!(err.message(), "PDF contains no extractable text: /path/to/file.pdf");

    let err = ConversionError::MemoryLimitExceeded("/path/to/file.pdf".to_string());
    assert_eq!(err.message(), "Memory limit exceeded during conversion: /path/to/file.pdf");

    let err = ConversionError::ConversionTimeout { path: "/path/to/file.pdf".to_string(), timeout_secs: 10 };
    assert_eq!(err.message(), "Conversion timed out after 10 seconds: /path/to/file.pdf");
}

#[test]
fn test_conversion_error_debug() {
    let err = ConversionError::EncryptedPdf(String::new());
    let debug_str = format!("{:?}", err);
    assert!(debug_str.contains("EncryptedPdf"));
}

#[test]
fn test_extract_text_with_empty_pdf() {
    let converter = PdfConverter::new();
    let empty_pdf = b"%PDF-1.4\n1 0 obj\n<< /Type /Catalog /Pages 2 0 R >>\nendobj\n2 0 obj\n<< /Type /Pages /Kids [] /Count 0 >>\nendobj\nxref\n0 3\n0000000000 65535 f\n0000000009 00000 n\n0000000058 00000 n\ntrailer\n<< /Size 3 /Root 1 0 R >>\nstartxref\n110\n%%EOF";

    let result = converter.extract_text(run_extractor(empty_pdf));

    assert!(matches!(result, Err(ConversionError::EmptyPdf(_)) | Err(ConversionError::CorruptedPdf { .. })));
}

#[test]
fn test_extract_text_with_corrupted_pdf() {
    let converter = PdfConverter::new();
    let corrupted_pdf = b"This is not a valid PDF file";

    let result = converter.extract_text(run_extractor(corrupted_pdf));

    assert!(matches!(result, Err(ConversionError::CorruptedPdf { .. })));
}

#[test]
fn test_extract_text_returns_vec_of_strings() {
    let converter = PdfConverter::new();
    let invalid_pdf = b"Not a PDF";
    let result = converter.extract_text(run_extractor(invalid_pdf));
    assert!(result.is_err());
}

#[test]
fn test_detect_headings_all_caps() {
    let converter = PdfConverter::new();
    let text = "This is normal text.\nINTRODUCTION\nThis is more text.";

    let headings = converter.detect_headings(text);

    assert_eq!(headings.len(), 1);
    assert_eq!(headings[0].0, 1);
    assert_eq!(headings[0].1, "INTRODUCTION");
}

#[test]
fn test_detect_headings_with_prefix() {
    let converter = PdfConverter::new();
    let text = "Some text here.\nChapter 1: Getting Started\nMore content.";

    let headings = converter.detect_headings(text);

    assert_eq!(headings.len(), 1);
    assert_eq!(headings[0].0, 1);
    assert_eq!(headings[0].1, "Chapter 1: Getting Started");
}

#[test]
fn test_detect_headings_numbered() {
    let converter = PdfConverter::new();
    let text = "Introduction\n1. First Section\n2. Second Section\nBody text here.";

    let headings = converter.detect_headings(text);

    assert!(headings.len() >= 2);
    assert!(headings.iter().any(|(_, h)| h.contains("First Section")));
    assert!(headings.iter().any(|(_, h)| h.contains("Second Section")));
}

#[test]
fn test_detect_headings_short_lines() {
    let converter = PdfConverter::new();
    let text = "This is a very long line that should not be detected as a heading because it exceeds the length threshold.\nShort Title\nAnother long line of text that continues for a while and should not be considered a heading.";

    let headings = converter.detect_headings(text);

    assert!(headings.iter().any(|(_, h)| h == "Short Title"));
}

#[test]
fn test_detect_headings_empty_text() {
    let converter = PdfConverter::new();
    let text = "";

    let headings = converter.detect_headings(text);

    assert_eq!(headings.len(), 0);
}

#[test]
fn test_detect_headings_no_headings() {
    let converter = PdfConverter::new();
    let text = "This is just normal body text. It has sentences that end with periods. Nothing here looks like a heading at all.";

    let headings = converter.detect_headings(text);

    assert_eq!(headings.len(), 0);
}

#[test]
fn test_detect_headings_multiple_types() {
    let converter = PdfConverter::new();
    let text = "ABSTRACT\n\nThis paper discusses...\n\nChapter 1: Introduction\n\nSome content here.\n\n1. First Point\n\nMore text.\n\nCONCLUSION\n\nFinal thoughts.";

    let headings = converter.detect_headings(text);

    assert!(headings.len() >= 3);
    assert!(headings.iter().any(|(_, h)| h == "ABSTRACT"));
    assert!(headings.iter().any(|(_, h)| h.contains("Chapter 1")));
    assert!(headings.iter().any(|(_, h)| h == "CONCLUSION"));
}

#[test]
fn test_format_as_markdown_single_page() {
    let converter = PdfConverter::new();
    let pages = vec!["This is a simple paragraph.\n\nThis is another paragraph.".to_string()];

    let markdown = converter.format_as_markdown(pages);

    assert!(markdown.contains("This is a simple paragraph."));
    assert!(markdown.contains("This is another paragraph."));
    assert!(markdown.contains("\n\n"));
    assert!(!markdown.contains("---"));
}

#[test]
fn test_format_as_markdown_with_headings() {
    let converter = PdfConverter::new();
    let pages = vec!["INTRODUCTION\n\nThis is the introduction text.\n\nChapter 1: Getting Started\n\nThis is chapter one content.".to_string()];

    let markdown = converter.format_as_markdown(pages);

    assert!(markdown.contains("# INTRODUCTION"));
    assert!(markdown.contains("## Chapter 1: Getting Started"));
    assert!(markdown.contains("This is the introduction text."));
    assert!(markdown.contains("This is chapter one content."));
}

#[test]
fn test_format_as_markdown_multiple_pages() {
    let converter = PdfConverter::new();
    let pages = vec![
        "Page one content.\n\nMore text on page one.".to_string(),
        "Page two content.\n\nMore text on page two.".to_string(),
        "Page three content.".to_string(),
    ];

    let markdown = converter.format_as_markdown(pages);

    assert!(markdown.contains("Page one content."));
    assert!(markdown.contains("Page two content."));
    assert!(markdown.contains("Page three content."));
    assert_eq!(markdown.matches("---").count(), 2);
}

#[test]
fn test_format_as_markdown_preserves_paragraph_structure() {
    let converter = PdfConverter::new();
    let pages = vec!["First paragraph here.\n\nSecond paragraph here.\n\nThird paragraph here.".to_string()];

    let markdown = converter.format_as_markdown(pages);

    let double_newlines = markdown.matches("\n\n").count();
    assert!(double_newlines >= 2);
}

#[test]
fn test_format_as_markdown_empty_pages() {
    let converter = PdfConverter::new();
    let pages = vec!["".to_string()];

    let markdown = converter.format_as_markdown(pages);

    assert_eq!(markdown.trim(), "");
}

#[test]
fn test_format_as_markdown_heading_levels() {
    let converter = PdfConverter::new();
    let pages = vec!["ABSTRACT\n\nSome text.\n\n1.1 Subsection\n\nMore text.".to_string()];

    let markdown = converter.format_as_markdown(pages);

    assert!(markdown.contains("# ABSTRACT"));
    assert!(markdown.contains("## 1.1 Subsection"));
}

#[test]
fn test_format_as_markdown_no_trailing_separator() {
    let converter = PdfConverter::new();
    let pages = vec!["Page 1".to_string(), "Page 2".to_string()];

    let markdown = converter.format_as_markdown(pages);

    assert!(!markdown.trim_end().ends_with("---"));
}

#[test]
fn test_conversion_timeout_error_display() {
    let err = ConversionError::ConversionTimeout { path: "/test.pdf".to_string(), timeout_secs: 10 };
    assert_eq!(err.message(), "Conversion timed out after 10 seconds: /test.pdf");
}

#[test]
fn test_with_path_adds_context() {
    let err = ConversionError::EncryptedPdf(String::new());
    let err = err.with_path("/doc.pdf".to_string());
    assert!(matches!(err, ConversionError::EncryptedPdf(ref p) if p == "/doc.pdf"));

    let err = ConversionError::EmptyPdf(String::new());
    let err = err.with_path("/doc.pdf".to_string());
    assert!(matches!(err, ConversionError::EmptyPdf(ref p) if p == "/doc.pdf"));

    let err = ConversionError::CorruptedPdf { path: String::new(), details: "bad".to_string() };
    let err = err.with_path("/doc.pdf".to_string());
    assert!(matches!(err, ConversionError::CorruptedPdf { ref path, .. } if path == "/doc.pdf"));
}

#[test]
fn test_format_as_markdown_error_marker_for_empty_page_among_valid() {
    let converter = PdfConverter::new();
    let pages = vec![
        "Page one content.".to_string(),
        "".to_string(),
        "Page three content.".to_string(),
    ];

    let markdown = converter.format_as_markdown(pages);

    assert!(markdown.contains("Page one content."));
    assert!(markdown.contains("Page three content."));
    assert_eq!(markdown.matches("---").count(), 2);
}

#[test]
fn test_format_page_produces_valid_markdown() {
    let converter = PdfConverter::new();
    let page = "INTRODUCTION\n\nSome body text here.\n\nMore text.";
    let result = converter.format_page(page);
    assert!(result.contains("# INTRODUCTION"));
    assert!(result.contains("Some body text here."));
    assert!(result.contains("More text."));
}

#[test]
fn test_extract_text_encrypted_pdf_error() {
    let converter = PdfConverter::new();

    let encrypted_pdf = b"%PDF-1.6
1 0 obj<</Type/Catalog/Pages 2 0 R>>endobj
2 0 obj<</Type/Pages/Kids[]/Count 0>>endobj
3 0 obj<</Filter/Standard/V 2/R 3/O(xxxx)/U(xxxx)/P -3904>>endobj
trailer<</Size 4/Root 1 0 R/Encrypt 3 0 R>>
startxref
0
%%EOF";

    let result = converter.extract_text(run_extractor(encrypted_pdf));
    assert!(
        result.is_err(),
        "Encrypted PDF data should produce an error"
    );
}

#[test]
fn test_format_as_markdown_multi_page_with_headings() {
    let converter = PdfConverter::new();
    let pages = vec![
        "INTRODUCTION\n\nFirst page body text here.".to_string(),
        "CONCLUSION\n\nSecond page body text here.".to_string(),
    ];

    let markdown = converter.format_as_markdown(pages);

    assert!(markdown.contains("# INTRODUCTION"));
    assert!(markdown.contains("# CONCLUSION"));
    assert!(markdown.contains("First page body text here."));
    assert!(markdown.contains("Second page body text here."));
    assert_eq!(markdown.matches("---").count(), 1);
}

#[test]
fn test_error_conversion_timeout() {
    let err = ConversionError::ConversionTimeout {
        path: "/path/to/large.pdf".to_string(),
        timeout_secs: 10,
    };
    assert!(err.message().contains("10 seconds"));
    assert!(err.message().contains("/path/to/large.pdf"));

    match err {
        ConversionError::ConversionTimeout { path, timeout_secs } => {
            assert_eq!(path, "/path/to/large.pdf");
            assert_eq!(timeout_secs, 10);
        }
        _ => panic!("Expected ConversionTimeout variant"),
    }
}

#[test]
fn default_memory_limit_is_500mb() {
    let converter = PdfConverter::new();
    assert_eq!(
        converter.max_memory_mb(), 500,
        "Default memory limit must be 500 MB per Requirement 7.4"
    );
}

fn generate_pages(num_pages: usize, text_per_page: &str) -> Vec<String> {
    (0..num_pages).map(|_| text_per_page.to_string()).collect()
}

fn sample_page_text(lines: usize) -> String {
    let line = "lorem ipsum dolor sit amet consectetur adipiscing elit sed do eiusmod tempor.";
    (0..lines).map(|_| line).collect::<Vec<_>>().join("\n")
}

#[test]
fn bench_format_as_markdown_small_input() {
    let converter = PdfConverter::new();
    let page_text = sample_page_text(80);
    let pages = generate_pages(1, &page_text);

    let start = Instant::now();
    for _ in 0..100 {
        let _ = converter.format_as_markdown(pages.clone());
    }
    let elapsed = start.elapsed();
    let avg_ms = elapsed.as_millis() as f64 / 100.0;

    assert!(
        avg_ms < 100.0,
        "Small input (1 page) avg conversion took {:.2}ms, expected < 100ms",
        avg_ms
    );
}

#[test]
fn bench_format_as_markdown_medium_input() {
    let converter = PdfConverter::new();
    let page_text = sample_page_text(80);
    let pages = generate_pages(10, &page_text);

    let start = Instant::now();
    for _ in 0..50 {
        let _ = converter.format_as_markdown(pages.clone());
    }
    let elapsed = start.elapsed();
    let avg_ms = elapsed.as_millis() as f64 / 50.0;

    assert!(
        avg_ms < 500.0,
        "Medium input (10 pages) avg conversion took {:.2}ms, expected < 500ms",
        avg_ms
    );
}

#[test]
fn bench_format_as_markdown_large_input() {
    let converter = PdfConverter::new();
    let page_text = sample_page_text(80);
    let pages = generate_pages(50, &page_text);

    let start = Instant::now();
    for _ in 0..10 {
        let _ = converter.format_as_markdown(pages.clone());
    }
    let elapsed = start.elapsed();
    let avg_ms = elapsed.as_millis() as f64 / 10.0;

    assert!(
        avg_ms < 2000.0,
        "Large input (50 pages) avg conversion took {:.2}ms, expected < 2000ms",
        avg_ms
    );
}

#[test]
fn bench_conversion_time_scales_with_size() {
    let converter = PdfConverter::new();
    let page_text = sample_page_text(80);

    let sizes = [1, 5, 10, 25, 50];
    let mut timings = Vec::new();

    for &num_pages in &sizes {
        let pages = generate_pages(num_pages, &page_text);
        let start = Instant::now();
        for _ in 0..20 {
            let _ = converter.format_as_markdown(pages.clone());
        }
        let avg_us = start.elapsed().as_micros() as f64 / 20.0;
        timings.push((num_pages, avg_us));
    }

    let (_, time_small) = timings[0];
    let (_, time_large) = timings[timings.len() - 1];
    assert!(
        time_large >= time_small,
        "Larger input should take at least as long: small={:.0}µs, large={:.0}µs",
        time_small,
        time_large
    );
}

#[test]
fn bench_memory_proxy_for_varying_sizes() {
    let converter = PdfConverter::new();
    let page_text = sample_page_text(80);

    let small_pages = generate_pages(1, &page_text);
    let large_pages = generate_pages(50, &page_text);

    let small_output = converter.format_as_markdown(small_pages);
    let large_output = converter.format_as_markdown(large_pages);

    let ratio = large_output.len() as f64 / small_output.len() as f64;
    assert!(
        ratio > 10.0 && ratio < 100.0,
        "Output size ratio (50 pages / 1 page) = {:.1}, expected between 10 and 100",
        ratio
    );
}

// Exact renderings.

#[test]
fn body_lines_join_into_one_paragraph() {
    let converter = PdfConverter::new();
    assert_eq!(
        converter.format_page("first part of it.\nsecond part.\n\nnext one here."),
        "first part of it. second part.\n\nnext one here.\n"
    );
}

#[test]
fn leading_hash_in_body_text_is_escaped() {
    let converter = PdfConverter::new();
    assert_eq!(converter.format_page("#hashtag here."), "\\#hashtag here.\n");
}

#[test]
fn heading_levels_and_blank_lines() {
    let converter = PdfConverter::new();
    assert_eq!(
        converter.format_page("  SUMMARY  \r\nsome words here.\n"),
        "# SUMMARY\n\nsome words here.\n"
    );
    assert_eq!(
        converter.format_page("a paragraph line.\nChapter 2: A Rather Long Title For Level Two"),
        "a paragraph line.\n\n## Chapter 2: A Rather Long Title For Level Two\n\n"
    );
}

#[test]
fn numbered_labels_are_headings() {
    let converter = PdfConverter::new();
    let headings = converter.detect_headings("IV. Results and findings of the long study here.\nthe end.");
    assert_eq!(headings.len(), 1);
    assert_eq!(headings[0], (0, "IV. Results and findings of the long study here.".to_string()));
}

#[test]
fn heading_line_numbers_count_blank_lines() {
    let converter = PdfConverter::new();
    let headings = converter.detect_headings("\n\n   \nOVERVIEW\n");
    assert_eq!(headings, vec![(3, "OVERVIEW".to_string())]);
}

#[test]
fn pages_are_joined_with_one_separator() {
    let converter = PdfConverter::new();
    let single = converter.format_page("one page.");
    assert_eq!(converter.format_as_markdown(vec!["one page.".to_string()]), single);
    let joined = converter.format_as_markdown(vec!["one page.".to_string(), "two page.".to_string()]);
    assert_eq!(joined, "one page.\n\n---\n\ntwo page.\n");
    assert_eq!(converter.format_as_markdown(Vec::new()), "");
}

#[test]
fn blank_pages_render_as_one_empty_line() {
    let converter = PdfConverter::new();
    assert_eq!(converter.format_page(" \n\t"), "\n");
    assert_eq!(converter.format_as_markdown(vec![" \n\t".to_string()]), "\n");
    assert_eq!(converter.format_as_markdown(vec![" ".to_string(), "".to_string()]), "\n\n---\n\n\n");
    assert_eq!(converter.format_as_markdown(vec!["".to_string()]).trim(), "");
}

#[test]
fn non_empty_text_produces_non_empty_markdown() {
    let converter = PdfConverter::new();
    let samples = [" ", "\t", "\n\n", "\r\n", "x", "#", "# not a heading", "ABC", " \u{a0}\u{2003}"];
    for count in 1..=5 {
        for sample in samples {
            let pages: Vec<String> = (0..count).map(|k| sample.repeat(k + 1)).collect();
            assert!(!converter.format_as_markdown(pages).is_empty(), "{:?} x {}", sample, count);
        }
    }
}

#[test]
fn a_panicking_extractor_is_reported_as_corruption() {
    let converter = PdfConverter::new();
    match converter.extract_text(Extraction::Panicked) {
        Err(ConversionError::CorruptedPdf { path, details }) => {
            assert_eq!(path, "");
            assert_eq!(details, "PDF extraction panicked unexpectedly");
        }
        _ => panic!("expected CorruptedPdf"),
    }
    let pages = converter.extract_text(Extraction::Text("a\x0Cb".to_string())).unwrap();
    assert_eq!(pages, vec!["a".to_string(), "b".to_string()]);
    assert!(matches!(
        converter.extract_text(Extraction::Failed("file is encrypted".to_string())),
        Err(ConversionError::EncryptedPdf(_))
    ));
}

// Extraction outcomes.

#[test]
fn extractor_errors_are_classified() {
    match pages_from_extraction(Err("PDF error: document is encrypted".to_string())) {
        Err(ConversionError::EncryptedPdf(p)) => assert_eq!(p, ""),
        _ => panic!("expected EncryptedPdf"),
    }
    match pages_from_extraction(Err("needs a password".to_string())) {
        Err(ConversionError::EncryptedPdf(_)) => {}
        _ => panic!("expected EncryptedPdf"),
    }
    match pages_from_extraction(Err("PDF error: Invalid file header".to_string())) {
        Err(ConversionError::CorruptedPdf { path, details }) => {
            assert_eq!(path, "");
            assert_eq!(details, "PDF error: Invalid file header");
        }
        _ => panic!("expected CorruptedPdf"),
    }
    match pages_from_extraction(Err("IO error: gone".to_string())) {
        Err(ConversionError::CorruptedPdf { details, .. }) => {
            assert_eq!(details, "Failed to extract text: IO error: gone");
        }
        _ => panic!("expected CorruptedPdf"),
    }
}

#[test]
fn extracted_text_is_split_at_form_feeds() {
    let pages = pages_from_extraction(Ok("  first \x0C\x0C second\n \x0C \n".to_string())).unwrap();
    assert_eq!(pages, vec!["first".to_string(), "second".to_string()]);
    let pages = pages_from_extraction(Ok("only one".to_string())).unwrap();
    assert_eq!(pages, vec!["only one".to_string()]);
    assert!(matches!(pages_from_extraction(Ok(" \n\x0C ".to_string())), Err(ConversionError::EmptyPdf(_))));
}

#[test]
fn extract_text_reads_a_real_document() {
    let converter = PdfConverter::new();
    let pdf = b"%PDF-1.4
1 0 obj<</Type/Catalog/Pages 2 0 R>>endobj
2 0 obj<</Type/Pages/Kids[3 0 R]/Count 1>>endobj
3 0 obj<</Type/Page/Parent 2 0 R/Resources 4 0 R/MediaBox[0 0 612 792]/Contents 5 0 R>>endobj
4 0 obj<</Font<</F1<</Type/Font/Subtype/Type1/BaseFont/Helvetica>>>>>>endobj
5 0 obj<</Length 44>>
stream
BT /F1 12 Tf 100 700 Td (Hello World) Tj ET
endstream
endobj
xref
0 6
0000000000 65535 f 
0000000009 00000 n 
0000000052 00000 n 
0000000101 00000 n 
0000000230 00000 n 
0000000312 00000 n 
trailer<</Size 6/Root 1 0 R>>
startxref
405
%%EOF";
    match converter.extract_text(run_extractor(pdf)) {
        Ok(pages) => {
            assert_eq!(pages.len(), 1);
            assert!(pages[0].contains("Hello"), "{:?}", pages);
        }
        Err(e) => assert!(
            matches!(e, ConversionError::EmptyPdf(_) | ConversionError::CorruptedPdf { .. }),
            "{:?}",
            e
        ),
    }
}

#[test]
fn corrupted_bytes_report_the_extractor_error() {
    let converter = PdfConverter::new();
    match converter.extract_text(run_extractor(b"RANDOM GARBAGE DATA 12345!@#$%")) {
        Err(ConversionError::CorruptedPdf { path, details }) => {
            assert_eq!(path, "");
            assert!(!details.is_empty());
            assert_ne!(details, "RANDOM GARBAGE DATA 12345!@#$%");
        }
        other => panic!("expected CorruptedPdf, got {:?}", other),
    }
}

#[test]
fn memory_limit_boundary() {
    let converter = PdfConverter::with_memory_limit(1);
    let path = "/big.pdf".to_string();
    assert!(converter.check_memory_limit(&path, 1024 * 1024 - 1).is_ok());
    match converter.check_memory_limit(&path, 1024 * 1024) {
        Err(ConversionError::MemoryLimitExceeded(p)) => assert_eq!(p, "/big.pdf"),
        _ => panic!("expected MemoryLimitExceeded"),
    }
    assert!(matches!(
        converter.check_memory_limit(&path, 1024 * 1024 + 1),
        Err(ConversionError::MemoryLimitExceeded(_))
    ));
    let zero = PdfConverter::with_memory_limit(0);
    assert!(zero.check_memory_limit(&path, 0).is_err());
}

#[test]
fn finished_conversion_carries_the_path_in_errors() {
    let converter = PdfConverter::new();
    let path = "/docs/bad.pdf".to_string();
    let started = Instant::now();
    let extracted = converter.extract_text(run_extractor(b"this is not a pdf at all"));
    match converter.finish_conversion(&path, extracted, &started) {
        Err(ConversionError::CorruptedPdf { path, details }) => {
            assert_eq!(path, "/docs/bad.pdf");
            assert!(!details.is_empty());
        }
        other => panic!("expected CorruptedPdf, got {:?}", other.map(|r| r.content)),
    }
    let kept = ConversionError::FileNotFound("/elsewhere.pdf".to_string());
    match converter.finish_conversion(&path, Err(kept), &started) {
        Err(ConversionError::FileNotFound(p)) => assert_eq!(p, "/elsewhere.pdf"),
        _ => panic!("expected FileNotFound"),
    }
    match converter.finish_conversion(&path, Err(ConversionError::extraction_panicked()), &started) {
        Err(ConversionError::CorruptedPdf { path, details }) => {
            assert_eq!(path, "/docs/bad.pdf");
            assert_eq!(details, "PDF extraction panicked unexpectedly");
        }
        _ => panic!("expected CorruptedPdf"),
    }
}

#[test]
fn finished_conversion_renders_the_pages() {
    let converter = PdfConverter::new();
    let path = "/docs/good.pdf".to_string();
    let pages = vec!["INTRODUCTION\n\nfirst body.".to_string(), "second body.".to_string()];
    let expected = converter.format_as_markdown(pages.clone());
    let result = converter
        .finish_conversion(&path, Ok(pages), &Instant::now())
        .unwrap();
    assert_eq!(result.page_count, 2);
    assert_eq!(result.content, expected);
    assert_eq!(result.content, "# INTRODUCTION\n\nfirst body.\n\n---\n\nsecond body.\n");
    assert!(result.conversion_time_ms < 10_000);
}

#[test]
fn read_failures_become_file_errors() {
    assert!(matches!(
        ConversionError::from_read_failure("/a.pdf".to_string(), ReadFailure::NotFound),
        ConversionError::FileNotFound(ref p) if p == "/a.pdf"
    ));
    assert!(matches!(
        ConversionError::from_read_failure("/a.pdf".to_string(), ReadFailure::PermissionDenied),
        ConversionError::FileNotReadable(ref p) if p == "/a.pdf"
    ));
    assert!(matches!(
        ConversionError::from_read_failure("/a.pdf".to_string(), ReadFailure::Other("Is a directory".to_string())),
        ConversionError::FileNotReadable(ref p) if p == "/a.pdf: Is a directory"
    ));
}

#[test]
fn special_errors() {
    assert!(matches!(
        ConversionError::extraction_panicked(),
        ConversionError::CorruptedPdf { ref path, ref details } if path.is_empty() && details == "PDF extraction panicked unexpectedly"
    ));
    assert!(matches!(
        ConversionError::task_failed("/p.pdf".to_string(), "cancelled"),
        ConversionError::CorruptedPdf { ref path, ref details } if path == "/p.pdf" && details == "Task join error: cancelled"
    ));
    assert!(matches!(
        ConversionError::timed_out("/p.pdf".to_string()),
        ConversionError::ConversionTimeout { ref path, timeout_secs: 10 } if path == "/p.pdf"
    ));
    assert_eq!(CONVERSION_TIMEOUT_SECS, 10);
}

#[test]
fn with_path_keeps_existing_paths() {
    let err = ConversionError::EmptyPdf("/first.pdf".to_string()).with_path("/second.pdf".to_string());
    assert!(matches!(err, ConversionError::EmptyPdf(ref p) if p == "/first.pdf"));
    let err = ConversionError::FileNotFound(String::new()).with_path("/x.pdf".to_string());
    assert!(matches!(err, ConversionError::FileNotFound(ref p) if p.is_empty()));
}

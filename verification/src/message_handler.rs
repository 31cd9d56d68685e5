//! The Markdown reports shown in place of a document that could not be converted.
use vstd::prelude::*;
use crate::pdf_converter::{ConversionError, ErrorView, string_from, push_decimal};
use crate::pdf_converter;
use crate::text;

verus! {

broadcast use vstd::string::group_string_axioms;

/// Formats the messages that the server sends about documents.
pub struct MessageHandler {}

/// How a document path is shown: the path, or a placeholder when it is empty.
pub open spec fn shown_path(p: Seq<char>) -> Seq<char> {
    if p.len() == 0 {
        "(PDF file)"@
    } else {
        p
    }
}

/// A report: a title heading, the file, the reason and a suggestion.
pub open spec fn report(title: Seq<char>, file: Seq<char>, reason: Seq<char>, advice: Seq<char>) -> Seq<
    char,
> {
    "# Error: "@ + title + "\n\n**File**: "@ + file + "\n\n**Reason**: "@ + reason + "\n\n"@ + advice
}

/// The Markdown report for an error.
pub open spec fn error_report(e: ErrorView) -> Seq<char> {
    match e {
        ErrorView::FileNotFound(p) => report(
            "File Not Found"@,
            p,
            "The specified PDF file does not exist at the given path."@,
            "Please check that the file path is correct and the file exists."@,
        ),
        ErrorView::FileNotReadable(p) => report(
            "File Not Readable"@,
            p,
            "The PDF file exists but cannot be read due to permission issues or I/O errors."@,
            "Please check file permissions and ensure the file is not locked by another process."@,
        ),
        ErrorView::CorruptedPdf { path, details } => report(
            "Corrupted PDF"@,
            shown_path(path),
            "The PDF file structure is invalid or corrupted. Details: "@ + details,
            "Please try opening the PDF in another application to verify its integrity, or obtain a new copy of the file."@,
        ),
        ErrorView::EncryptedPdf(p) => report(
            "Encrypted PDF"@,
            shown_path(p),
            "The PDF file is encrypted and requires a password."@,
            "Please decrypt the PDF file before opening it in Zed, or use a PDF reader that supports password-protected files."@,
        ),
        ErrorView::EmptyPdf(p) => report(
            "Empty PDF"@,
            shown_path(p),
            "The PDF contains no extractable text content. It may be an image-only PDF or a scanned document."@,
            "Consider using OCR (Optical Character Recognition) software to extract text from image-based PDFs."@,
        ),
        ErrorView::MemoryLimitExceeded(p) => report(
            "Memory Limit Exceeded"@,
            shown_path(p),
            "The PDF conversion process exceeded the memory limit (500MB)."@,
            "This PDF may be too large or complex to process. Try opening a smaller PDF file, or consider splitting the PDF into smaller parts."@,
        ),
        ErrorView::ConversionTimeout { path, timeout_secs } => report(
            "Conversion Timed Out"@,
            shown_path(path),
            "The PDF conversion did not complete within "@ + pdf_converter::decimal(
                timeout_secs as nat,
            ) + " seconds."@,
            "The PDF may be too large or complex. Try opening a smaller PDF file, or consider splitting the PDF into smaller parts."@,
        ),
    }
}

/// The path an error is about.
pub open spec fn error_path(e: ErrorView) -> Seq<char> {
    match e {
        ErrorView::FileNotFound(p) => p,
        ErrorView::FileNotReadable(p) => p,
        ErrorView::CorruptedPdf { path, .. } => path,
        ErrorView::EncryptedPdf(p) => p,
        ErrorView::EmptyPdf(p) => p,
        ErrorView::MemoryLimitExceeded(p) => p,
        ErrorView::ConversionTimeout { path, .. } => path,
    }
}

/// The reason line of the report of an error.
pub open spec fn error_reason(e: ErrorView) -> Seq<char> {
    match e {
        ErrorView::FileNotFound(_) => "The specified PDF file does not exist at the given path."@,
        ErrorView::FileNotReadable(_) =>
            "The PDF file exists but cannot be read due to permission issues or I/O errors."@,
        ErrorView::CorruptedPdf { details, .. } =>
            "The PDF file structure is invalid or corrupted. Details: "@ + details,
        ErrorView::EncryptedPdf(_) => "The PDF file is encrypted and requires a password."@,
        ErrorView::EmptyPdf(_) =>
            "The PDF contains no extractable text content. It may be an image-only PDF or a scanned document."@,
        ErrorView::MemoryLimitExceeded(_) =>
            "The PDF conversion process exceeded the memory limit (500MB)."@,
        ErrorView::ConversionTimeout { timeout_secs, .. } =>
            "The PDF conversion did not complete within "@ + pdf_converter::decimal(
                timeout_secs as nat,
            ) + " seconds."@,
    }
}

/// The file line of the report of an error: the path, or a placeholder for an
/// empty path (except for the two file errors, which show the path as it is).
pub open spec fn error_file(e: ErrorView) -> Seq<char> {
    match e {
        ErrorView::FileNotFound(p) => p,
        ErrorView::FileNotReadable(p) => p,
        _ => shown_path(error_path(e)),
    }
}

/// Error reports are Markdown with a fixed shape: every report starts with the
/// heading `# Error:`, names the file after `**File**: ` (the document path
/// whenever it is not empty) and gives the reason after `**Reason**: `, which
/// carries the details of a corrupted document and the time limit of a
/// conversion that timed out.
pub proof fn lemma_report_shape(e: ErrorView)
    ensures
        text::has_prefix(error_report(e), "# Error:"@),
        text::contains_seq(error_report(e), "**File**: "@ + error_file(e)),
        text::contains_seq(error_report(e), "**Reason**: "@ + error_reason(e)),
        error_path(e).len() > 0 ==> text::contains_seq(error_report(e), error_path(e)),
        e matches ErrorView::CorruptedPdf { details, .. } ==> text::contains_seq(
            error_report(e),
            details,
        ),
        e matches ErrorView::ConversionTimeout { timeout_secs, .. } ==> text::contains_seq(
            error_report(e),
            pdf_converter::decimal(timeout_secs as nat) + " seconds"@,
        ),
{
    reveal_strlit("# Error:");
    reveal_strlit("\n\n");
    reveal_strlit("# Error: ");
    reveal_strlit("\n\n**File**: ");
    reveal_strlit("**File**: ");
    reveal_strlit("\n\n**Reason**: ");
    reveal_strlit("**Reason**: ");
    reveal_strlit(" seconds.");
    reveal_strlit(" seconds");
    reveal_strlit("The PDF conversion did not complete within ");
    reveal_strlit("The PDF file structure is invalid or corrupted. Details: ");
    let title = match e {
        ErrorView::FileNotFound(_) => "File Not Found"@,
        ErrorView::FileNotReadable(_) => "File Not Readable"@,
        ErrorView::CorruptedPdf { .. } => "Corrupted PDF"@,
        ErrorView::EncryptedPdf(_) => "Encrypted PDF"@,
        ErrorView::EmptyPdf(_) => "Empty PDF"@,
        ErrorView::MemoryLimitExceeded(_) => "Memory Limit Exceeded"@,
        ErrorView::ConversionTimeout { .. } => "Conversion Timed Out"@,
    };
    let advice = match e {
        ErrorView::FileNotFound(_) => "Please check that the file path is correct and the file exists."@,
        ErrorView::FileNotReadable(_) =>
            "Please check file permissions and ensure the file is not locked by another process."@,
        ErrorView::CorruptedPdf { .. } =>
            "Please try opening the PDF in another application to verify its integrity, or obtain a new copy of the file."@,
        ErrorView::EncryptedPdf(_) =>
            "Please decrypt the PDF file before opening it in Zed, or use a PDF reader that supports password-protected files."@,
        ErrorView::EmptyPdf(_) =>
            "Consider using OCR (Optical Character Recognition) software to extract text from image-based PDFs."@,
        ErrorView::MemoryLimitExceeded(_) =>
            "This PDF may be too large or complex to process. Try opening a smaller PDF file, or consider splitting the PDF into smaller parts."@,
        ErrorView::ConversionTimeout { .. } =>
            "The PDF may be too large or complex. Try opening a smaller PDF file, or consider splitting the PDF into smaller parts."@,
    };
    let file = error_file(e);
    let reason = error_reason(e);
    let out = error_report(e);
    assert(out == report(title, file, reason, advice));
    let head = "# Error: "@ + title + "\n\n"@;
    let file_line = "**File**: "@ + file;
    let mid = "\n\n"@ + "**Reason**: "@;
    let reason_line = "**Reason**: "@ + reason;
    assert(out == head + file_line + mid + reason + "\n\n"@ + advice);
    // the heading
    assert(out.subrange(0, 8) == "# Error:"@);
    // the file line
    let fi = head.len() as int;
    assert(out.subrange(fi, fi + file_line.len()) == file_line);
    assert(text::occurs_at(out, file_line, fi));
    // the reason line
    let ri = (head.len() + file_line.len() + 2) as int;
    assert(out.subrange(ri, ri + reason_line.len()) == reason_line);
    assert(text::occurs_at(out, reason_line, ri));
    // the path
    if error_path(e).len() > 0 {
        let pi = fi + 10;
        assert(file == error_path(e));
        assert(out.subrange(pi, pi + file.len()) == file);
        assert(text::occurs_at(out, error_path(e), pi));
    }
    // the details and the time limit
    match e {
        ErrorView::CorruptedPdf { details, .. } => {
            let di = (ri + reason_line.len() - details.len()) as int;
            assert(out.subrange(di, di + details.len()) == details);
            assert(text::occurs_at(out, details, di));
        },
        ErrorView::ConversionTimeout { timeout_secs, .. } => {
            let d = pdf_converter::decimal(timeout_secs as nat) + " seconds"@;
            let di = (ri + 12 + 43) as int;
            assert(out.subrange(di, di + d.len()) == d);
            assert(text::occurs_at(out, d, di));
        },
        _ => {},
    }
}

/// Appends `"# Error: " + title + "\n\n**File**: "` to `s`.
fn open_report(s: &mut String, title: &str)
    ensures
        final(s)@ == old(s)@ + "# Error: "@ + title@ + "\n\n**File**: "@,
{
    s.append("# Error: ");
    s.append(title);
    s.append("\n\n**File**: ");
}

/// The path as shown in a report.
fn shown(path: String) -> (r: String)
    ensures
        r@ == shown_path(path@),
{
    if path.as_str().is_empty() {
        string_from("(PDF file)")
    } else {
        path
    }
}

impl Default for MessageHandler {
    fn default() -> (h: Self)
        ensures
            h == (MessageHandler {  }),
    {
        Self::new()
    }
}

impl MessageHandler {
    pub fn new() -> (h: Self)
        ensures
            h == (MessageHandler {  }),
    {
        MessageHandler {  }
    }

    /// The Markdown report shown for a conversion error: a heading naming the
    /// error, the file, the reason and a suggestion.
    pub fn format_error_response(&self, error: ConversionError) -> (r: String)
        ensures
            r@ == error_report(error@),
    {
        let mut s = String::new();
        match error {
            ConversionError::FileNotFound(path) => {
                open_report(&mut s, "File Not Found");
                s.append(path.as_str());
                s.append("\n\n**Reason**: ");
                s.append("The specified PDF file does not exist at the given path.");
                s.append("\n\n");
                s.append("Please check that the file path is correct and the file exists.");
            },
            ConversionError::FileNotReadable(path) => {
                open_report(&mut s, "File Not Readable");
                s.append(path.as_str());
                s.append("\n\n**Reason**: ");
                s.append(
                    "The PDF file exists but cannot be read due to permission issues or I/O errors.",
                );
                s.append("\n\n");
                s.append(
                    "Please check file permissions and ensure the file is not locked by another process.",
                );
            },
            ConversionError::CorruptedPdf { path, details } => {
                let file = shown(path);
                open_report(&mut s, "Corrupted PDF");
                s.append(file.as_str());
                s.append("\n\n**Reason**: ");
                s.append("The PDF file structure is invalid or corrupted. Details: ");
                s.append(details.as_str());
                s.append("\n\n");
                s.append(
                    "Please try opening the PDF in another application to verify its integrity, or obtain a new copy of the file.",
                );
            },
            ConversionError::EncryptedPdf(path) => {
                let file = shown(path);
                open_report(&mut s, "Encrypted PDF");
                s.append(file.as_str());
                s.append("\n\n**Reason**: ");
                s.append("The PDF file is encrypted and requires a password.");
                s.append("\n\n");
                s.append(
                    "Please decrypt the PDF file before opening it in Zed, or use a PDF reader that supports password-protected files.",
                );
            },
            ConversionError::EmptyPdf(path) => {
                let file = shown(path);
                open_report(&mut s, "Empty PDF");
                s.append(file.as_str());
                s.append("\n\n**Reason**: ");
                s.append(
                    "The PDF contains no extractable text content. It may be an image-only PDF or a scanned document.",
                );
                s.append("\n\n");
                s.append(
                    "Consider using OCR (Optical Character Recognition) software to extract text from image-based PDFs.",
                );
            },
            ConversionError::MemoryLimitExceeded(path) => {
                let file = shown(path);
                open_report(&mut s, "Memory Limit Exceeded");
                s.append(file.as_str());
                s.append("\n\n**Reason**: ");
                s.append("The PDF conversion process exceeded the memory limit (500MB).");
                s.append("\n\n");
                s.append(
                    "This PDF may be too large or complex to process. Try opening a smaller PDF file, or consider splitting the PDF into smaller parts.",
                );
            },
            ConversionError::ConversionTimeout { path, timeout_secs } => {
                let file = shown(path);
                open_report(&mut s, "Conversion Timed Out");
                s.append(file.as_str());
                s.append("\n\n**Reason**: ");
                s.append("The PDF conversion did not complete within ");
                push_decimal(&mut s, timeout_secs);
                s.append(" seconds.");
                s.append("\n\n");
                s.append(
                    "The PDF may be too large or complex. Try opening a smaller PDF file, or consider splitting the PDF into smaller parts.",
                );
            },
        }
        s
    }
}

} // verus!

//! Conversion of PDF documents into Markdown.
use vstd::prelude::*;
use crate::layout;
use crate::text;
use std::time::{Duration, Instant};

verus! {

broadcast use vstd::string::group_string_axioms;

/// Why a conversion failed.
#[derive(Debug)]
pub enum ConversionError {
    FileNotFound(String),
    FileNotReadable(String),
    CorruptedPdf { path: String, details: String },
    EncryptedPdf(String),
    EmptyPdf(String),
    MemoryLimitExceeded(String),
    ConversionTimeout { path: String, timeout_secs: u64 },
}

/// A `ConversionError` with its strings seen as character sequences.
pub enum ErrorView {
    FileNotFound(Seq<char>),
    FileNotReadable(Seq<char>),
    CorruptedPdf { path: Seq<char>, details: Seq<char> },
    EncryptedPdf(Seq<char>),
    EmptyPdf(Seq<char>),
    MemoryLimitExceeded(Seq<char>),
    ConversionTimeout { path: Seq<char>, timeout_secs: u64 },
}

impl View for ConversionError {
    type V = ErrorView;

    open spec fn view(&self) -> ErrorView {
        match self {
            ConversionError::FileNotFound(p) => ErrorView::FileNotFound(p@),
            ConversionError::FileNotReadable(p) => ErrorView::FileNotReadable(p@),
            ConversionError::CorruptedPdf { path, details } => ErrorView::CorruptedPdf {
                path: path@,
                details: details@,
            },
            ConversionError::EncryptedPdf(p) => ErrorView::EncryptedPdf(p@),
            ConversionError::EmptyPdf(p) => ErrorView::EmptyPdf(p@),
            ConversionError::MemoryLimitExceeded(p) => ErrorView::MemoryLimitExceeded(p@),
            ConversionError::ConversionTimeout { path, timeout_secs } =>
                ErrorView::ConversionTimeout { path: path@, timeout_secs: *timeout_secs },
        }
    }
}

/// An error with `path` filled in where the error was made without one:
/// only the corrupted, encrypted and empty kinds with an empty path change.
pub open spec fn with_path_view(e: ErrorView, path: Seq<char>) -> ErrorView {
    match e {
        ErrorView::CorruptedPdf { path: p, details } => if p.len() == 0 {
            ErrorView::CorruptedPdf { path, details }
        } else {
            e
        },
        ErrorView::EncryptedPdf(p) => if p.len() == 0 {
            ErrorView::EncryptedPdf(path)
        } else {
            e
        },
        ErrorView::EmptyPdf(p) => if p.len() == 0 {
            ErrorView::EmptyPdf(path)
        } else {
            e
        },
        _ => e,
    }
}

/// The decimal digit `d` (for `d < 10`).
pub open spec fn digit_char(d: nat) -> char {
    if d == 0 {
        '0'
    } else if d == 1 {
        '1'
    } else if d == 2 {
        '2'
    } else if d == 3 {
        '3'
    } else if d == 4 {
        '4'
    } else if d == 5 {
        '5'
    } else if d == 6 {
        '6'
    } else if d == 7 {
        '7'
    } else if d == 8 {
        '8'
    } else {
        '9'
    }
}

/// The decimal notation of `n`, without leading zeros.
pub open spec fn decimal(n: nat) -> Seq<char>
    decreases n,
{
    if n < 10 {
        seq![digit_char(n)]
    } else {
        decimal(n / 10).push(digit_char(n % 10))
    }
}

/// The one-line description of an error.
pub open spec fn error_message(e: ErrorView) -> Seq<char> {
    match e {
        ErrorView::FileNotFound(p) => "File not found: "@ + p,
        ErrorView::FileNotReadable(p) => "File not readable: "@ + p,
        ErrorView::CorruptedPdf { path, details } => "Corrupted PDF ("@ + path + "): "@ + details,
        ErrorView::EncryptedPdf(p) => "PDF is encrypted and requires a password: "@ + p,
        ErrorView::EmptyPdf(p) => "PDF contains no extractable text: "@ + p,
        ErrorView::MemoryLimitExceeded(p) => "Memory limit exceeded during conversion: "@ + p,
        ErrorView::ConversionTimeout { path, timeout_secs } => "Conversion timed out after "@
            + decimal(timeout_secs as nat) + " seconds: "@ + path,
    }
}

/// How reading a document from disk failed.
pub enum ReadFailure {
    NotFound,
    PermissionDenied,
    /// Any other failure, with the description of the I/O error.
    Other(String),
}

/// The error reported when reading `path` failed as `failure` says.
pub open spec fn read_error_view(path: Seq<char>, failure: ReadFailure) -> ErrorView {
    match failure {
        ReadFailure::NotFound => ErrorView::FileNotFound(path),
        ReadFailure::PermissionDenied => ErrorView::FileNotReadable(path),
        ReadFailure::Other(m) => ErrorView::FileNotReadable(path + ": "@ + m@),
    }
}

/// A document of `size` bytes is too large for a limit of `limit_mb` MiB.
pub open spec fn exceeds_memory_limit(size: nat, limit_mb: nat) -> bool {
    size / (1024 * 1024) >= limit_mb
}

/// What came of running the text extractor on a document.
pub enum Extraction {
    /// The extractor returned the text of the document.
    Text(String),
    /// The extractor returned an error, described by this message.
    Failed(String),
    /// The extractor panicked.
    Panicked,
}

/// The pages of a document, or the error reported, for each outcome of the
/// extractor: a panic is reported as a corrupted document.
pub open spec fn extracted_pages(e: Extraction) -> Result<Seq<Seq<char>>, ErrorView> {
    match e {
        Extraction::Text(t) => extraction_outcome(Ok(t@)),
        Extraction::Failed(m) => extraction_outcome(Err(m@)),
        Extraction::Panicked => Err(
            ErrorView::CorruptedPdf {
                path: Seq::empty(),
                details: "PDF extraction panicked unexpectedly"@,
            },
        ),
    }
}

pub open spec fn text_result_view(r: Result<String, String>) -> Result<Seq<char>, Seq<char>> {
    match r {
        Ok(t) => Ok(t@),
        Err(m) => Err(m@),
    }
}

pub open spec fn pages_view(r: Result<Vec<String>, ConversionError>) -> Result<
    Seq<Seq<char>>,
    ErrorView,
> {
    match r {
        Ok(v) => Ok(v@.map_values(|p: String| p@)),
        Err(e) => Err(e@),
    }
}

/// The trimmed pieces of `pieces` that are not empty, in order.
pub open spec fn kept_pages(pieces: Seq<Seq<char>>) -> Seq<Seq<char>>
    decreases pieces.len(),
{
    if pieces.len() == 0 {
        Seq::empty()
    } else {
        let prev = kept_pages(pieces.drop_last());
        let t = text::trim(pieces.last());
        if t.len() > 0 {
            prev.push(t)
        } else {
            prev
        }
    }
}

/// The error reported for an extractor failure described by `msg`.
pub open spec fn extraction_failure(msg: Seq<char>) -> ErrorView {
    if text::contains_seq(msg, "encrypt"@) || text::contains_seq(msg, "password"@) {
        ErrorView::EncryptedPdf(Seq::empty())
    } else if text::contains_seq(msg, "Invalid"@) || text::contains_seq(msg, "corrupt"@) {
        ErrorView::CorruptedPdf { path: Seq::empty(), details: msg }
    } else {
        ErrorView::CorruptedPdf { path: Seq::empty(), details: "Failed to extract text: "@ + msg }
    }
}

/// The pages of a document from what the extractor returned: an error is
/// classified, blank text is an empty document, and the text is split at form
/// feeds into trimmed, non-empty pages (the whole trimmed text when there is none).
pub open spec fn extraction_outcome(r: Result<Seq<char>, Seq<char>>) -> Result<
    Seq<Seq<char>>,
    ErrorView,
> {
    match r {
        Err(msg) => Err(extraction_failure(msg)),
        Ok(t) => if text::trim(t).len() == 0 {
            Err(ErrorView::EmptyPdf(Seq::empty()))
        } else {
            let pages = kept_pages(text::split_on(t, '\x0C'));
            if pages.len() == 0 {
                Ok(seq![text::trim(t)])
            } else {
                Ok(pages)
            }
        },
    }
}

/// The pages of a document, with `path` added to an error that lacks one.
pub open spec fn with_path_on_error(
    r: Result<Seq<Seq<char>>, ErrorView>,
    path: Seq<char>,
) -> Result<Seq<Seq<char>>, ErrorView> {
    match r {
        Ok(ps) => Ok(ps),
        Err(e) => Err(with_path_view(e, path)),
    }
}

/// Calls `Instant::elapsed`. It reads the clock, so nothing is stated of the result.
#[verifier::external_body]
fn elapsed(start: &Instant) -> Duration {
    start.elapsed()
}

/// Calls `Duration::as_millis`, truncated to 64 bits. Nothing is stated of the
/// result: `Duration` is opaque here.
#[verifier::external_body]
fn whole_millis(d: &Duration) -> u64 {
    d.as_millis() as u64
}

// ---------------------------------------------------------------------------
// Laws of the conversion
// ---------------------------------------------------------------------------

/// Memory limit: a document is refused exactly when it holds at least as many
/// bytes as the limit allows MiB.
pub proof fn lemma_memory_limit(size: nat, limit_mb: nat)
    ensures
        exceeds_memory_limit(size, limit_mb) <==> size >= limit_mb * 1048576,
{
    assert(size / 1048576 >= limit_mb <==> size >= limit_mb * 1048576) by (nonlinear_arith);
}

/// Path context is added once: an error that already names a path keeps it,
/// and adding a path twice is adding it once.
pub proof fn lemma_with_path(e: ErrorView, p: Seq<char>, q: Seq<char>)
    ensures
        p.len() > 0 ==> with_path_view(with_path_view(e, p), q) == with_path_view(e, p),
        with_path_view(with_path_view(e, p), p) == with_path_view(e, p),
        (e matches ErrorView::FileNotFound(_)) ==> with_path_view(e, p) == e,
        (e matches ErrorView::FileNotReadable(_)) ==> with_path_view(e, p) == e,
        (e matches ErrorView::MemoryLimitExceeded(_)) ==> with_path_view(e, p) == e,
        (e matches ErrorView::ConversionTimeout { .. }) ==> with_path_view(e, p) == e,
{
}

/// Every page kept from the extracted text is trimmed and not empty.
proof fn lemma_kept_pages(pieces: Seq<Seq<char>>)
    ensures
        forall|k: int|
            0 <= k < kept_pages(pieces).len() ==> (#[trigger] kept_pages(pieces)[k]).len() > 0
                && text::trim(kept_pages(pieces)[k]) == kept_pages(pieces)[k],
    decreases pieces.len(),
{
    if pieces.len() > 0 {
        let prev = kept_pages(pieces.drop_last());
        lemma_kept_pages(pieces.drop_last());
        text::lemma_trim_idempotent(pieces.last());
        assert forall|k: int| 0 <= k < kept_pages(pieces).len() implies (#[trigger] kept_pages(
            pieces,
        )[k]).len() > 0 && text::trim(kept_pages(pieces)[k]) == kept_pages(pieces)[k] by {
            if k < prev.len() {
                assert(kept_pages(pieces)[k] == prev[k]);
            }
        }
    }
}

/// The pages of an extracted document: there is at least one, and each is
/// non-empty and without surrounding whitespace.
pub proof fn lemma_extracted_pages(r: Result<Seq<char>, Seq<char>>)
    ensures
        extraction_outcome(r) matches Ok(pages) ==> {
            &&& pages.len() >= 1
            &&& forall|k: int|
                0 <= k < pages.len() ==> (#[trigger] pages[k]).len() > 0 && text::trim(pages[k])
                    == pages[k]
        },
{
    if let Ok(t) = r {
        lemma_kept_pages(text::split_on(t, '\x0C'));
        text::lemma_trim_idempotent(t);
    }
}

/// A non-blank piece of `pieces` is kept, trimmed.
proof fn lemma_kept_pages_keep(pieces: Seq<Seq<char>>, i: int)
    requires
        0 <= i < pieces.len(),
        text::trim(pieces[i]).len() > 0,
    ensures
        kept_pages(pieces).contains(text::trim(pieces[i])),
    decreases pieces.len(),
{
    let prev = kept_pages(pieces.drop_last());
    if i < pieces.len() - 1 {
        assert(pieces.drop_last()[i] == pieces[i]);
        lemma_kept_pages_keep(pieces.drop_last(), i);
        let k = choose|k: int| 0 <= k < prev.len() && prev[k] == text::trim(pieces[i]);
        assert(kept_pages(pieces)[k] == prev[k]);
    } else {
        assert(kept_pages(pieces) == prev.push(text::trim(pieces.last())));
        assert(kept_pages(pieces)[prev.len() as int] == text::trim(pieces[i]));
    }
}

/// Extracted text is refused as empty exactly when all of it is blank: then the
/// error is `EmptyPdf`, and otherwise there are pages, among which the trimmed
/// text of every form-feed separated piece that is not blank appears (a blank
/// first page does not hide the pages after it).
pub proof fn lemma_extracted_text_pages(t: Seq<char>)
    ensures
        (extraction_outcome(Ok(t)) matches Err(ErrorView::EmptyPdf(_))) <==> text::trim(t).len()
            == 0,
        extraction_outcome(Ok(t)) is Ok <==> text::trim(t).len() > 0,
        forall|i: int|
            0 <= i < text::split_on(t, '\x0C').len() && text::trim(t).len() > 0 && text::trim(
                #[trigger] text::split_on(t, '\x0C')[i],
            ).len() > 0 ==> (extraction_outcome(Ok(t)) matches Ok(pages) && pages.contains(
                text::trim(text::split_on(t, '\x0C')[i]),
            )),
{
    let pieces = text::split_on(t, '\x0C');
    assert forall|i: int|
        0 <= i < pieces.len() && text::trim(t).len() > 0 && text::trim(
            #[trigger] pieces[i],
        ).len() > 0 implies (extraction_outcome(Ok(t)) matches Ok(pages) && pages.contains(
        text::trim(pieces[i]),
    )) by {
        lemma_kept_pages_keep(pieces, i);
        assert(kept_pages(pieces).len() > 0);
    }
}

/// A converted document has content: when extraction gives pages, there is at
/// least one, and their rendering is not empty.
pub proof fn lemma_converted_content_not_empty(r: Result<Seq<char>, Seq<char>>)
    ensures
        extraction_outcome(r) matches Ok(pages) ==> pages.len() >= 1 && layout::render_pages(
            pages,
        ).len() > 0,
{
    lemma_extracted_pages(r);
    if let Ok(pages) = extraction_outcome(r) {
        layout::lemma_document_renders_nonempty(pages);
    }
}

/// The number of seconds after which a conversion is abandoned.
pub const CONVERSION_TIMEOUT_SECS: u64 = 10;

/// A string with the characters of `s`.
pub fn string_from(s: &str) -> (r: String)
    ensures
        r@ == s@,
{
    let mut r = String::new();
    r.append(s);
    r
}

/// Appends the decimal notation of `n` to `s`.
pub fn push_decimal(s: &mut String, n: u64)
    ensures
        final(s)@ == old(s)@ + decimal(n as nat),
    decreases n,
{
    if n >= 10 {
        push_decimal(s, n / 10);
    }
    let d = n % 10;
    let c = if d == 0 {
        '0'
    } else if d == 1 {
        '1'
    } else if d == 2 {
        '2'
    } else if d == 3 {
        '3'
    } else if d == 4 {
        '4'
    } else if d == 5 {
        '5'
    } else if d == 6 {
        '6'
    } else if d == 7 {
        '7'
    } else if d == 8 {
        '8'
    } else {
        '9'
    };
    text::push_char(s, c);
}

impl ConversionError {
    /// Adds document path context to an error that was created without one.
    pub fn with_path(self, path: String) -> (r: Self)
        ensures
            r@ == with_path_view(self@, path@),
    {
        match self {
            ConversionError::CorruptedPdf { path: p, details } => {
                if p.as_str().is_empty() {
                    ConversionError::CorruptedPdf { path, details }
                } else {
                    ConversionError::CorruptedPdf { path: p, details }
                }
            },
            ConversionError::EncryptedPdf(p) => {
                if p.as_str().is_empty() {
                    ConversionError::EncryptedPdf(path)
                } else {
                    ConversionError::EncryptedPdf(p)
                }
            },
            ConversionError::EmptyPdf(p) => {
                if p.as_str().is_empty() {
                    ConversionError::EmptyPdf(path)
                } else {
                    ConversionError::EmptyPdf(p)
                }
            },
            other => other,
        }
    }

    /// The one-line description of the error.
    pub fn message(&self) -> (r: String)
        ensures
            r@ == error_message(self@),
    {
        match self {
            ConversionError::FileNotFound(p) => {
                let mut s = string_from("File not found: ");
                s.append(p.as_str());
                s
            },
            ConversionError::FileNotReadable(p) => {
                let mut s = string_from("File not readable: ");
                s.append(p.as_str());
                s
            },
            ConversionError::CorruptedPdf { path, details } => {
                let mut s = string_from("Corrupted PDF (");
                s.append(path.as_str());
                s.append("): ");
                s.append(details.as_str());
                s
            },
            ConversionError::EncryptedPdf(p) => {
                let mut s = string_from("PDF is encrypted and requires a password: ");
                s.append(p.as_str());
                s
            },
            ConversionError::EmptyPdf(p) => {
                let mut s = string_from("PDF contains no extractable text: ");
                s.append(p.as_str());
                s
            },
            ConversionError::MemoryLimitExceeded(p) => {
                let mut s = string_from("Memory limit exceeded during conversion: ");
                s.append(p.as_str());
                s
            },
            ConversionError::ConversionTimeout { path, timeout_secs } => {
                let mut s = string_from("Conversion timed out after ");
                push_decimal(&mut s, *timeout_secs);
                s.append(" seconds: ");
                s.append(path.as_str());
                s
            },
        }
    }

    /// The error for reading `path` that failed as `failure` says.
    pub fn from_read_failure(path: String, failure: ReadFailure) -> (e: Self)
        ensures
            e@ == read_error_view(path@, failure),
    {
        match failure {
            ReadFailure::NotFound => ConversionError::FileNotFound(path),
            ReadFailure::PermissionDenied => ConversionError::FileNotReadable(path),
            ReadFailure::Other(m) => {
                let mut s = path;
                s.append(": ");
                s.append(m.as_str());
                ConversionError::FileNotReadable(s)
            },
        }
    }

    /// The error for an extraction that panicked.
    pub fn extraction_panicked() -> (e: Self)
        ensures
            e@ == (ErrorView::CorruptedPdf {
                path: Seq::empty(),
                details: "PDF extraction panicked unexpectedly"@,
            }),
    {
        ConversionError::CorruptedPdf {
            path: String::new(),
            details: string_from("PDF extraction panicked unexpectedly"),
        }
    }

    /// The error for a background extraction task of `path` that could not be
    /// joined, with the description of the join failure.
    pub fn task_failed(path: String, reason: &str) -> (e: Self)
        ensures
            e@ == (ErrorView::CorruptedPdf { path: path@, details: "Task join error: "@ + reason@ }),
    {
        let mut details = string_from("Task join error: ");
        details.append(reason);
        ConversionError::CorruptedPdf { path, details }
    }

    /// The error for a conversion of `path` that ran out of time.
    pub fn timed_out(path: String) -> (e: Self)
        ensures
            e@ == (ErrorView::ConversionTimeout { path: path@, timeout_secs: CONVERSION_TIMEOUT_SECS }),
    {
        ConversionError::ConversionTimeout { path, timeout_secs: CONVERSION_TIMEOUT_SECS }
    }
}

/// The pages of a document from what the extractor returned (see
/// `extraction_outcome`).
pub fn pages_from_extraction(extracted: Result<String, String>) -> (r: Result<
    Vec<String>,
    ConversionError,
>)
    ensures
        pages_view(r) == extraction_outcome(text_result_view(extracted)),
{
    match extracted {
        Err(msg) => {
            let m = text::chars_of(msg.as_str());
            if text::contains_str(m.as_slice(), "encrypt") || text::contains_str(
                m.as_slice(),
                "password",
            ) {
                Err(ConversionError::EncryptedPdf(String::new()))
            } else if text::contains_str(m.as_slice(), "Invalid") || text::contains_str(
                m.as_slice(),
                "corrupt",
            ) {
                Err(ConversionError::CorruptedPdf { path: String::new(), details: msg })
            } else {
                let mut details = string_from("Failed to extract text: ");
                details.append(msg.as_str());
                Err(ConversionError::CorruptedPdf { path: String::new(), details })
            }
        },
        Ok(pdf) => {
            let chars = text::chars_of(pdf.as_str());
            let trimmed = text::trim_chars(chars.as_slice());
            if trimmed.len() == 0 {
                return Err(ConversionError::EmptyPdf(String::new()));
            }
            let pieces = text::split_chars(chars.as_slice(), '\x0C');
            let ghost pv = pieces@.map_values(|p: Vec<char>| p@);
            let mut pages: Vec<String> = Vec::new();
            let mut i: usize = 0;
            while i < pieces.len()
                invariant
                    i <= pieces.len(),
                    pv == pieces@.map_values(|p: Vec<char>| p@),
                    pages@.map_values(|p: String| p@) == kept_pages(pv.subrange(0, i as int)),
                decreases pieces.len() - i,
            {
                let t = text::trim_chars(pieces[i].as_slice());
                let ghost prefix = pv.subrange(0, i + 1);
                assert(prefix.drop_last() == pv.subrange(0, i as int));
                assert(prefix.last() == pv[i as int]);
                let ghost before = pages@.map_values(|p: String| p@);
                if t.len() > 0 {
                    pages.push(text::string_of(t.as_slice()));
                    assert(pages@.map_values(|p: String| p@) =~= before.push(t@));
                }
                i = i + 1;
            }
            assert(pv.subrange(0, pieces.len() as int) == pv);
            if pages.len() == 0 {
                let mut single: Vec<String> = Vec::new();
                single.push(text::string_of(trimmed.as_slice()));
                assert(single@.map_values(|p: String| p@) =~= seq![trimmed@]);
                Ok(single)
            } else {
                Ok(pages)
            }
        },
    }
}

/// Converts the text of PDF documents into Markdown.
pub struct PdfConverter {
    max_memory_mb: usize,
}

/// The outcome of a successful conversion.
pub struct ConversionResult {
    pub content: String,
    pub page_count: usize,
    pub conversion_time_ms: u64,
}

impl PdfConverter {
    /// The largest document, in MiB, that the converter accepts (exclusive).
    pub closed spec fn memory_limit_mb(&self) -> nat {
        self.max_memory_mb as nat
    }

    /// A converter with the default limit of 500 MiB.
    pub fn new() -> (c: Self)
        ensures
            c.memory_limit_mb() == 500,
    {
        PdfConverter { max_memory_mb: 500 }
    }

    /// A converter with a limit of `max_memory_mb` MiB.
    pub fn with_memory_limit(max_memory_mb: usize) -> (c: Self)
        ensures
            c.memory_limit_mb() == max_memory_mb,
    {
        PdfConverter { max_memory_mb }
    }

    /// The memory limit, in MiB.
    pub fn max_memory_mb(&self) -> (r: usize)
        ensures
            r == self.memory_limit_mb(),
    {
        self.max_memory_mb
    }

    /// Fails when a document of `size` bytes read from `path` exceeds the
    /// memory limit.
    pub fn check_memory_limit(&self, path: &String, size: usize) -> (r: Result<(), ConversionError>)
        ensures
            r is Err <==> exceeds_memory_limit(size as nat, self.memory_limit_mb()),
            r matches Err(e) ==> e@ == ErrorView::MemoryLimitExceeded(path@),
    {
        let file_size_mb = size / (1024 * 1024);
        if file_size_mb >= self.max_memory_mb {
            return Err(ConversionError::MemoryLimitExceeded(path.clone()));
        }
        Ok(())
    }

    /// The text of a PDF document split into pages, from what the extractor
    /// gave for it (see `extracted_pages`).
    pub fn extract_text(&self, extracted: Extraction) -> (r: Result<Vec<String>, ConversionError>)
        ensures
            pages_view(r) == extracted_pages(extracted),
    {
        match extracted {
            Extraction::Text(text) => pages_from_extraction(Ok(text)),
            Extraction::Failed(msg) => pages_from_extraction(Err(msg)),
            Extraction::Panicked => Err(ConversionError::extraction_panicked()),
        }
    }

    /// The outcome of a conversion of the document at `path` begun at `started`,
    /// given the pages extracted from it: the pages rendered as Markdown, with
    /// their number and the time taken; or the extraction error, with `path`
    /// added to it when it lacks one.
    pub fn finish_conversion(
        &self,
        path: &String,
        extracted: Result<Vec<String>, ConversionError>,
        started: &Instant,
    ) -> (r: Result<ConversionResult, ConversionError>)
        ensures
            (match with_path_on_error(pages_view(extracted), path@) {
                Ok(ps) => match r {
                    Ok(c) => c.content@ == layout::render_pages(ps) && c.page_count == ps.len(),
                    Err(_) => false,
                },
                Err(e) => match r {
                    Ok(_) => false,
                    Err(x) => x@ == e,
                },
            }),
    {
        match extracted {
            Ok(pages) => {
                let page_count = pages.len();
                let content = self.format_as_markdown(pages);
                let conversion_time_ms = whole_millis(&elapsed(started));
                Ok(ConversionResult { content, page_count, conversion_time_ms })
            },
            Err(e) => Err(e.with_path(path.clone())),
        }
    }

    /// The headings of a page of text: for each heading line, its index among
    /// the lines of the page and its trimmed text.
    pub fn detect_headings(&self, text: &str) -> (r: Vec<(usize, String)>)
        ensures
            r@.map_values(|e: (usize, String)| (e.0 as int, e.1@)) == layout::detected_headings(
                text@,
            ),
    {
        let chars = text::chars_of(text);
        let ls = text::lines_of(chars.as_slice());
        let ghost lv = ls@.map_values(|l: Vec<char>| l@);
        let mut headings: Vec<(usize, String)> = Vec::new();
        let mut i: usize = 0;
        while i < ls.len()
            invariant
                i <= ls.len(),
                lv == ls@.map_values(|l: Vec<char>| l@),
                lv == text::lines(text@),
                headings@.map_values(|e: (usize, String)| (e.0 as int, e.1@))
                    == layout::heading_entries(lv.subrange(0, i as int)),
            decreases ls.len() - i,
        {
            let t = text::trim_chars(ls[i].as_slice());
            let ghost prefix = lv.subrange(0, i + 1);
            assert(prefix.drop_last() == lv.subrange(0, i as int));
            assert(prefix[i as int] == lv[i as int]);
            let ghost before = headings@.map_values(|e: (usize, String)| (e.0 as int, e.1@));
            if t.len() > 0 && layout::heading_text(t.as_slice()) {
                let s = text::string_of(t.as_slice());
                headings.push((i, s));
                assert(headings@.map_values(|e: (usize, String)| (e.0 as int, e.1@)) =~= before.push(
                    (i as int, t@),
                ));
            }
            i = i + 1;
        }
        assert(lv.subrange(0, ls.len() as int) == lv);
        headings
    }

    /// The Markdown rendering of one page of text.
    pub fn format_page(&self, page_text: &str) -> (r: String)
        ensures
            r@ == layout::render_page(page_text@),
    {
        let mut markdown = String::new();
        let headings = self.detect_headings(page_text);
        let chars = text::chars_of(page_text);
        let ls = text::lines_of(chars.as_slice());
        let ghost lv = ls@.map_values(|l: Vec<char>| l@);
        let ghost hv = headings@.map_values(|e: (usize, String)| (e.0 as int, e.1@));
        proof {
            layout::lemma_heading_entries(lv);
        }
        // Mark the heading lines.
        let n = ls.len();
        let mut heading_lines: Vec<bool> = Vec::new();
        let mut j: usize = 0;
        while j < n
            invariant
                j <= n,
                heading_lines@.len() == j,
                forall|m: int| 0 <= m < j ==> !heading_lines@[m],
            decreases n - j,
        {
            heading_lines.push(false);
            j = j + 1;
        }
        let mut k: usize = 0;
        while k < headings.len()
            invariant
                k <= headings.len(),
                n == ls.len(),
                n == lv.len(),
                lv == text::lines(page_text@),
                hv == headings@.map_values(|e: (usize, String)| (e.0 as int, e.1@)),
                hv == layout::heading_entries(lv),
                heading_lines@.len() == n,
                forall|q: int|
                    0 <= q < hv.len() ==> {
                        let e = #[trigger] hv[q];
                        &&& 0 <= e.0 < lv.len()
                        &&& layout::is_heading_line(lv, e.0)
                        &&& e.1 == text::trim(lv[e.0])
                    },
                forall|m: int|
                    0 <= m < n ==> (heading_lines@[m] <==> exists|q: int|
                        0 <= q < k && #[trigger] hv[q].0 == m),
            decreases headings.len() - k,
        {
            let line_number = headings[k].0;
            assert(hv[k as int].0 == line_number);
            heading_lines.set(line_number, true);
            k = k + 1;
            assert forall|m: int| 0 <= m < n implies (heading_lines@[m] <==> exists|q: int|
                0 <= q < k && #[trigger] hv[q].0 == m) by {
                if m == line_number {
                    assert(hv[k - 1].0 == m);
                }
            }
        }
        assert forall|m: int| 0 <= m < n implies (heading_lines@[m] <==> layout::is_heading_line(
            lv,
            m,
        )) by {
            if heading_lines@[m] {
                let q = choose|q: int| 0 <= q < k && #[trigger] hv[q].0 == m;
                assert(layout::is_heading_line(lv, hv[q].0));
            }
        }
        // Render the lines.
        let mut in_paragraph = false;
        let mut i: usize = 0;
        while i < n
            invariant
                i <= n == ls.len(),
                lv == ls@.map_values(|l: Vec<char>| l@),
                heading_lines@.len() == n,
                forall|m: int|
                    0 <= m < n ==> (heading_lines@[m] <==> layout::is_heading_line(lv, m)),
                (markdown@, in_paragraph) == layout::render_lines(lv.subrange(0, i as int)),
            decreases n - i,
        {
            let ghost prefix = lv.subrange(0, i + 1);
            assert(prefix.drop_last() == lv.subrange(0, i as int));
            assert(prefix[i as int] == lv[i as int]);
            let ghost out0 = markdown@;
            let ghost in0 = in_paragraph;
            let trimmed = text::trim_chars(ls[i].as_slice());
            assert(trimmed@ == text::trim(lv[i as int]));
            let ghost t = trimmed@;
            let ghost closed_s = if in0 {
                out0 + layout::paragraph_break()
            } else {
                out0
            };
            let ghost expected = if t.len() == 0 {
                (closed_s, false)
            } else if layout::is_heading_text(t) {
                (closed_s + layout::heading_marker(t) + t + layout::paragraph_break(), false)
            } else {
                ((if in0 {
                    out0.push(' ')
                } else {
                    out0
                }) + layout::escaped_text(t), true)
            };
            assert(layout::render_lines(prefix) == expected);
            let is_heading = heading_lines[i];
            assert(is_heading == heading_lines@[i as int]);
            assert(is_heading <==> layout::is_heading_line(lv, i as int));
            if trimmed.len() == 0 {
                if in_paragraph {
                    text::push_char(&mut markdown, '\n');
                    text::push_char(&mut markdown, '\n');
                    in_paragraph = false;
                    assert(markdown@ == out0 + layout::paragraph_break());
                }
            } else if is_heading {
                if in_paragraph {
                    text::push_char(&mut markdown, '\n');
                    text::push_char(&mut markdown, '\n');
                    in_paragraph = false;
                }
                let ghost closed = markdown@;
                if layout::major_heading(trimmed.as_slice()) {
                    text::push_char(&mut markdown, '#');
                    text::push_char(&mut markdown, ' ');
                } else {
                    text::push_char(&mut markdown, '#');
                    text::push_char(&mut markdown, '#');
                    text::push_char(&mut markdown, ' ');
                }
                assert(markdown@ == closed + layout::heading_marker(trimmed@));
                text::push_chars(&mut markdown, trimmed.as_slice());
                text::push_char(&mut markdown, '\n');
                text::push_char(&mut markdown, '\n');
                assert(markdown@ == closed + layout::heading_marker(trimmed@) + trimmed@
                    + layout::paragraph_break());
                assert(closed == (if in0 {
                    out0 + layout::paragraph_break()
                } else {
                    out0
                }));
            } else {
                if in_paragraph {
                    text::push_char(&mut markdown, ' ');
                }
                let ghost joined = markdown@;
                if trimmed[0] == '#' {
                    text::push_char(&mut markdown, '\\');
                }
                text::push_chars(&mut markdown, trimmed.as_slice());
                assert(markdown@ == joined + layout::escaped_text(trimmed@));
                assert(joined == (if in0 {
                    out0.push(' ')
                } else {
                    out0
                }));
                in_paragraph = true;
            }
            i = i + 1;
        }
        assert(lv.subrange(0, n as int) == lv);
        if in_paragraph || markdown.as_str().is_empty() {
            text::push_char(&mut markdown, '\n');
        }
        markdown
    }

    /// The Markdown rendering of a document given as the text of its pages:
    /// the pages rendered in order, separated by a horizontal rule.
    pub fn format_as_markdown(&self, pages: Vec<String>) -> (r: String)
        ensures
            r@ == layout::render_pages(pages@.map_values(|p: String| p@)),
    {
        let ghost pv = pages@.map_values(|p: String| p@);
        let mut markdown = String::new();
        let n = pages.len();
        let mut i: usize = 0;
        while i < n
            invariant
                i <= n == pages.len(),
                pv == pages@.map_values(|p: String| p@),
                markdown@ == layout::render_pages(pv.subrange(0, i as int)) + (if 0 < i < n {
                    layout::page_separator()
                } else {
                    Seq::empty()
                }),
            decreases n - i,
        {
            let page_markdown = self.format_page(pages[i].as_str());
            let ghost prefix = pv.subrange(0, i + 1);
            assert(prefix.drop_last() == pv.subrange(0, i as int));
            assert(prefix.last() == pv[i as int]);
            let ghost before = markdown@;
            markdown.append(page_markdown.as_str());
            if i + 1 < n {
                text::push_char(&mut markdown, '\n');
                text::push_char(&mut markdown, '-');
                text::push_char(&mut markdown, '-');
                text::push_char(&mut markdown, '-');
                text::push_char(&mut markdown, '\n');
                text::push_char(&mut markdown, '\n');
                assert(markdown@ == before + page_markdown@ + layout::page_separator());
            }
            i = i + 1;
        }
        assert(pv.subrange(0, n as int) == pv);
        markdown
    }
}

} // verus!

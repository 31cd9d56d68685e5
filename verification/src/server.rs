//! The decisions the language server takes on the requests of the editor.
use vstd::prelude::*;
use crate::document_registry::DocumentRegistry;
use crate::message_handler::MessageHandler;
use crate::message_handler;
use crate::pdf_converter::{ConversionError, ConversionResult, string_from};
use crate::text;

verus! {

broadcast use vstd::string::group_string_axioms;

/// How document changes are sent to the server.
#[derive(PartialEq, Eq, Structural, Debug, Clone, Copy)]
pub enum SyncKind {
    Off,
    Full,
    Incremental,
}

/// What the server answers to `initialize`: its name and version, and how it
/// wants documents synchronised.
pub struct InitializeReply {
    pub name: String,
    pub version: String,
    pub open_close: bool,
    pub change: SyncKind,
}

/// The answer to `initialize`: the server is `zed-pdf-lsp` 0.1.0, it wants to
/// hear of opened and closed documents and of no changes.
pub fn initialize_reply() -> (r: InitializeReply)
    ensures
        r.name@ == "zed-pdf-lsp"@,
        r.version@ == "0.1.0"@,
        r.open_close,
        r.change == SyncKind::Off,
{
    InitializeReply {
        name: string_from("zed-pdf-lsp"),
        version: string_from("0.1.0"),
        open_close: true,
        change: SyncKind::Off,
    }
}

/// The URI names a PDF document.
pub open spec fn is_pdf_uri(uri: Seq<char>) -> bool {
    text::has_suffix(uri, ".pdf"@)
}

/// A document is taken for a PDF document exactly when its URI ends with the
/// four characters ".pdf" (".pdf" elsewhere in the URI does not count).
pub proof fn lemma_pdf_uri_ends_with_pdf(uri: Seq<char>)
    ensures
        is_pdf_uri(uri) <==> (uri.len() >= 4 && uri.subrange(uri.len() - 4, uri.len() as int)
            == seq!['.', 'p', 'd', 'f']),
{
    reveal_strlit(".pdf");
    assert(".pdf"@ == seq!['.', 'p', 'd', 'f']);
}

/// What to do with an opened document.
#[derive(PartialEq, Eq, Structural, Debug, Clone, Copy)]
pub enum OpenDecision {
    /// Not a PDF document: nothing is done.
    Ignore,
    /// A PDF document, now registered: convert it.
    Convert,
}

/// Handles the opening of the document `uri`: a URI that ends in `.pdf` is
/// registered and is to be converted; any other is ignored.
pub fn open_document(registry: &mut DocumentRegistry, uri: &String) -> (d: OpenDecision)
    ensures
        d == OpenDecision::Convert <==> is_pdf_uri(uri@),
        d == OpenDecision::Convert <==> (uri@.len() >= 4 && uri@.subrange(
            uri@.len() - 4,
            uri@.len() as int,
        ) == seq!['.', 'p', 'd', 'f']),
        d == OpenDecision::Convert ==> final(registry)@ == old(registry)@.insert(
            uri@,
            final(registry)@[uri@],
        ) && final(registry)@[uri@].uri == *uri && final(registry)@[uri@].content_hash is None,
        d == OpenDecision::Ignore ==> final(registry)@ == old(registry)@,
{
    let chars = text::chars_of(uri.as_str());
    if !text::ends_with_str(chars.as_slice(), ".pdf") {
        proof {
            lemma_pdf_uri_ends_with_pdf(uri@);
        }
        return OpenDecision::Ignore;
    }
    let _ = registry.register(uri.clone());
    proof {
        lemma_pdf_uri_ends_with_pdf(uri@);
    }
    OpenDecision::Convert
}

/// Handles the closing of the document `uri`: it is no longer registered.
pub fn close_document(registry: &mut DocumentRegistry, uri: &String)
    ensures
        final(registry)@ == old(registry)@.remove(uri@),
{
    let _ = registry.unregister(uri);
}

/// The report shown when the URI of an opened document names no file path.
pub open spec fn invalid_uri_report(uri: Seq<char>) -> Seq<char> {
    "# Error: Invalid URI\n\n**File**: "@ + uri + "\n\n**Reason**: Could not convert URI to a valid file path."@
}

/// The report shown when the URI of an opened document names no file path.
pub fn invalid_uri_message(uri: &String) -> (r: String)
    ensures
        r@ == invalid_uri_report(uri@),
{
    let mut s = string_from("# Error: Invalid URI\n\n**File**: ");
    s.append(uri.as_str());
    s.append("\n\n**Reason**: Could not convert URI to a valid file path.");
    s
}

/// The severity of a message shown to the user.
#[derive(PartialEq, Eq, Structural, Debug, Clone, Copy)]
pub enum MessageLevel {
    Info,
    Error,
}

/// A message for the editor.
pub struct ClientMessage {
    pub level: MessageLevel,
    pub text: String,
}

/// The message that shows the outcome of converting an opened document: the
/// Markdown of the document, or the report of the error.
pub fn conversion_message(
    handler: &MessageHandler,
    outcome: Result<ConversionResult, ConversionError>,
) -> (m: ClientMessage)
    ensures
        outcome matches Ok(r) ==> m.level == MessageLevel::Info && m.text@ == r.content@,
        outcome matches Err(e) ==> m.level == MessageLevel::Error && m.text@
            == message_handler::error_report(e@),
{
    match outcome {
        Ok(result) => ClientMessage { level: MessageLevel::Info, text: result.content },
        Err(e) => ClientMessage { level: MessageLevel::Error, text: handler.format_error_response(e) },
    }
}

} // verus!

//! A language server core that turns the text of PDF documents into Markdown.
//!
//! The verified library holds the text layout rules (line splitting, trimming,
//! heading detection, page formatting), the error reports, the registry of open
//! documents and the decisions the server takes on each request.

pub mod text;
pub mod layout;
pub mod pdf_converter;
pub mod message_handler;
pub mod document_registry;
pub mod server;

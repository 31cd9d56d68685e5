# zed_pdf_lsp

A language server that lets the Zed editor show PDF documents as Markdown.
When a `.pdf` document is opened, the server extracts its text (with
`pdf-extract`), lays it out as Markdown and sends it to the editor.

The library in `src/` is verified with Verus:

- `text` — character-level operations with specifications: trimming, line
  splitting (`str::lines`), splitting at a character (`str::split`), prefix,
  suffix and substring search, UTF-8 byte length.
- `layout` — what the Markdown rendering is: heading detection, page
  rendering, joining of pages, and the laws of the rendering (headings are
  rendered with their marker, paragraph breaks are kept, no page renders to
  nothing, the output is well formed line by line).
- `pdf_converter` — the converter: the pages of a document from what the text
  extractor gave (its text, its error, or a panic), the memory limit, errors
  and their descriptions.
- `message_handler` — the Markdown error reports.
- `document_registry` — the registry of open documents, viewed as a map from
  URI to document state.
- `server` — the decisions the server takes on `initialize`, on opening and on
  closing a document, and the messages it sends.

`app/` is the program: tower-lsp plumbing, reading files, the timeout, running
`pdf-extract` on a blocking thread with its panics caught, and logging.

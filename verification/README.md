# docx-comment-json

Extracts the Word comments of a `.docx` file into a JSON document that is easy for later
tools to process: comment text, author and date, the commented passage with its heading
path and surrounding context, image and table anchors with nearby captions, reply threads
and done states from `commentsExtended.xml`, and diagnostics for missing parts or broken
XML.

The library is written in Verus, and its behaviour is stated in contracts and proved.

## Layout

- `src/` – the verified library
  - `xml.rs` – a plain model of a parsed XML tree (nodes in document order) and the queries
    on it; the one call into `roxmltree` turns a text into that model.
  - `text.rs`, `sorted_map.rs` – character helpers and text-keyed maps kept in key order.
  - `parse.rs` – `comments.xml` and `commentsExtended.xml` into parsed comments and entries.
  - `anchors.rs` – the scan over `document.xml`: comment ranges, fallbacks for comments that
    are only referenced, image and table anchors, captions, heading paths and context.
  - `docx.rs` – reading the parts out of the archive bytes with `zip`.
  - `app.rs` – building the output document: threads, anchors, metadata and diagnostics.
  - `guarantees.rs`, `anchor_invariants.rs` – properties proved of every output document and
    of every set of anchors.
  - `output.rs`, `error.rs` – the output and error types.
- `tests/` – tests of the library, including archives built in memory.
- `app/` – the command-line program: argument handling, file reading and JSON output.

## Usage

```text
docx-comment-json <input.docx>
docx-comment-json <input.docx> --pretty
docx-comment-json <input.docx> --fail-on-missing-extended=true
docx-comment-json <input.docx> --include-raw=false
```

JSON goes to standard output, errors to standard error with a non-zero exit code.

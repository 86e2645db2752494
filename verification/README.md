# apaciter

A batch generator of APA 7 references from DOIs and article links, with its
logic verified by Verus.

- `src/` is the verified library:
  - `text.rs`: character and byte-level string operations with their models;
  - `json.rs`: the JSON document type that metadata records are held in;
  - `types.rs`: the output formats;
  - `doi.rs`: finding DOIs in text, links and `<meta>` tags, and judging the
    replies of doi.org, CrossRef and DataCite;
  - `formatting.rs`: the references in LaTeX, BibTeX, plain text, Markdown,
    RIS and HTML, and the documents that hold them;
  - `batch.rs`: a batch run, line by line, with its status lines;
  - `history.rs` and `panels.rs`: the saved batches and the history panel.
- `app/` is the web front end (Dioxus): the requests, the browser storage and
  the page.
- `tests/` runs the library on concrete inputs.

# daft_html

HTML operators for columns of HTML documents: plain text, title, text
ratio, `<meta>` content, link targets, tables as Markdown, and CSS-selector
queries (text, attribute, presence, count).

Parsing is done by `scraper` (html5ever) and CSS selectors are parsed and
matched by `scraper` too. What the operators decide from what the parser
returns is verified with Verus, except the text ratio's floating-point
division (and its 0 for an empty document), which `app/` performs on the
two verified counts.

Layout:

- `src/scrape.rs` — the boundary with `scraper`: the trusted wrappers and
  the names of what they return (the parsed root element, the elements a
  selector picks, whether a selector parses).
- `src/dom.rs` — the tree model, its open/close walk and a verified decoder
  from walks back to trees.
- `src/dom_query.rs` — element names, attribute lookup, text content.
- `src/chars.rs` — character helpers, Unicode white space and trimming.
- `src/document.rs`, `src/tables.rs`, `src/selector.rs` — the operators on
  one document; `src/columns.rs` — the operators on a column of documents.
- `app/` — the Daft extension: Arrow input/output and registration.

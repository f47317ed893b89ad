//! HTML processing operators: plain-text extraction, title, meta and link
//! lookup, table rendering as Markdown, and CSS-selector queries.
//!
//! Documents are parsed by `scraper` (html5ever); the library works on a
//! plain model of the parsed tree and proves its extraction rules against
//! that model.

pub mod chars;
pub mod dom;
pub mod dom_query;
pub mod scrape;
pub mod document;
pub mod tables;
pub mod selector;
pub mod columns;

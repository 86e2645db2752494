//! Citation building for DOIs: DOI recognition, APA-style rendering in
//! several output formats, and the bookkeeping of a batch history.

pub mod batch;
pub mod doi;
pub mod formatting;
pub mod history;
pub mod json;
pub mod panels;
pub mod text;
pub mod types;

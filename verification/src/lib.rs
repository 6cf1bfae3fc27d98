//! Extraction pipeline for job-posting snippets: a hand-rolled salary grammar
//! (amounts, currencies, ranges), keyword heuristics for contract type and
//! remote work, relative-date resolution, and normalization and
//! deduplication of the resulting records keyed by source URL.

pub mod analysis;
pub mod domain;
pub mod grammar;
pub mod records;
pub mod text;

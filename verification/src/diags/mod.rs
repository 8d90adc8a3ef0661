//! Diagnostics: spans, records and the append-only sink that collects them.

pub mod diag;
pub mod diagbag;
pub mod textspan;

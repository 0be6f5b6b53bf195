//! Extraction of a labeled "business value" section from rich-text
//! document trees: a verified flattener for nested typed node trees and
//! a verified delimiter-bounded field extractor, together with the small
//! pure helpers (query strings, credentials, grouping) that surround them.

pub mod credentials;
pub mod doc;
pub mod extract;
pub mod group;
pub mod query;
pub mod textsearch;

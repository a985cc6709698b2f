//! A verified scrape-and-extract pipeline for package-index metadata.
//!
//! The library discovers package records (name, repository link, description)
//! from two kinds of sources: a single JSON index document, and an HTML
//! listing page with one detail page per entry. The extraction rules, the
//! retry accounting, and the final deduplicating merge are verified; network
//! I/O and thread plumbing live outside the library and hand it plain values.

pub mod aggregate;
pub mod conan;
pub mod package;
pub mod retry;
pub mod text;
pub mod vcpkg;

//! A verified PDF merge library with thin verified image-pipeline helpers.
//!
//! The heart of the crate is the object-graph merge: loaded documents are
//! renumbered into disjoint identifier blocks, unioned into one graph, and a
//! fresh page tree and catalog are built over the collected pages.
pub mod imageops;
pub mod laws;
pub mod imgio;
pub mod merge;
pub mod names;
pub mod object;
pub mod pages;
pub mod pdfio;
pub mod renumber;
pub mod validate;


//! Splitting a paginated document into chapters along its outline.
//!
//! The outline's bookmarks are flattened into document order ([`outline`]),
//! those that point to a page become chapters with page ranges ([`chapter`],
//! with the conditions under which the ranges cover the document in
//! [`coverage`]), and each chapter becomes a text file named after its title
//! ([`export`], [`sanitize`]). Reading the document and writing the files is
//! left to the caller: the library works on the bookmarks and the page texts
//! that the caller hands it, and hands back the files to write.

pub mod chapter;
pub mod cli;
pub mod coverage;
pub mod export;
pub mod outline;
pub mod sanitize;

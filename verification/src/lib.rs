//! A verified core for converting documents to markdown.
//!
//! The heart of the crate is a PDF page-content interpreter and layout
//! reconstructor: it executes a page's drawing-command stream over a
//! fixed-point coordinate system, detects tables from the page's ruling
//! lines, rebuilds reading order, and renders markdown.  The PDF container
//! itself is parsed by an unverified shell that hands this crate plain
//! values; everything in `src/` is checked by Verus.

pub mod bytes;
pub mod chat;
pub mod config;
pub mod convert;
pub mod dsu;
pub mod fixed;
pub mod laws;
pub mod pdf2md;
pub mod pdf_content;
pub mod pdf_element;
pub mod pdf_page;
pub mod pdf_state;
pub mod sort;

//! A document composition and typesetting engine: it arranges styled
//! text, lists, tables and laid-out mathematics into a sequence of
//! fixed-size page areas, producing the geometry and drawing operations a
//! lower-level page-drawing surface consumes.
//!
//! Content is modeled as a tree of elements sharing one resumable render
//! protocol: a render call either consumes all remaining content within
//! the given area or reports that content remains and expects a fresh
//! area — typically the next page — on the next call.  All physical
//! lengths are fixed-point millimeters, so the layout arithmetic is exact
//! and verified: column widths sum to the full table width, justified
//! lines fill the available width up to the spacing quantum, and a
//! paragraph rendered across any number of pages draws its text exactly
//! once.

pub mod geom;
pub mod style;
pub mod fonts;
pub mod error;
pub mod render;
pub mod wrap;
pub mod elements;
pub mod table;
pub mod math;
pub mod highlight;
pub mod codeblock;

//! Structured documents out of parsed pages.
//!
//! The library holds the rules by which a document's pages become an ordered
//! list of semantic blocks: integer geometry, the grouping of glyphs into
//! spans and lines, the post-processing of layout detections, the fusion of
//! text lines with layout boxes, the stitching of page elements into blocks,
//! the levelling of titles, and the bookkeeping of the page pipeline.
//!
//! Coordinates are unsigned integers on a fixed grid of page units; the
//! caller chooses the unit (a fraction of a point) and converts at the edge.

pub mod geometry;
pub mod strings;
pub mod entities;
pub mod blocks;
pub mod error;
pub mod order;
pub mod titles;
pub mod merge;
pub mod document;
pub mod pool;
pub mod text;
pub mod range;
pub mod names;
pub mod config;
pub mod native;
pub mod layout;
pub mod ocr;
pub mod fusion;
pub mod output;
pub mod queue;

//! Grouping of text lines into chunks separated by a delimiter line.
//!
//! A [`Chunker`] accumulates the lines that a source yields, each followed by
//! one line terminator, and hands the accumulated text out as a chunk when a
//! line equal to the delimiter arrives or the source ends. Empty chunks are
//! never handed out, and a failure of the source is passed on at once without
//! touching what has been accumulated.
//!
//! The chunker is driven one source event at a time by [`Chunker::advance`],
//! whatever the source is. For lines that are held in memory,
//! [`chunk_by_line`] and [`LinesExt::chunk_by_line`] give the chunks as a
//! sequence that is pulled element by element, [`ChunkByLine`].
//!
//! The contracts are stated over the functions of [`model`]; what holds of
//! chunking in general is proved in [`laws`].

pub mod chunker;
pub mod laws;
pub mod lines;
pub mod model;

pub use chunker::{Chunker, ChunkerView, Step};
pub use lines::{chunk_by_line, ChunkByLine, ChunkByLineView, LinesExt};

//! Unpacking of WRS game asset archives, verified with Verus.
//!
//! An archive is a flat sequence of records: a name, two sizes, and a
//! payload compressed with a dialect of LZSS. The crate holds
//!
//! - [`params`] and [`window`]: the parameters of the dialect and the
//!   patterns its sliding window starts from;
//! - [`lzss`]: a model of the compressed stream and the decoder that is
//!   proved to compute it, with [`laws`] that hold of every stream;
//! - [`wrs`]: the record container, its parser and the extraction of whole
//!   archives;
//! - [`plan`]: what a conversion run does with the files of an archive;
//! - [`wmp`], [`map`] and [`graph`]: the lines of level map files, and the
//!   wall graph of a map with the walk that finds its faces;
//! - [`image`]: the output formats of the image conversion;
//! - [`text`]: texts as sequences of characters.
//!
//! Every function states what it computes over sequences and integers, and
//! no function panics.

pub mod graph;
pub mod image;
pub mod laws;
pub mod lzss;
pub mod map;
pub mod params;
pub mod plan;
pub mod text;
pub mod window;
pub mod wmp;
pub mod wrs;

//! A schema-driven columnar record codec.
//!
//! A record is a tree of named fields whose leaves are typed atoms. Its
//! schema flattens into an ordered list of columns with dotted names
//! ([`serde`]), the record itself into a row of cells, one for each column
//! ([`format`]). Rows travel in a binary stream or in a text stream, each
//! with a header that lists the columns ([`io`]); a reader takes a stream
//! whose header holds its own columns in any order and among any others.
//!
//! The binary stream counts the present cells of a row in runs. [`ov`] holds
//! the other form, in which each cell carries a byte that tells whether it
//! is present.
//!
//! Streams are held in memory: a writer gathers the bytes it writes until
//! they are flushed, and a reader is given the bytes of its stream.
pub mod format;
pub mod io;
pub mod ov;
pub mod serde;
pub mod wire;

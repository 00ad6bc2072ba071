//! The sentinel form of the binary stream: each cell of a row is preceded by
//! one byte that tells a null from a present value.
pub mod format;
pub mod io;

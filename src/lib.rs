//! A small file-sharing server's library: a bounded-memory scanner that copies a
//! byte stream up to a boundary marker, and the plain formatting helpers the
//! server's pages use.

pub mod directory;
pub mod format;
pub mod ip;
pub mod matching;
pub mod month;
pub mod routes;
pub mod stream;
pub mod text;
pub mod ui;

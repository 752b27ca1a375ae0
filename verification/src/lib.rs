//! An append-only buffer over a memory-mapped file region shared by several
//! independent mapping holders.
//!
//! The mapped bytes themselves carry the coordination state: a fixed-size
//! header at the front of the region holds a lock word and the offset of the
//! logical end of committed data.  Everything after the header is the data
//! region.  `append` serializes itself through the lock word, writes past the
//! committed end, and advances the end, so that ranges handed out by earlier
//! appends are never moved or rewritten.
//!
//! The OS-specific work — establishing the mapping, flushing pages to the
//! backing file, pinning pages in memory — is owned by the embedding
//! application.  This crate holds the mapped bytes as a plain byte buffer,
//! validates every byte range before the application forwards it to the OS,
//! and keeps the header and data region consistent.

pub mod advice;
pub mod append;
pub mod codec;
pub mod errors;
pub mod laws;

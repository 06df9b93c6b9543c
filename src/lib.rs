//! Reading and integrity verification of xar archives: a fixed big-endian
//! header, a zlib-compressed XML manifest (the table of contents) and a heap
//! of payloads whose SHA-1 digests the manifest records.
pub mod archive;
pub mod digest;
pub mod format;
pub mod manifest;
pub mod payload;
pub mod verify;
pub mod xml;

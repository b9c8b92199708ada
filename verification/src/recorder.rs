//! The capture recorder: storage form, segment files and captures.
pub mod capture;
pub mod dto;
pub mod format;
pub mod integrity;
pub mod lifecycle;
pub mod manifest;
pub mod payload;
pub mod quality;
pub mod reader;
pub mod recovery;
pub mod repaired;
pub mod rotation;
pub mod validated;
pub mod varint;
pub mod writer;

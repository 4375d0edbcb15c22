//! Dump access: the multistream index line format, the page records inside
//! a decompressed stream, the synthetic fixture builder, and checksum
//! verification.

pub mod index;
pub mod xml;
pub mod stream;
pub mod integrity;
pub mod fixture;

//! Embeds a visible signature watermark into PDF pages and recovers its fields
//! from raw document bytes.
pub mod document;
pub mod encoder;
pub mod extract;
pub mod laws;
pub mod records;
pub mod roundtrip;
pub mod text;
pub mod watermark;

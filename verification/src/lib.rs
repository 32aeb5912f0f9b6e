//! Layer visibility, font substitution and root transforms for SVG documents.
//!
//! A document is a byte buffer. Each pass reads it as a stream of XML tokens,
//! rebuilds the start tags it is responsible for and writes every other token
//! back as it was read.

pub mod attributes;
pub mod bytes;
pub mod error;
pub mod export;
pub mod fonts;
pub mod layers;
pub mod rewrite;
pub mod session;
pub mod transform;
pub mod xml;

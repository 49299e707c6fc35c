//! Diagram cache-and-embedding pipeline: content-addressed extraction of
//! diagram blocks from host document text, memoized rendering through a
//! caller-supplied renderer, placeholder rewriting, and resolution of
//! placeholder identifiers back to rendered bytes.

pub mod fingerprint;
pub mod numeral;
pub mod scan;
pub mod svg;
pub mod placeholder;
pub mod template;
pub mod tikz;

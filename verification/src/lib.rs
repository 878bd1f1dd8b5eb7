//! Filters a spatial-transcriptomics transcript table against coordinate,
//! quality and control-probe criteria, and re-encodes cell identifiers
//! from a letters-as-hex-digits scheme into their numeric form.

pub mod codec;
pub mod filter;
pub mod float_bits;
pub mod process;

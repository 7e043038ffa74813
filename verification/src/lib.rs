//! A fixed-bucket frequency histogram over unsigned 64-bit samples.
//!
//! A `Histogram` accumulates samples one at a time, keeps running summary
//! statistics (count, sum, sum of squares, minimum, maximum), and renders a
//! multi-line ASCII bar chart once ingestion is complete. Bucket boundaries
//! are derived from the observed minimum and maximum at render time, so the
//! raw samples are retained until then.

pub mod buckets;
pub mod errors;
pub mod histogram;
pub mod stats;
pub mod text;

pub use errors::io_error;
pub use histogram::Histogram;

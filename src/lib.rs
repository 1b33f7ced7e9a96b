//! Per-contig coverage statistics computed from delta-encoded pileup signals,
//! and variant-aware per-contig statistics (variant depths, ANI-driven
//! cutoffs, consensus polishing and gene labels).
pub mod signal;
pub mod histogram;
pub mod stats;
pub mod estimator;
pub mod taker;
pub mod variants;
pub mod polish;
pub mod genes;

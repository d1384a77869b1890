//! Core algorithms for sequencing the illumination points of a rotating
//! two-panel cylindrical LED display.
//!
//! The crate covers the discrete heart of the pipeline: enumerating frame
//! activation patterns, scheduling frames in a seeded random order while
//! collecting one choice per frame, and the void-and-cluster bookkeeping that
//! assigns every depth-expanded point a unique dither rank.  The
//! floating-point geometry and energy kernels that feed these decisions live
//! with the (unverified) driver.

pub mod optimizer;
pub mod pattern;
pub mod ranker;
pub mod seqs;
pub mod shuffle;

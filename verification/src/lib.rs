//! Uniform analysis gain for low-contrast source material.
//!
//! Farneback's per-pixel solve divides by the determinant of the smoothed
//! structure tensor plus a fixed regularizer. The determinant scales as the
//! fourth power of the input image's local contrast while the regularizer is an
//! absolute value, so the two together form a hard contrast threshold. Under it
//! the solve yields about zero and, because it overwrites rather than
//! accumulates, discards the coarser pyramid level's estimate: motion in that
//! region is lost outright.
//!
//! The remedy is a uniform gain on the analysis gray. Gain carries no new
//! information; it only moves the determinant relative to the regularizer. Since
//! the determinant grows with the fourth power of the gain, the gain that places
//! a chosen percentile of the determinant distribution a chosen margin above the
//! regularizer is available in closed form.
//!
//! [`gain::analysis_gain`] finds the gain, [`gain::apply_gain`] applies it.
//!
//! - [`sampling`]: which frames and which pixels are measured, and how many
//!   frames at once.
//! - [`smooth`]: the separable window average.
//! - [`determinant`]: the determinants of one frame.
//! - [`gain`]: from determinants to a gain, and from a gain to scaled frames.
//! - [`laws`]: what holds of all of these together.
//! - [`arithmetic`], [`stages`]: the number types and the pipeline stages that
//!   the library is used with, and what contracts say of them.
//! - [`parallel`], [`order`]: the thread pool and the sort.
pub mod arithmetic;
pub mod determinant;
pub mod gain;
pub mod image;
pub mod laws;
pub mod order;
pub mod parallel;
pub mod sampling;
pub mod smooth;
pub mod stages;

//! What holds of the measurement and of the gain as a whole.
pub mod binary;
pub mod description;
pub mod exact;
pub mod frame;
pub mod growth;
pub mod measurement;
pub mod percentile;
pub mod pixels;
pub mod powers;
pub mod rounding;
pub mod scaling;
pub mod sequence;
pub mod sizing;
pub mod smoothing;
pub mod tensor;
pub mod transposition;
pub mod window;

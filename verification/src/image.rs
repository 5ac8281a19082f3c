//! Images, polynomial expansions, and the parameters of the flow solve.
use vstd::prelude::*;

verus! {

/// A gray image, row by row.
#[derive(Debug)]
pub struct GrayImage<T> {
    pub width: u32,
    pub height: u32,
    pub data: Vec<T>,
}

/// What a [`GrayImage`] holds.
pub struct ImageModel<T> {
    pub width: u32,
    pub height: u32,
    pub data: Seq<T>,
}

impl<T> View for GrayImage<T> {
    type V = ImageModel<T>;

    open spec fn view(&self) -> ImageModel<T> {
        ImageModel { width: self.width, height: self.height, data: self.data@ }
    }
}

/// A quadratic polynomial fitted around each pixel, row by row: the coefficients
/// of x^2, x * y and y^2, then the two linear ones.
#[derive(Debug)]
pub struct PolyExpansion<T> {
    pub data: Vec<[T; 5]>,
}

/// The coefficients of each pixel, as sequences.
pub open spec fn coefficients<T>(data: Seq<[T; 5]>) -> Seq<Seq<T>> {
    data.map_values(|p: [T; 5]| p@)
}

/// Parameters of the flow solve. `P` is the type of the two that are real
/// numbers.
#[derive(Debug)]
pub struct FarnebackParams<P> {
    /// Size ratio between two pyramid levels.
    pub pyr_scale: P,
    /// Extent of the neighbourhood that a polynomial is fitted to.
    pub poly_n: u32,
    /// Width of the weighting inside that neighbourhood.
    pub poly_sigma: P,
    /// Extent of the averaging window.
    pub winsize: u32,
    /// Whether the averaging window is Gaussian rather than a box.
    pub use_gaussian: bool,
}

} // verus!

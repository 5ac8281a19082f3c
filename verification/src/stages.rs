//! The stages of the flow pipeline that the measurement runs on each frame.
use vstd::prelude::*;

use crate::arithmetic::Arithmetic;
#[allow(unused_imports)]
use crate::arithmetic::Semantics;
use crate::image::{GrayImage, PolyExpansion};
#[allow(unused_imports)]
use crate::image::ImageModel;

verus! {

/// The stages of the flow pipeline that a frame passes through before the solve.
///
/// As with [`Arithmetic`], nothing is taken for granted of what a stage returns;
/// contracts speak of it through [`StageSemantics`].
pub trait FlowStages: Arithmetic {
    /// The type of the real-valued parameters.
    type Param: Copy + Send + Sync;

    /// The number that the solve adds to each determinant before it divides.
    fn flow_regularization() -> Self::Narrow;

    /// The image that the solve sees at pyramid level `level`.
    fn build_level_image(
        gray: &GrayImage<Self::Narrow>,
        level: u32,
        pyr_scale: Self::Param,
    ) -> GrayImage<Self::Narrow>;

    /// The polynomial expansion of a level image.
    fn poly_expansion(
        level: &GrayImage<Self::Narrow>,
        poly_n: u32,
        poly_sigma: Self::Param,
    ) -> PolyExpansion<Self::Narrow>;

    /// The Gaussian averaging window of extent `winsize`, along one axis.
    fn build_gaussian_1d(winsize: u32) -> Vec<Self::Narrow>;
}

/// What the stages of a [`FlowStages`] and its arithmetic compute, as
/// mathematical functions.
#[verifier::reject_recursive_types(F)]
pub struct StageSemantics<F: FlowStages> {
    pub arithmetic: Semantics<F>,
    pub regularization: F::Narrow,
    pub level_image: spec_fn(ImageModel<F::Narrow>, u32, F::Param) -> ImageModel<F::Narrow>,
    pub expansion: spec_fn(ImageModel<F::Narrow>, u32, F::Param) -> Seq<Seq<F::Narrow>>,
    pub gaussian: spec_fn(u32) -> Seq<F::Narrow>,
}

impl<F: FlowStages> StageSemantics<F> {
    /// Every result that a stage or an operation of `F` can give is the one that
    /// `self` says.
    pub open spec fn describes(self) -> bool {
        &&& self.describes_all_but_power()
        &&& self.arithmetic.describes_power()
    }

    /// The same of everything but the power.
    pub open spec fn describes_all_but_power(self) -> bool {
        &&& self.describes_measurement()
        &&& self.describes_sizing()
    }

    /// What the measurement of a frame uses: the stages and the narrow operations.
    pub open spec fn describes_measurement(self) -> bool {
        &&& self.arithmetic.describes_narrow()
        &&& self.describes_stages()
    }

    /// What the gain is sized with, but for the power.
    pub open spec fn describes_sizing(self) -> bool {
        &&& self.arithmetic.describes_all_but_power()
        &&& forall|r: F::Narrow| #[trigger]
            call_ensures(F::flow_regularization, (), r) ==> r == self.regularization
    }

    /// The stages.
    pub open spec fn describes_stages(self) -> bool {
        &&& forall|g: &GrayImage<F::Narrow>, k: u32, s: F::Param, r: GrayImage<F::Narrow>|
            #[trigger]
            call_ensures(F::build_level_image, (g, k, s), r) ==> r@ == (self.level_image)(
                g@,
                k,
                s,
            )
        &&& forall|l: &GrayImage<F::Narrow>, n: u32, s: F::Param, r: PolyExpansion<F::Narrow>|
            #[trigger]
            call_ensures(F::poly_expansion, (l, n, s), r) ==> crate::image::coefficients(r.data@)
                == (self.expansion)(l@, n, s)
        &&& forall|w: u32, r: Vec<F::Narrow>| #[trigger]
            call_ensures(F::build_gaussian_1d, (w,), r) ==> r@ == (self.gaussian)(w)
    }
}

} // verus!

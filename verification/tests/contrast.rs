//! The measurement and the gain on `f32` pixels, with a polynomial expansion of
//! the usual kind in front of them.
use std::marker::PhantomData;

use flow_contrast::arithmetic::Arithmetic;
use flow_contrast::determinant::{
    averaging_window, frame_determinants, sample_determinants, structure_products,
    StructureTensor,
};
use flow_contrast::gain::{
    analysis_gain, apply_gain, gain_for_determinant, gain_for_determinants, measured_determinants,
    percentile_place, scale_frame, MAX_GAIN,
};
use flow_contrast::image::{FarnebackParams, GrayImage, PolyExpansion};
use flow_contrast::sampling::{concurrent_frames, SAMPLE_FRAMES};
use flow_contrast::smooth::smooth_separable;
use flow_contrast::stages::FlowStages;

type Params = FarnebackParams<f32>;
type ImageF32 = GrayImage<f32>;

// ---------------------------------------------------------------------------
// Arithmetic and stages
// ---------------------------------------------------------------------------

/// What stands in front of the solve.
trait Front {
    fn regularization() -> f32;
    fn expand(level: &ImageF32, poly_n: u32, poly_sigma: f32) -> Vec<[f32; 5]>;

    /// The image itself, lightly blurred.
    fn finest_level(gray: &ImageF32) -> ImageF32
    where
        Self: Sized,
    {
        let (w, h) = (gray.width as usize, gray.height as usize);
        GrayImage {
            width: gray.width,
            height: gray.height,
            data: smooth_separable::<Ieee<Self>>(&gray.data, w, h, &[0.25, 0.5, 0.25]),
        }
    }
}

/// IEEE single and double precision.
struct Ieee<S>(PhantomData<S>);

fn flip(bits: i32) -> i32 {
    bits ^ (((bits >> 31) as u32) >> 1) as i32
}

impl<S: Front> Arithmetic for Ieee<S> {
    type Narrow = f32;
    type Wide = f64;

    fn from_int(n: u32) -> f32 {
        n as f32
    }
    fn epsilon() -> f32 {
        f32::EPSILON
    }
    fn difference(a: f32, b: f32) -> f32 {
        a - b
    }
    fn product(a: f32, b: f32) -> f32 {
        a * b
    }
    fn quotient(a: f32, b: f32) -> f32 {
        a / b
    }
    fn mul_add(a: f32, b: f32, c: f32) -> f32 {
        a.mul_add(b, c)
    }
    fn negated(a: f32) -> f32 {
        -a
    }
    fn magnitude(a: f32) -> f32 {
        a.abs()
    }
    fn less(a: f32, b: f32) -> bool {
        a < b
    }
    fn order_key(a: f32) -> i32 {
        flip(a.to_bits() as i32)
    }
    fn from_order_key(key: i32) -> f32 {
        f32::from_bits(flip(key) as u32)
    }
    fn widen(a: f32) -> f64 {
        f64::from(a)
    }
    fn narrow(a: f64) -> f32 {
        a as f32
    }
    fn wide_from_int(n: u32) -> f64 {
        f64::from(n)
    }
    fn wide_product(a: f64, b: f64) -> f64 {
        a * b
    }
    fn wide_quotient(a: f64, b: f64) -> f64 {
        a / b
    }
    fn wide_power(a: f64, b: f64) -> f64 {
        a.powf(b)
    }
    fn wide_at_most(a: f64, b: f64) -> bool {
        a <= b
    }
}

impl<S: Front> FlowStages for Ieee<S> {
    type Param = f32;

    fn flow_regularization() -> f32 {
        S::regularization()
    }

    fn build_level_image(gray: &ImageF32, level: u32, pyr_scale: f32) -> ImageF32 {
        assert_eq!(level, 0);
        assert!(pyr_scale > 0.0);
        S::finest_level(gray)
    }

    fn poly_expansion(level: &ImageF32, poly_n: u32, poly_sigma: f32) -> PolyExpansion<f32> {
        PolyExpansion {
            data: S::expand(level, poly_n, poly_sigma),
        }
    }

    fn build_gaussian_1d(winsize: u32) -> Vec<f32> {
        let m = (winsize / 2) as i32;
        let sigma = (m as f32 * 0.3).max(1e-6);
        let raw: Vec<f32> = (-m..=m)
            .map(|i| (-((i * i) as f32) / (2.0 * sigma * sigma)).exp())
            .collect();
        let sum: f32 = raw.iter().sum();
        raw.iter().map(|v| v / sum).collect()
    }
}

/// A weighted quadratic fit around each pixel.
struct Farneback;

impl Front for Farneback {
    fn regularization() -> f32 {
        1e-3
    }

    fn expand(level: &ImageF32, poly_n: u32, poly_sigma: f32) -> Vec<[f32; 5]> {
        let n = poly_n as i32;
        let (w, h) = (level.width as i32, level.height as i32);
        let raw: Vec<f64> = (-n..=n)
            .map(|x| (-f64::from(x * x) / (2.0 * f64::from(poly_sigma * poly_sigma))).exp())
            .collect();
        let sum: f64 = raw.iter().sum();
        let g: Vec<f64> = raw.iter().map(|v| v / sum).collect();
        let (mut b, mut d, mut e) = (0.0f64, 0.0f64, 0.0f64);
        for y in -n..=n {
            for x in -n..=n {
                let weight = g[(y + n) as usize] * g[(x + n) as usize];
                b += weight * f64::from(x * x);
                d += weight * f64::from(x * x * x * x);
                e += weight * f64::from(x * x * y * y);
            }
        }
        let det = (d + e) - 2.0 * b * b;
        let ig03 = -b / det;
        let ig33 = 0.5 * (1.0 / det + 1.0 / (d - e));
        let (ig11, ig55) = (1.0 / b, 1.0 / e);
        let mut out = Vec::new();
        for y in 0..h {
            for x in 0..w {
                let mut s = [0.0f64; 6];
                for dy in -n..=n {
                    let yy = (y + dy).clamp(0, h - 1);
                    for dx in -n..=n {
                        let xx = (x + dx).clamp(0, w - 1);
                        let weight = g[(dy + n) as usize] * g[(dx + n) as usize];
                        let v = weight * f64::from(level.data[(yy * w + xx) as usize]);
                        s[0] += v;
                        s[1] += v * f64::from(dx);
                        s[2] += v * f64::from(dy);
                        s[3] += v * f64::from(dx * dx);
                        s[4] += v * f64::from(dy * dy);
                        s[5] += v * f64::from(dx * dy);
                    }
                }
                out.push([
                    (s[0] * ig03 + s[3] * ig33) as f32,
                    (s[5] * ig55) as f32,
                    (s[0] * ig03 + s[4] * ig33) as f32,
                    (s[1] * ig11) as f32,
                    (s[2] * ig11) as f32,
                ]);
            }
        }
        out
    }
}

/// An expansion that can be told by heart: the level itself along x, one along y.
struct Simple;

impl Front for Simple {
    fn regularization() -> f32 {
        1.0 / 128.0
    }

    fn expand(level: &ImageF32, _poly_n: u32, _poly_sigma: f32) -> Vec<[f32; 5]> {
        level.data.iter().map(|v| [*v, 0.0, 1.0, 0.0, 0.0]).collect()
    }
}

/// As [`Simple`], but only the first pixel of a frame is ever looked at.
struct FirstPixel;

impl Front for FirstPixel {
    fn regularization() -> f32 {
        Simple::regularization()
    }

    fn expand(level: &ImageF32, poly_n: u32, poly_sigma: f32) -> Vec<[f32; 5]> {
        Simple::expand(level, poly_n, poly_sigma)
    }

    fn finest_level(gray: &ImageF32) -> ImageF32 {
        GrayImage {
            width: 1,
            height: 1,
            data: vec![gray.data[0]],
        }
    }
}

/// An expansion without a constant part: a pixel along x, its right neighbour
/// along y.
struct Linear;

impl Front for Linear {
    fn regularization() -> f32 {
        Simple::regularization()
    }

    fn expand(level: &ImageF32, _poly_n: u32, _poly_sigma: f32) -> Vec<[f32; 5]> {
        let w = level.width as usize;
        (0..level.data.len())
            .map(|i| {
                let right = if (i + 1) % w == 0 { i } else { i + 1 };
                [level.data[i], level.data[right] * 0.5, level.data[right], 0.0, 0.0]
            })
            .collect()
    }
}

type Flow = Ieee<Farneback>;
type Exact = Ieee<Simple>;

fn default_params() -> Params {
    FarnebackParams {
        pyr_scale: 0.5,
        poly_n: 5,
        poly_sigma: 1.2,
        winsize: 15,
        use_gaussian: false,
    }
}

fn pipeline_tuned() -> Params {
    FarnebackParams {
        pyr_scale: 0.5,
        poly_n: 5,
        poly_sigma: 1.2,
        winsize: 31,
        use_gaussian: true,
    }
}

fn zeros(w: u32, h: u32) -> ImageF32 {
    GrayImage {
        width: w,
        height: h,
        data: vec![0.0; (w * h) as usize],
    }
}

/// Build a frame with 2-D sinusoidal texture of the given amplitude over an
/// opaque mid-gray field.
///
/// The pattern must vary along both axes. A 1-D plane wave has a rank-1 structure
/// tensor, so its determinant is ~0 at any amplitude and it cannot stand in for
/// high-contrast content.
fn textured(w: u32, h: u32, amplitude: f32) -> ImageF32 {
    let mut img = zeros(w, h);
    for y in 0..h {
        for x in 0..w {
            let sx = ((x as f32) * 0.7).sin();
            let sy = ((y as f32) * 0.9).sin();
            img.data[(y * w + x) as usize] = 128.0 + amplitude * sx * sy;
        }
    }
    img
}

// ---------------------------------------------------------------------------
// Gain of whole sequences
// ---------------------------------------------------------------------------

#[test]
fn high_contrast_content_is_left_alone() {
    let params = default_params();
    let frames = vec![textured(96, 96, 60.0), textured(96, 96, 60.0)];
    let gain = analysis_gain::<Flow>(&frames, &params);
    assert!(
        (gain - 1.0).abs() < 1e-6,
        "high-contrast content must not be rescaled, got {gain}"
    );
}

#[test]
fn low_contrast_content_is_boosted() {
    let params = default_params();
    let frames = vec![textured(96, 96, 0.35), textured(96, 96, 0.35)];
    let gain = analysis_gain::<Flow>(&frames, &params);
    assert!(
        gain > 1.0,
        "low-contrast content must be boosted, got {gain}"
    );
    assert!(
        gain <= MAX_GAIN as f32,
        "gain must stay clamped, got {gain}"
    );
}

#[test]
fn gain_is_monotonic_in_contrast() {
    let params = default_params();
    let weak = analysis_gain::<Flow>(&[textured(96, 96, 0.2)], &params);
    let strong = analysis_gain::<Flow>(&[textured(96, 96, 2.0)], &params);
    assert!(
        weak >= strong,
        "weaker contrast must not get less gain: {weak} vs {strong}"
    );
}

#[test]
fn large_flat_interior_does_not_force_max_gain() {
    // A solid interior plus sharp texture is high-contrast content: the textured
    // part is far above the threshold and gain cannot help the flat part at all.
    let params = pipeline_tuned();
    let mut img = zeros(128, 128);
    let split = 128 * 2 / 5; // 40% flat
    for y in 0..128u32 {
        for x in 0..128u32 {
            let v = if x < split {
                128.0
            } else {
                let sx = ((x as f32) * 0.7).sin();
                let sy = ((y as f32) * 0.9).sin();
                (60.0f32).mul_add(sx * sy, 128.0).round()
            };
            img.data[(y * 128 + x) as usize] = v;
        }
    }
    let gain = analysis_gain::<Flow>(&[img], &params);
    assert!(
        (gain - 1.0).abs() < 1e-6,
        "40% flat + sharp texture must not be boosted, got {gain}"
    );
}

#[test]
fn samples_span_the_whole_sequence() {
    // A sequence shorter than 2 * SAMPLE_FRAMES must still be measured across its
    // full length. A stride-based sampler collapses to stride 1 here and never
    // looks past frame 7.
    //
    // The leading frames are fully transparent so they contribute no determinant
    // samples at all, which leaves the tail as the only thing the statistic can
    // see. A prefix-only sampler therefore measures nothing and returns 1.0; a
    // spread sampler finds the low-contrast tail and boosts.
    let params = pipeline_tuned();
    let mut frames: Vec<ImageF32> = (0..12).map(|_| zeros(96, 96)).collect();
    for f in frames.iter_mut().skip(8) {
        *f = textured(96, 96, 0.35);
    }
    let gain = analysis_gain::<Flow>(&frames, &params);
    assert!(
        gain > 1.0,
        "low-contrast tail of a 12-frame sequence must be sampled, got {gain}"
    );
}

#[test]
fn fully_transparent_sequence_yields_unit_gain() {
    // Every pixel below COVERED_MIN: nothing to measure, nothing to boost.
    let params = default_params();
    let frames = vec![zeros(64, 64), zeros(64, 64)];
    let gain = analysis_gain::<Flow>(&frames, &params);
    assert!(
        (gain - 1.0).abs() < 1e-6,
        "empty sequence must yield unit gain, got {gain}"
    );
}

#[test]
fn empty_sequence_yields_unit_gain() {
    let params = default_params();
    assert!((analysis_gain::<Flow>(&[], &params) - 1.0).abs() < 1e-6);
}

#[test]
fn apply_gain_scales_every_frame_identically() {
    let mut frames = vec![textured(16, 16, 4.0), textured(16, 16, 4.0)];
    let before: Vec<f32> = frames[0].data.clone();
    apply_gain::<Flow>(&mut frames, 3.0);
    for (i, v) in frames[0].data.iter().enumerate() {
        assert!((v - before[i] * 3.0).abs() < 1e-3);
    }
    // Both frames must carry the same scaling, or the frame-to-frame comparison
    // is invalid.
    assert_eq!(frames[0].data, frames[1].data);
}

#[test]
fn apply_gain_of_one_is_a_no_op() {
    let mut frames = vec![textured(16, 16, 4.0)];
    let before = frames[0].data.clone();
    apply_gain::<Flow>(&mut frames, 1.0);
    assert_eq!(frames[0].data, before);
}

#[test]
fn concurrency_scales_down_with_frame_size() {
    // Small tiles keep full parallelism; large ones collapse toward serial so
    // peak scratch stays inside the budget.
    assert_eq!(concurrent_frames(128 * 128), SAMPLE_FRAMES);
    assert_eq!(concurrent_frames(512 * 512), SAMPLE_FRAMES);
    assert_eq!(concurrent_frames(1024 * 1024), SAMPLE_FRAMES);
    // 2048 squared: 134 MB per frame, so two fit the 256 MB budget.
    assert_eq!(concurrent_frames(2048 * 2048), 2);
    // 4096 squared: one frame already exceeds the budget.
    assert_eq!(concurrent_frames(4096 * 4096), 1);
    assert_eq!(concurrent_frames(0), SAMPLE_FRAMES);
    for px in [1usize, 64, 4096, 1 << 24, usize::MAX] {
        let n = concurrent_frames(px);
        assert!((1..=SAMPLE_FRAMES).contains(&n), "px {px} gave {n}");
    }
}

/// Frames with an opaque bar that moves down, as RGBA.
fn bars(n: u32, w: u32, h: u32) -> Vec<Vec<u8>> {
    (0..n)
        .map(|i| {
            let mut data = vec![0u8; (w * h * 4) as usize];
            for y in (2 + i)..(6 + i).min(h) {
                for x in 1..(w - 1).max(1) {
                    let idx = ((y * w + x) * 4) as usize;
                    data[idx] = 200;
                    data[idx + 1] = 180;
                    data[idx + 2] = 160;
                    data[idx + 3] = 255;
                }
            }
            data
        })
        .collect()
}

fn gray_of(rgba: &[u8], w: u32, h: u32) -> ImageF32 {
    let data = rgba
        .chunks(4)
        .map(|p| {
            let luma = 0.299 * f32::from(p[0]) + 0.587 * f32::from(p[1]) + 0.114 * f32::from(p[2]);
            luma * f32::from(p[3]) / 255.0
        })
        .collect();
    GrayImage {
        width: w,
        height: h,
        data,
    }
}

fn run_gain(frames: &mut Vec<ImageF32>, params: &Params) -> Result<f32, String> {
    let lengths: Vec<usize> = frames.iter().map(|f| f.data.len()).collect();
    let gain = analysis_gain::<Flow>(frames, params);
    apply_gain::<Flow>(frames, gain);
    if !(1.0..=MAX_GAIN as f32).contains(&gain) {
        return Err(format!("gain {gain}"));
    }
    for (f, n) in frames.iter().zip(lengths) {
        if f.data.len() != n || f.data.iter().any(|v| !v.is_finite()) {
            return Err(format!("frame of {n} pixels"));
        }
    }
    Ok(gain)
}

#[test]
fn narrow_sources_do_not_panic() {
    for w in [1u32, 2, 3, 5, 8, 12, 14, 15, 16, 33] {
        for winsize in [15u32, 31] {
            let mut frames: Vec<ImageF32> =
                bars(4, w, 64).iter().map(|f| gray_of(f, w, 64)).collect();
            let params = FarnebackParams {
                winsize,
                ..default_params()
            };
            let result = run_gain(&mut frames, &params);
            assert!(
                result.is_ok(),
                "width {w} winsize {winsize} failed: {:?}",
                result.err()
            );
        }
    }
}

// ---------------------------------------------------------------------------
// Determinants
// ---------------------------------------------------------------------------

#[test]
fn structure_products_are_the_tensor_entries() {
    let poly = [[3.0f32, 4.0, 5.0, 9.0, 9.0], [1.0, 0.0, 2.0, 9.0, 9.0]];
    let t = structure_products::<Exact>(&poly, 2);
    // a = 3, b = 2, c = 5, then a = 1, b = 0, c = 2.
    assert_eq!(t.xx, vec![13.0, 1.0]);
    assert_eq!(t.xy, vec![16.0, 0.0]);
    assert_eq!(t.yy, vec![29.0, 4.0]);
    assert!(structure_products::<Exact>(&poly, 0).xx.is_empty());
}

#[test]
fn box_window_is_all_ones_and_averages() {
    let mut params = default_params();
    params.winsize = 3;
    let (kernel, scale) = averaging_window::<Exact>(&params);
    assert_eq!(kernel, vec![1.0, 1.0, 1.0]);
    assert_eq!(scale, 1.0 / 9.0);
    params.winsize = 0;
    let (kernel, scale) = averaging_window::<Exact>(&params);
    assert_eq!(kernel, vec![1.0]);
    assert_eq!(scale, 1.0);
}

#[test]
fn gaussian_window_is_used_as_it_comes() {
    let params = pipeline_tuned();
    let (kernel, scale) = averaging_window::<Exact>(&params);
    assert_eq!(kernel, Exact::build_gaussian_1d(31));
    assert_eq!(kernel.len(), 31);
    assert_eq!(scale, 1.0);
}

#[test]
fn only_covered_pixels_with_structure_are_kept() {
    // One pixel per case: transparent, flat, negative, and two that are kept.
    let gray = [1.99f32, 2.0, 100.0, 2.0, 3.0];
    let tensor = StructureTensor {
        xx: vec![5.0, 0.0, 1.0, 2.0, 3.0],
        xy: vec![0.0, 0.0, 2.0, 1.0, 0.0],
        yy: vec![5.0, 7.0, 1.0, 4.0, 5.0],
    };
    let dets = sample_determinants::<Exact>(&gray, 5, 1, &tensor, &[1.0], 1.0);
    assert_eq!(dets, vec![7.0, 15.0]);
    let halved = sample_determinants::<Exact>(&gray, 5, 1, &tensor, &[1.0], 0.5);
    assert_eq!(halved, vec![1.75, 3.75]);
}

#[test]
fn large_frames_are_sampled_on_a_grid() {
    // 512 by 257 pixels are more than twice the target, so every second pixel of
    // every second row is read.
    let (w, h) = (512usize, 257usize);
    let gray = vec![10.0f32; w * h];
    let tensor = StructureTensor {
        xx: (0..w * h).map(|i| i as f32).collect(),
        xy: vec![0.0; w * h],
        yy: vec![1.0; w * h],
    };
    let dets = sample_determinants::<Exact>(&gray, w, h, &tensor, &[1.0], 1.0);
    let mut expected: Vec<f32> = Vec::new();
    for y in (0..h).step_by(2) {
        for x in (0..w).step_by(2) {
            if y * w + x > 0 {
                expected.push((y * w + x) as f32);
            }
        }
    }
    assert_eq!(dets, expected);
}

#[test]
fn frames_without_pixels_have_no_determinants() {
    let params = default_params();
    assert!(frame_determinants::<Exact>(&zeros(0, 7), &params).is_empty());
    assert!(frame_determinants::<Exact>(&zeros(7, 0), &params).is_empty());
}

#[test]
fn determinants_of_a_frame_follow_the_stages() {
    // A uniform level v is unchanged by the blur; its expansion is (v, 0, 1), so
    // the averaged tensor is diag(v * v, 1).
    let mut params = default_params();
    params.winsize = 1;
    let mut img = zeros(2, 2);
    img.data = vec![4.0; 4];
    assert_eq!(
        frame_determinants::<Exact>(&img, &params),
        vec![16.0, 16.0, 16.0, 16.0]
    );
}

#[test]
fn determinants_come_frame_by_frame_in_order() {
    let mut params = default_params();
    params.winsize = 1;
    let frames: Vec<ImageF32> = (0..12)
        .map(|i| GrayImage {
            width: 1,
            height: 1,
            data: vec![i as f32],
        })
        .collect();
    // Frames 0, 1, 3, 4, 6, 7, 9 and 10 are sampled; 0 and 1 are not covered.
    assert_eq!(
        measured_determinants::<Exact>(&frames, &params),
        vec![9.0, 16.0, 36.0, 49.0, 81.0, 100.0]
    );
    assert!(measured_determinants::<Exact>(&[], &params).is_empty());
}

#[test]
fn grouping_does_not_change_the_determinants() {
    // The extents of the first frame decide how many frames are measured at once:
    // here eight, seven, two and one.
    let mut params = default_params();
    params.winsize = 1;
    for (side, group) in [(16u32, 8usize), (1060, 7), (2048, 2), (4096, 1)] {
        assert_eq!(concurrent_frames((side * side) as usize), group);
        let frames: Vec<ImageF32> = (0..8)
            .map(|i| GrayImage {
                width: side,
                height: side,
                data: vec![i as f32 + 2.0],
            })
            .collect();
        assert_eq!(
            measured_determinants::<Ieee<FirstPixel>>(&frames, &params),
            vec![4.0, 9.0, 16.0, 25.0, 36.0, 49.0, 64.0, 81.0]
        );
    }
}

#[test]
fn frames_that_are_not_sampled_do_not_count() {
    let mut params = default_params();
    params.winsize = 1;
    let mut frames: Vec<ImageF32> = (0..12).map(|_| zeros(2, 2)).collect();
    for f in frames.iter_mut() {
        f.data = vec![4.0; 4];
    }
    let before = measured_determinants::<Exact>(&frames, &params);
    for i in [2usize, 5, 8, 11] {
        frames[i].data = vec![200.0, 3.0, 90.0, 7.0];
    }
    assert_eq!(measured_determinants::<Exact>(&frames, &params), before);
    frames[10].data = vec![5.0; 4];
    assert_ne!(measured_determinants::<Exact>(&frames, &params), before);
}

#[test]
fn determinants_grow_with_the_fourth_power_of_the_gain() {
    // Powers of two are exact in binary arithmetic.
    let weak: Vec<[f32; 5]> = (0..12)
        .map(|i| [1.0 + i as f32, 0.5, 3.0 - 0.25 * i as f32, 0.0, 0.0])
        .collect();
    let strong: Vec<[f32; 5]> = weak
        .iter()
        .map(|p| [2.0 * p[0], 2.0 * p[1], 2.0 * p[2], 0.0, 0.0])
        .collect();
    let gray = [50.0f32; 12];
    let kernel = [0.5f32, 1.0, 0.5];
    let before = sample_determinants::<Exact>(
        &gray,
        4,
        3,
        &structure_products::<Exact>(&weak, 12),
        &kernel,
        0.25,
    );
    let after = sample_determinants::<Exact>(
        &gray,
        4,
        3,
        &structure_products::<Exact>(&strong, 12),
        &kernel,
        0.25,
    );
    assert!(!before.is_empty());
    let grown: Vec<f32> = before.iter().map(|d| 16.0 * d).collect();
    assert_eq!(after, grown);
}

#[test]
fn doubled_frames_have_sixteen_times_the_determinants() {
    let mut weak = zeros(6, 5);
    for (i, v) in weak.data.iter_mut().enumerate() {
        *v = if i % 4 == 3 { 0.0 } else { 2.0 + ((i * 7) % 11) as f32 };
    }
    let mut strong = vec![zeros(6, 5)];
    strong[0].data = weak.data.clone();
    apply_gain::<Ieee<Linear>>(&mut strong, 2.0);
    for (winsize, use_gaussian) in [(1u32, false), (3, false), (5, true)] {
        let params = FarnebackParams {
            winsize,
            use_gaussian,
            ..default_params()
        };
        let before = frame_determinants::<Ieee<Linear>>(&weak, &params);
        let after = frame_determinants::<Ieee<Linear>>(&strong[0], &params);
        assert!(!before.is_empty());
        let grown: Vec<f32> = before.iter().map(|d| 16.0 * d).collect();
        assert_eq!(after, grown, "window of {winsize}");
    }
}

#[test]
fn levels_that_a_gain_takes_over_the_threshold_add_determinants() {
    let mut params = default_params();
    params.winsize = 1;
    let mut frames = vec![zeros(1, 1)];
    frames[0].data = vec![1.0];
    assert!(frame_determinants::<Exact>(&frames[0], &params).is_empty());
    apply_gain::<Exact>(&mut frames, 2.0);
    assert_eq!(frame_determinants::<Exact>(&frames[0], &params), vec![4.0]);
}

// ---------------------------------------------------------------------------
// From determinants to a gain
// ---------------------------------------------------------------------------

#[test]
fn gain_is_the_fourth_root_of_the_shortfall() {
    // The target is 100 / 128.
    let target = 0.78125f32;
    assert_eq!(gain_for_determinant::<Exact>(target), 1.0);
    assert_eq!(gain_for_determinant::<Exact>(target * 2.0), 1.0);
    assert_eq!(gain_for_determinant::<Exact>(f32::INFINITY), 1.0);
    assert_eq!(gain_for_determinant::<Exact>(target / 16.0), 2.0);
    assert_eq!(gain_for_determinant::<Exact>(target / 81.0), 3.0);
    assert_eq!(gain_for_determinant::<Exact>(target / 4096.0), 8.0);
    assert_eq!(gain_for_determinant::<Exact>(target / 1e9), 8.0);
}

#[test]
fn gain_brings_the_determinant_to_the_target() {
    let target = 0.78125f32;
    for shortfall in [1.0f32, 16.0, 256.0, 4096.0] {
        let det = target / shortfall;
        let gain = gain_for_determinant::<Exact>(det);
        assert_eq!(gain * gain * gain * gain * det, target);
    }
}

#[test]
fn every_gain_is_a_number_within_bounds() {
    let mut det = f32::MIN_POSITIVE;
    while det < f32::INFINITY {
        let gain = gain_for_determinant::<Exact>(det);
        assert!((1.0..=MAX_GAIN as f32).contains(&gain), "{det}: {gain}");
        det *= 1.9;
    }
}

#[test]
fn weaker_distributions_get_no_less_gain() {
    let target = 0.78125f32;
    let strong: Vec<f32> = (1..60).map(|i| target / (i * i) as f32).collect();
    let least = gain_for_determinants::<Exact>(&strong);
    for k in 1..30usize {
        let weak: Vec<f32> = strong
            .iter()
            .enumerate()
            .map(|(i, d)| d / (1 + (i * k) % 7) as f32)
            .collect();
        let gain = gain_for_determinants::<Exact>(&weak);
        assert!(gain >= least, "{k}");
    }
}

#[test]
fn gain_is_sized_against_the_median() {
    let target = 0.78125f32;
    let (one, two, eight) = (target, target / 16.0, target / 1e9);
    assert_eq!(gain_for_determinants::<Exact>(&[]), 1.0);
    assert_eq!(gain_for_determinants::<Exact>(&[two]), 2.0);
    // With two values the upper one counts.
    assert_eq!(gain_for_determinants::<Exact>(&[one, eight]), 1.0);
    assert_eq!(gain_for_determinants::<Exact>(&[eight, one]), 1.0);
    assert_eq!(gain_for_determinants::<Exact>(&[one, eight, two]), 2.0);
    assert_eq!(
        gain_for_determinants::<Exact>(&[eight, one, eight, two, one]),
        2.0
    );
    assert_eq!(
        gain_for_determinants::<Exact>(&[eight, eight, one, eight, two]),
        8.0
    );
}

#[test]
fn gain_ignores_the_order_of_determinants() {
    let target = 0.78125f32;
    let mut dets: Vec<f32> = (1..100).map(|i| target / (i as f32)).collect();
    let gain = gain_for_determinants::<Exact>(&dets);
    dets.reverse();
    assert_eq!(gain_for_determinants::<Exact>(&dets), gain);
    dets.swap(3, 77);
    dets.swap(0, 50);
    assert_eq!(gain_for_determinants::<Exact>(&dets), gain);
    assert!(gain > 1.0);
}

#[test]
fn percentile_place_rounds_half_up() {
    for len in [1usize, 2, 3, 4, 5, 10, 11, 199, 200, 201, 65_536, 524_288, 1 << 40] {
        let expected = ((len - 1) as f64 * 0.50).round() as usize;
        assert_eq!(percentile_place(len), expected, "{len}");
        assert_eq!(percentile_place(len), len / 2);
    }
    assert_eq!(percentile_place(usize::MAX), usize::MAX / 2);
}

#[test]
fn order_keys_follow_the_total_order() {
    let values = [
        f32::NEG_INFINITY,
        -2.5,
        -0.0,
        0.0,
        f32::MIN_POSITIVE,
        1.0,
        3.5,
        f32::INFINITY,
    ];
    for a in values {
        assert_eq!(Exact::from_order_key(Exact::order_key(a)).to_bits(), a.to_bits());
        for b in values {
            assert_eq!(
                Exact::order_key(a).cmp(&Exact::order_key(b)),
                a.total_cmp(&b)
            );
        }
    }
}

// ---------------------------------------------------------------------------
// Applying a gain
// ---------------------------------------------------------------------------

#[test]
fn apply_gain_changes_levels_and_nothing_else() {
    let mut frames = vec![zeros(3, 1), zeros(0, 5), zeros(1, 2)];
    frames[0].data = vec![1.0, 2.0, -4.0];
    frames[2].data = vec![2.0, 0.5];
    apply_gain::<Exact>(&mut frames, 2.5);
    assert_eq!(frames[0].data, vec![2.5, 5.0, -10.0]);
    assert_eq!((frames[0].width, frames[0].height), (3, 1));
    assert!(frames[1].data.is_empty());
    assert_eq!((frames[1].width, frames[1].height), (0, 5));
    assert_eq!(frames[2].data, vec![5.0, 1.25]);
}

#[test]
fn gains_within_precision_of_one_do_nothing() {
    let mut frames = vec![zeros(1, 1)];
    frames[0].data = vec![3.0];
    apply_gain::<Exact>(&mut frames, 1.0 - f32::EPSILON / 2.0);
    assert_eq!(frames[0].data, vec![3.0]);
    apply_gain::<Exact>(&mut frames, 1.0 + f32::EPSILON);
    assert_eq!(frames[0].data, vec![3.0 * (1.0 + f32::EPSILON)]);
}

#[test]
fn scale_frame_multiplies_each_level() {
    let mut frame = zeros(2, 1);
    frame.data = vec![1.5, -2.0];
    scale_frame::<Exact>(&mut frame, 4.0);
    assert_eq!(frame.data, vec![6.0, -8.0]);
}

#[test]
fn inverse_gain_gives_the_frames_back() {
    let before = textured(16, 16, 4.0);
    let mut frames = vec![textured(16, 16, 4.0), zeros(0, 3), textured(16, 16, 4.0)];
    apply_gain::<Exact>(&mut frames, 4.0);
    assert_ne!(frames[0].data, before.data);
    apply_gain::<Exact>(&mut frames, 0.25);
    assert_eq!(frames[0].data, before.data);
    assert!(frames[1].data.is_empty());
    assert_eq!(frames[2].data, before.data);
    // The other way round, down to the smallest level of full precision.
    let levels = [-0.0f32, 0.0, f32::MIN_POSITIVE * 8.0, -3.7, f32::MAX];
    frames[1].data = levels.to_vec();
    apply_gain::<Exact>(&mut frames, 0.125);
    assert_eq!(frames[1].data[2], f32::MIN_POSITIVE);
    apply_gain::<Exact>(&mut frames, 8.0);
    for (after, level) in frames[1].data.iter().zip(levels) {
        assert_eq!(after.to_bits(), level.to_bits());
    }
}

// ---------------------------------------------------------------------------
// Smoothing
// ---------------------------------------------------------------------------

#[test]
fn smoothing_runs_along_rows_then_columns() {
    let src = [1.0f32, 2.0, 4.0, 8.0, 16.0, 32.0];
    // Rows: [4, 7, 10], [32, 56, 80]; columns: top twice plus bottom, and so on.
    let out = smooth_separable::<Exact>(&src, 3, 2, &[1.0, 1.0, 1.0]);
    assert_eq!(out, vec![40.0, 70.0, 100.0, 68.0, 119.0, 170.0]);
}

#[test]
fn single_tap_scales_and_no_tap_clears() {
    let src = [1.0f32, 2.0, 3.0, 4.0];
    assert_eq!(
        smooth_separable::<Exact>(&src, 2, 2, &[3.0]),
        vec![9.0, 18.0, 27.0, 36.0]
    );
    assert_eq!(
        smooth_separable::<Exact>(&src, 2, 2, &[]),
        vec![0.0, 0.0, 0.0, 0.0]
    );
    // Without taps nothing is read, so the source may be shorter than the image.
    assert_eq!(
        smooth_separable::<Exact>(&src[..1], 3, 2, &[]),
        vec![0.0; 6]
    );
    assert!(smooth_separable::<Exact>(&src, 0, 3, &[1.0]).is_empty());
}

#[test]
fn even_kernels_reach_one_further_back() {
    // Two taps read the position before and the position itself.
    let src = [1.0f32, 10.0, 100.0];
    assert_eq!(
        smooth_separable::<Exact>(&src, 3, 1, &[1.0, 2.0]),
        vec![9.0, 63.0, 630.0]
    );
}

#[test]
fn kernels_longer_than_the_image_read_the_borders() {
    let src = [2.0f32];
    let out = smooth_separable::<Exact>(&src, 1, 1, &[1.0; 31]);
    assert_eq!(out, vec![2.0 * 31.0 * 31.0]);
    let src = [1.0f32, 2.0];
    // Seven taps: position 0 reads 0 0 0 0 1 1 1, position 1 reads 0 0 0 1 1 1 1.
    let out = smooth_separable::<Exact>(&src, 2, 1, &[1.0; 7]);
    assert_eq!(out, vec![70.0, 77.0]);
}

#[test]
fn smoothing_keeps_order_and_sign() {
    let low: Vec<f32> = (0..35).map(|i| ((i * 13) % 17) as f32 * 0.3).collect();
    let high: Vec<f32> = low
        .iter()
        .enumerate()
        .map(|(i, v)| v + ((i * 5) % 3) as f32 * 0.1)
        .collect();
    let kernel = Exact::build_gaussian_1d(5);
    let below = smooth_separable::<Exact>(&low, 7, 5, &kernel);
    let above = smooth_separable::<Exact>(&high, 7, 5, &kernel);
    for (a, b) in below.iter().zip(&above) {
        assert!(0.0 <= *a && a <= b);
    }
}

#[test]
fn smoothing_treats_rows_and_columns_alike() {
    let (w, h) = (4usize, 3usize);
    let src: Vec<f32> = (0..12).map(|i| ((i * 5) % 13) as f32 - 6.0).collect();
    let turn = |img: &[f32], w: usize, h: usize| -> Vec<f32> {
        (0..w * h).map(|i| img[i % h * w + i / h]).collect()
    };
    for kernel in [vec![1.0f32, -2.0, 4.0], vec![3.0, 1.0], vec![1.0; 9]] {
        let straight = smooth_separable::<Exact>(&src, w, h, &kernel);
        let turned = smooth_separable::<Exact>(&turn(&src, w, h), h, w, &kernel);
        assert_eq!(turned, turn(&straight, w, h));
    }
    assert_eq!(turn(&[1.0, 2.0, 3.0, 4.0, 5.0, 6.0], 3, 2), vec![1.0, 4.0, 2.0, 5.0, 3.0, 6.0]);
}

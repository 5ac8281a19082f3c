//! What is measured, and the order of keys.
use flow_contrast::order::sort_keys;
use flow_contrast::sampling::{
    concurrent_frames, group_end, sample_indices, sample_stride, SAMPLES_PER_FRAME, SAMPLE_FRAMES,
    SCRATCH_BUDGET_BYTES, SCRATCH_BYTES_PER_PX,
};
use flow_contrast::smooth::tap_position;

#[test]
fn frames_are_spread_evenly() {
    assert_eq!(sample_indices(0), Vec::<usize>::new());
    assert_eq!(sample_indices(1), vec![0]);
    assert_eq!(sample_indices(3), vec![0, 1, 2]);
    assert_eq!(sample_indices(8), vec![0, 1, 2, 3, 4, 5, 6, 7]);
    assert_eq!(sample_indices(9), vec![0, 1, 2, 3, 4, 5, 6, 7]);
    assert_eq!(sample_indices(12), vec![0, 1, 3, 4, 6, 7, 9, 10]);
    assert_eq!(sample_indices(15), vec![0, 1, 3, 5, 7, 9, 11, 13]);
    assert_eq!(sample_indices(100), vec![0, 12, 25, 37, 50, 62, 75, 87]);
}

#[test]
fn neighbouring_samples_are_equally_far_apart() {
    for len in 1..200usize {
        let indices = sample_indices(len);
        assert_eq!(indices[0], 0);
        let even = len / indices.len();
        for pair in indices.windows(2) {
            let gap = pair[1] - pair[0];
            assert!(gap == even || gap == even + 1, "{len}: {gap}");
        }
        assert!(len - indices[indices.len() - 1] <= even + 1);
    }
}

#[test]
fn sequences_of_any_length_are_sampled_without_overflow() {
    let indices = sample_indices(usize::MAX);
    assert_eq!(indices.len(), SAMPLE_FRAMES);
    for (i, index) in indices.iter().enumerate() {
        assert_eq!(*index as u128, i as u128 * usize::MAX as u128 / 8);
    }
}

#[test]
fn stride_is_the_rounded_up_root() {
    assert_eq!(sample_stride(0), 1);
    assert_eq!(sample_stride(1), 1);
    assert_eq!(sample_stride(SAMPLES_PER_FRAME), 1);
    assert_eq!(sample_stride(SAMPLES_PER_FRAME + 1), 2);
    assert_eq!(sample_stride(4 * SAMPLES_PER_FRAME), 2);
    assert_eq!(sample_stride(4 * SAMPLES_PER_FRAME + 1), 3);
    assert_eq!(sample_stride(1 << 32), 256);
    assert_eq!(sample_stride((1 << 32) + 1), 257);
    assert_eq!(sample_stride(usize::MAX), 1 << 24);
}

#[test]
fn stride_agrees_with_double_precision() {
    let float = |n: usize| {
        ((n as f64 / SAMPLES_PER_FRAME as f64).sqrt().ceil() as usize).max(1)
    };
    for k in 0..700usize {
        let square = k * k * SAMPLES_PER_FRAME;
        for n in [square, square + 1, square.saturating_sub(1), square + 40_000] {
            assert_eq!(sample_stride(n), float(n), "{n}");
        }
    }
    let k = (1usize << 18) - 1;
    for n in [1usize << 52, k * k * SAMPLES_PER_FRAME, k * k * SAMPLES_PER_FRAME + 1] {
        assert_eq!(sample_stride(n), float(n), "{n}");
    }
}

#[test]
fn groups_end_after_so_many_frames_or_at_the_end() {
    assert_eq!(group_end(0, 8, 3), 3);
    assert_eq!(group_end(3, 8, 3), 6);
    assert_eq!(group_end(6, 8, 3), 8);
    assert_eq!(group_end(0, 8, 8), 8);
    assert_eq!(group_end(0, 2, 8), 2);
    assert_eq!(group_end(5, 5, 1), 5);
    assert_eq!(group_end(1, usize::MAX, usize::MAX), usize::MAX);
}

#[test]
fn concurrency_never_rises_with_size() {
    let mut last = SAMPLE_FRAMES;
    for shift in 0..40 {
        let n = concurrent_frames(1usize << shift);
        assert!(n <= last);
        last = n;
    }
    assert_eq!(last, 1);
}

#[test]
fn concurrent_frames_fit_the_budget() {
    for pixels in [1usize, 1000, 1 << 20, 1_500_000, 3_000_000, 1 << 22, 8_388_608] {
        let bytes = pixels * SCRATCH_BYTES_PER_PX;
        assert!(bytes <= SCRATCH_BUDGET_BYTES);
        assert!(concurrent_frames(pixels) * bytes <= SCRATCH_BUDGET_BYTES);
    }
    assert_eq!(concurrent_frames(3_000_000), 2);
    assert_eq!(concurrent_frames(2_000_000), 4);
    assert_eq!(concurrent_frames(8_388_609), 1);
}

#[test]
fn taps_are_pinned_to_the_line() {
    // Five taps on a line of four positions.
    let read: Vec<Vec<usize>> = (0..4)
        .map(|pos| (0..5).map(|j| tap_position(pos, j, 5, 3)).collect())
        .collect();
    assert_eq!(
        read,
        vec![
            vec![0, 0, 0, 1, 2],
            vec![0, 0, 1, 2, 3],
            vec![0, 1, 2, 3, 3],
            vec![1, 2, 3, 3, 3],
        ]
    );
    assert_eq!(tap_position(0, 40, 41, 0), 0);
    assert_eq!(tap_position(5, usize::MAX, 3, 9), 9);
}

#[test]
fn keys_are_sorted_ascending() {
    let mut keys = vec![5, -3, 9, 0, 5, i32::MIN, i32::MAX];
    sort_keys(&mut keys);
    assert_eq!(keys, vec![i32::MIN, -3, 0, 5, 5, 9, i32::MAX]);
    let mut none: Vec<i32> = Vec::new();
    sort_keys(&mut none);
    assert!(none.is_empty());
}

#[test]
fn full_cells_stay_within_the_target() {
    for (w, h) in [(256usize, 256usize), (257, 256), (1920, 1080), (4096, 4096), (1, 1 << 24)] {
        let s = sample_stride(w * h);
        assert!((w / s) * (h / s) <= SAMPLES_PER_FRAME, "{w} by {h}");
    }
}

use lowpass_filter::{
    frame_signal, keeps_bin, lowpass_window, mask_bins, overlap_add, schedule_windows,
    single_pass_lowpass, smooth, smoothed_lowpass, two_pass_lowpass, BinMask,
};
use rustfft::num_complex::Complex;
use rustfft::FftPlanner;

const TOLERANCE: f32 = 1e-4;

fn forward_transform(window: Vec<f32>) -> Vec<Complex<f32>> {
    let mut buf: Vec<Complex<f32>> = window.iter().map(|x| Complex { re: *x, im: 0.0 }).collect();
    let mut planner = FftPlanner::<f32>::new();
    planner.plan_fft_forward(buf.len()).process(&mut buf);
    buf
}

fn inverse_transform(spectrum: Vec<Complex<f32>>) -> Vec<f32> {
    let mut buf = spectrum;
    let n = buf.len();
    let mut planner = FftPlanner::<f32>::new();
    planner.plan_fft_inverse(n).process(&mut buf);
    buf.iter().map(|c| c.re / n as f32).collect()
}

fn filter_one(window: Vec<f32>, mask: BinMask, cutoff: usize) -> Vec<f32> {
    let zero = Complex { re: 0.0, im: 0.0 };
    lowpass_window(window, mask, cutoff, zero, &forward_transform, &inverse_transform)
}

fn assert_close(a: &[f32], b: &[f32]) {
    assert_eq!(a.len(), b.len());
    for (x, y) in a.iter().zip(b.iter()) {
        assert!((x - y).abs() <= TOLERANCE, "{:?} vs {:?}", a, b);
    }
}

fn energy(v: &[f32]) -> f32 {
    v.iter().map(|x| x * x).sum()
}

fn blend(shifted: f32, primary: f32, weight: f32) -> f32 {
    shifted * weight + primary * (1.0 - weight)
}

#[test]
fn framing_pads_to_next_multiple_with_zeros() {
    let s = vec![1.0f32, 2.0, 3.0, 4.0, 5.0];
    let framed = frame_signal(&s, 4, 0.0);
    assert_eq!(framed, vec![1.0, 2.0, 3.0, 4.0, 5.0, 0.0, 0.0, 0.0]);
    let framed = frame_signal(&s, 3, 0.0);
    assert_eq!(framed, vec![1.0, 2.0, 3.0, 4.0, 5.0, 0.0]);
}

#[test]
fn framing_keeps_exact_multiples_and_empty_signals() {
    let s = vec![1.0f32, 2.0, 3.0, 4.0];
    assert_eq!(frame_signal(&s, 4, 0.0), s);
    assert_eq!(frame_signal(&s, 1, 0.0), s);
    let empty: Vec<f32> = vec![];
    assert!(frame_signal(&empty, 8, 0.0).is_empty());
}

#[test]
fn framing_lengths_for_many_sizes() {
    for len in 0..20usize {
        let s = vec![0.25f32; len];
        for w in 1..9usize {
            let framed = frame_signal(&s, w, 0.0);
            assert_eq!(framed.len() % w, 0);
            assert!(framed.len() >= len && framed.len() < len + w);
            assert!(framed[len..].iter().all(|x| *x == 0.0));
            assert_eq!(&framed[..len], &s[..]);
        }
    }
}

#[test]
fn truncating_mask_zeroes_from_cutoff() {
    let mut bins = vec![1, 2, 3, 4, 5, 6, 7, 8];
    mask_bins(&mut bins, BinMask::Truncating, 3, 0);
    assert_eq!(bins, vec![1, 2, 3, 0, 0, 0, 0, 0]);
}

#[test]
fn mirrored_mask_keeps_mirror_bins() {
    let mut bins = vec![1, 2, 3, 4, 5, 6, 7, 8];
    mask_bins(&mut bins, BinMask::Mirrored, 3, 0);
    assert_eq!(bins, vec![1, 2, 3, 0, 0, 0, 7, 8]);
    assert!(keeps_bin(BinMask::Mirrored, 8, 3, 7));
    assert!(!keeps_bin(BinMask::Truncating, 8, 3, 7));
    assert!(!keeps_bin(BinMask::Mirrored, 8, 0, 0));
}

#[test]
fn mask_with_full_and_zero_cutoff() {
    for mask in [BinMask::Truncating, BinMask::Mirrored] {
        let mut bins = vec![1, 2, 3, 4];
        mask_bins(&mut bins, mask, 4, 0);
        assert_eq!(bins, vec![1, 2, 3, 4]);
        mask_bins(&mut bins, mask, 0, 0);
        assert_eq!(bins, vec![0, 0, 0, 0]);
    }
}

#[test]
fn full_cutoff_round_trips_a_window() {
    let w = vec![0.3f32, -0.7, 0.1, 0.9, -0.2, 0.5, 0.0, -1.0];
    assert_close(&filter_one(w.clone(), BinMask::Truncating, 8), &w);
    assert_close(&filter_one(w.clone(), BinMask::Mirrored, 8), &w);
}

#[test]
fn constant_window_survives_any_positive_cutoff() {
    let c = 0.42f32;
    let w = vec![c; 8];
    for cutoff in 1..=8 {
        assert_close(&filter_one(w.clone(), BinMask::Truncating, cutoff), &vec![c; 8]);
    }
}

#[test]
fn filtering_never_adds_energy() {
    let w = vec![0.3f32, -0.7, 0.1, 0.9, -0.2, 0.5, 0.0, -1.0];
    for cutoff in 0..8 {
        for mask in [BinMask::Truncating, BinMask::Mirrored] {
            let out = filter_one(w.clone(), mask, cutoff);
            assert!(energy(&out) <= energy(&w) + TOLERANCE);
        }
    }
}

#[test]
fn scheduler_output_length_and_window_independence() {
    let filter = |w: Vec<f32>| filter_one(w, BinMask::Truncating, 2);
    let a = vec![1.0f32, 0.0, 0.5, 0.0, 0.2, 0.3, 0.4, 0.5, 9.0];
    let out_a = schedule_windows(&a, 2, 4, 0, &filter);
    assert_eq!(out_a.len(), 8);
    let mut b = a.clone();
    b[5] = -3.0;
    b[8] = 7.0;
    let out_b = schedule_windows(&b, 2, 4, 0, &filter);
    assert_eq!(&out_a[..4], &out_b[..4]);
    assert_ne!(&out_a[4..], &out_b[4..]);
    let shifted = schedule_windows(&a, 1, 4, 1, &filter);
    assert_close(&shifted, &filter_one(a[1..5].to_vec(), BinMask::Truncating, 2));
}

#[test]
fn scheduler_with_no_windows_is_empty() {
    let filter = |w: Vec<f32>| w;
    let s: Vec<f32> = vec![];
    assert!(schedule_windows(&s, 0, 4, 0, &filter).is_empty());
}

#[test]
fn overlap_add_blends_only_the_covered_span() {
    let primary: Vec<f32> = (0..12).map(|i| i as f32).collect();
    let shifted: Vec<f32> = (0..8).map(|i| 100.0 + i as f32).collect();
    let taper = vec![0.0f32, 0.5, 1.0, 0.5];
    let out = overlap_add(&primary, &shifted, &taper, &blend);
    assert_eq!(out.len(), 12);
    assert_eq!(out[0], 0.0);
    assert_eq!(out[1], 1.0);
    assert_eq!(out[2], 51.5);
    assert_eq!(out[3], 102.0);
    assert_eq!(out[4], 53.5);
    assert_eq!(out[5], 5.0);
    assert_eq!(out[8], 57.5);
    for j in [0usize, 10, 11] {
        assert_eq!(out[j], primary[j]);
    }
}

#[test]
fn smoother_follows_the_recurrence() {
    let alpha = 0.5f32;
    let step = |x: f32, y: f32| alpha * x + (1.0 - alpha) * y;
    assert_eq!(smooth(&vec![1.0f32, 0.0, 0.0], &step), vec![1.0, 0.5, 0.25]);
    assert!(smooth(&Vec::<f32>::new(), &step).is_empty());
}

#[test]
fn smoother_keeps_first_sample_and_converges_on_constants() {
    let alpha = 2.0f32 / 17.0;
    let step = |x: f32, y: f32| alpha * x + (1.0 - alpha) * y;
    let input = vec![0.8f32; 200];
    let out = smooth(&input, &step);
    assert_eq!(out.len(), 200);
    assert_eq!(out[0], input[0]);
    assert!((out[199] - 0.8).abs() <= TOLERANCE);
}

#[test]
fn pass_through_cutoff_reproduces_the_signal() {
    let s = vec![1.0f32, 0.0, 0.0, 0.0, 1.0, 0.0, 0.0, 0.0];
    let filter = |w: Vec<f32>| filter_one(w, BinMask::Truncating, 4);
    assert_close(&single_pass_lowpass(&s, 4, 0.0, &filter), &s);
    let taper = vec![0.0f32, 0.5, 1.0, 0.5];
    assert_close(&two_pass_lowpass(&s, &taper, 0.0, &filter, &blend), &s);
}

#[test]
fn zero_cutoff_silences_the_signal() {
    let s = vec![1.0f32, 0.0, 0.0, 0.0, 1.0, 0.0, 0.0, 0.0];
    let filter = |w: Vec<f32>| filter_one(w, BinMask::Truncating, 0);
    assert_close(&single_pass_lowpass(&s, 4, 0.0, &filter), &[0.0; 8]);
    let taper = vec![0.0f32, 0.5, 1.0, 0.5];
    assert_close(&two_pass_lowpass(&s, &taper, 0.0, &filter, &blend), &[0.0; 8]);
}

#[test]
fn pipelines_pad_and_handle_empty_input() {
    let filter = |w: Vec<f32>| filter_one(w, BinMask::Truncating, 4);
    let taper = vec![0.0f32, 0.5, 1.0, 0.5];
    let empty: Vec<f32> = vec![];
    assert!(two_pass_lowpass(&empty, &taper, 0.0, &filter, &blend).is_empty());
    let s = vec![1.0f32, 2.0, 3.0, 4.0, 5.0];
    let out = two_pass_lowpass(&s, &taper, 0.0, &filter, &blend);
    assert_close(&out, &[1.0, 2.0, 3.0, 4.0, 5.0, 0.0, 0.0, 0.0]);
    let step = |x: f32, y: f32| 0.5 * x + 0.5 * y;
    let out = smoothed_lowpass(&vec![1.0f32, 0.0, 0.0], 4, 0.0, &filter, &step);
    assert_close(&out, &[1.0, 0.5, 0.25, 0.125]);
}

use vstd::prelude::*;
use crate::framer::{frame_signal, framed, framed_len};
use crate::reconstruct::{blended, overlap_add, shift_of, smooth, smoothed};
use crate::scheduler::{length_preserving, schedule_windows, scheduled};

verus! {

/// The number of whole windows in `signal` once framed.
pub open spec fn window_count(len: nat, window_size: nat) -> nat {
    framed_len(len, window_size) / window_size
}

/// The number of windows of the phase-shifted pass: one fewer than the
/// primary pass, none for an empty signal.
pub open spec fn shifted_count(len: nat, window_size: nat) -> nat {
    if window_count(len, window_size) == 0 {
        0
    } else {
        (window_count(len, window_size) - 1) as nat
    }
}

proof fn lemma_framed_windows(len: nat, w: nat)
    requires
        w > 0,
    ensures
        framed_len(len, w) == window_count(len, w) * w,
        window_count(len, w) > 0 ==> shift_of(w) + shifted_count(len, w) * w <= framed_len(len, w),
{
    let f = framed_len(len, w);
    let n = window_count(len, w);
    let r = len % w;
    let q = len / w;
    assert(len == q * w + r && r < w) by (nonlinear_arith)
        requires
            w > 0,
            q == len / w,
            r == len % w,
    ;
    if r == 0 {
        assert(f == q * w);
    } else {
        assert(f == (q + 1) * w) by (nonlinear_arith)
            requires
                f == len + (w - r),
                len == q * w + r,
        ;
    }
    assert(f == n * w) by (nonlinear_arith)
        requires
            w > 0,
            n == f / w,
            f == q * w || f == (q + 1) * w,
    ;
    if n > 0 {
        assert(((n - 1) as nat) * w + w == n * w) by (nonlinear_arith)
            requires
                n > 0,
        ;
    }
}

/// Frames `signal` into windows of `window_size` samples and filters each
/// window once, with no blending at the window boundaries.
pub fn single_pass_lowpass<T: Copy, F: Fn(Vec<T>) -> Vec<T>>(
    signal: &Vec<T>,
    window_size: usize,
    silence: T,
    filter: &F,
) -> (r: Vec<T>)
    requires
        window_size > 0,
        framed_len(signal@.len(), window_size as nat) <= usize::MAX,
        length_preserving(*filter, window_size as nat),
    ensures
        r@.len() == framed_len(signal@.len(), window_size as nat),
        scheduled(
            framed(signal@, window_size as nat, silence),
            window_count(signal@.len(), window_size as nat),
            window_size as nat,
            0,
            *filter,
            r@,
        ),
{
    let framed_signal = frame_signal(signal, window_size, silence);
    proof {
        lemma_framed_windows(signal@.len(), window_size as nat);
    }
    let n = framed_signal.len() / window_size;
    schedule_windows(&framed_signal, n, window_size, 0, filter)
}

/// The two-pass lowpass: frames `signal` into windows of `W` samples (the
/// taper's length), filters them once from the start (the primary pass) and
/// once from `W/2 - 1` on with one window fewer (the shifted pass), and
/// cross-fades the shifted pass into the primary one with `overlap_add`.
/// The result has the framed length.
pub fn two_pass_lowpass<T: Copy, C: Copy, F: Fn(Vec<T>) -> Vec<T>, M: Fn(T, T, C) -> T>(
    signal: &Vec<T>,
    taper: &Vec<C>,
    silence: T,
    filter: &F,
    mix: &M,
) -> (r: Vec<T>)
    requires
        taper@.len() >= 2,
        framed_len(signal@.len(), taper@.len()) <= usize::MAX,
        length_preserving(*filter, taper@.len()),
        forall|a: T, b: T, c: C| #[trigger] call_requires(*mix, (a, b, c)),
    ensures
        r@.len() == framed_len(signal@.len(), taper@.len()),
        exists|primary: Seq<T>, shifted: Seq<T>|
            scheduled(
                framed(signal@, taper@.len(), silence),
                window_count(signal@.len(), taper@.len()),
                taper@.len(),
                0,
                *filter,
                primary,
            ) && scheduled(
                framed(signal@, taper@.len(), silence),
                shifted_count(signal@.len(), taper@.len()),
                taper@.len(),
                shift_of(taper@.len()) as nat,
                *filter,
                shifted,
            ) && #[trigger] blended(primary, shifted, taper@, *mix, r@),
{
    let window_size = taper.len();
    let framed_signal = frame_signal(signal, window_size, silence);
    proof {
        lemma_framed_windows(signal@.len(), window_size as nat);
    }
    let n = framed_signal.len() / window_size;
    if n == 0 {
        let r: Vec<T> = Vec::new();
        assert(blended(Seq::<T>::empty(), Seq::<T>::empty(), taper@, *mix, r@));
        return r;
    }
    let primary = schedule_windows(&framed_signal, n, window_size, 0, filter);
    let m: usize = n - 1;
    let h: usize = window_size / 2 - 1;
    let shifted = schedule_windows(&framed_signal, m, window_size, h, filter);
    proof {
        assert((m as nat) * (window_size as nat) + (window_size as nat) == (n as nat) * (
        window_size as nat)) by (nonlinear_arith)
            requires
                m + 1 == n,
        ;
    }
    let r = overlap_add(&primary, &shifted, taper, mix);
    assert(blended(primary@, shifted@, taper@, *mix, r@));
    r
}

/// The cheaper alternative to overlap-add: frames and filters `signal` in a
/// single pass, then runs the result through the smoother `step`.
pub fn smoothed_lowpass<T: Copy, F: Fn(Vec<T>) -> Vec<T>, S: Fn(T, T) -> T>(
    signal: &Vec<T>,
    window_size: usize,
    silence: T,
    filter: &F,
    step: &S,
) -> (r: Vec<T>)
    requires
        window_size > 0,
        framed_len(signal@.len(), window_size as nat) <= usize::MAX,
        length_preserving(*filter, window_size as nat),
        forall|x: T, y: T| #[trigger] call_requires(*step, (x, y)),
    ensures
        r@.len() == framed_len(signal@.len(), window_size as nat),
        exists|filtered: Seq<T>|
            scheduled(
                framed(signal@, window_size as nat, silence),
                window_count(signal@.len(), window_size as nat),
                window_size as nat,
                0,
                *filter,
                filtered,
            ) && #[trigger] smoothed(filtered, *step, r@),
{
    let filtered = single_pass_lowpass(signal, window_size, silence, filter);
    let r = smooth(&filtered, step);
    assert(smoothed(filtered@, *step, r@));
    r
}

} // verus!

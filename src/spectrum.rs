use vstd::prelude::*;

verus! {

/// Which frequency bins a lowpass keeps for a given cutoff.
#[derive(Clone, Copy, Debug, PartialEq, Eq, Structural)]
pub enum BinMask {
    /// Keeps the bins below the cutoff and zeroes every bin from the cutoff
    /// to the end of the window, mirrored high bins included.
    Truncating,
    /// Keeps the bins below the cutoff and their mirror images above the
    /// Nyquist bin, as a lowpass of a real-valued signal should.
    Mirrored,
}

/// Whether bin `k` of a window of `window_size` bins survives `cutoff`.
pub open spec fn bin_kept(mask: BinMask, window_size: nat, cutoff: nat, k: nat) -> bool {
    match mask {
        BinMask::Truncating => k < cutoff,
        BinMask::Mirrored => k < cutoff || (cutoff > 0 && k + cutoff > window_size),
    }
}

/// The spectrum `bins` with every bin that `mask` drops replaced by `zero`.
pub open spec fn masked<T>(bins: Seq<T>, mask: BinMask, cutoff: nat, zero: T) -> Seq<T> {
    Seq::new(
        bins.len(),
        |k: int| if bin_kept(mask, bins.len(), cutoff, k as nat) { bins[k] } else { zero },
    )
}

/// Decides whether bin `k` of a window of `window_size` bins survives `cutoff`.
pub fn keeps_bin(mask: BinMask, window_size: usize, cutoff: usize, k: usize) -> (r: bool)
    requires
        cutoff <= window_size,
        k < window_size,
    ensures
        r == bin_kept(mask, window_size as nat, cutoff as nat, k as nat),
{
    match mask {
        BinMask::Truncating => k < cutoff,
        BinMask::Mirrored => k < cutoff || (cutoff > 0 && k > window_size - cutoff),
    }
}

/// Replaces every bin of the spectrum `bins` that `mask` drops for `cutoff`
/// by `zero`, leaving the kept bins as they were.
pub fn mask_bins<T: Copy>(bins: &mut Vec<T>, mask: BinMask, cutoff: usize, zero: T)
    requires
        cutoff <= old(bins)@.len(),
    ensures
        final(bins)@ == masked(old(bins)@, mask, cutoff as nat, zero),
{
    let n = bins.len();
    let mut k: usize = 0;
    while k < n
        invariant
            n == bins@.len(),
            n == old(bins)@.len(),
            cutoff <= n,
            k <= n,
            forall|j: int| 0 <= j < k ==> bins@[j] == masked(old(bins)@, mask, cutoff as nat, zero)[j],
            forall|j: int| k <= j < n ==> bins@[j] == old(bins)@[j],
        decreases n - k,
    {
        if !keeps_bin(mask, n, cutoff, k) {
            bins.set(k, zero);
        }
        k = k + 1;
    }
    assert(bins@ =~= masked(old(bins)@, mask, cutoff as nat, zero));
}

/// `window` lowpass-filtered to `out`: some spectrum that `forward` may give
/// for `window`, masked, is a spectrum that `inverse` may turn into `out`.
pub open spec fn lowpassed<T, B, Fw: Fn(Vec<T>) -> Vec<B>, Inv: Fn(Vec<B>) -> Vec<T>>(
    window: Seq<T>,
    mask: BinMask,
    cutoff: nat,
    zero: B,
    forward: Fw,
    inverse: Inv,
    out: Seq<T>,
) -> bool {
    exists|w: Vec<T>, spectrum: Vec<B>, m: Vec<B>, r: Vec<T>|
        w@ == window && #[trigger] call_ensures(forward, (w,), spectrum) && m@ == masked(
            spectrum@,
            mask,
            cutoff,
            zero,
        ) && #[trigger] call_ensures(inverse, (m,), r) && r@ == out
}

/// `f` accepts every sequence of `n` elements and hands back as many.
pub open spec fn keeps_length<A, B, F: Fn(Vec<A>) -> Vec<B>>(f: F, n: nat) -> bool {
    &&& forall|v: Vec<A>| v@.len() == n ==> #[trigger] call_requires(f, (v,))
    &&& forall|v: Vec<A>, r: Vec<B>| #[trigger] call_ensures(f, (v,), r) ==> r@.len() == v@.len()
}

/// Lowpass-filters one window: `forward` transforms it to a spectrum, the
/// bins that `mask` drops for `cutoff` are set to `zero`, and `inverse`
/// transforms back (scaling included, so that a round trip without
/// masking gives the window back).
pub fn lowpass_window<T, B: Copy, Fw: Fn(Vec<T>) -> Vec<B>, Inv: Fn(Vec<B>) -> Vec<T>>(
    window: Vec<T>,
    mask: BinMask,
    cutoff: usize,
    zero: B,
    forward: &Fw,
    inverse: &Inv,
) -> (r: Vec<T>)
    requires
        cutoff <= window@.len(),
        keeps_length(*forward, window@.len()),
        keeps_length(*inverse, window@.len()),
    ensures
        r@.len() == window@.len(),
        lowpassed(window@, mask, cutoff as nat, zero, *forward, *inverse, r@),
{
    let ghost w = window;
    let mut spectrum = forward(window);
    let ghost sp = spectrum;
    mask_bins(&mut spectrum, mask, cutoff, zero);
    let ghost m = spectrum;
    let r = inverse(spectrum);
    assert(call_ensures(*forward, (w,), sp) && call_ensures(*inverse, (m,), r));
    r
}

/// With transforms that undo each other, filtering at a cutoff equal to the
/// window size hands the window back unchanged.
pub proof fn lemma_full_cutoff_round_trip<T, B, Fw: Fn(Vec<T>) -> Vec<B>, Inv: Fn(Vec<B>) -> Vec<T>>(
    window: Seq<T>,
    mask: BinMask,
    zero: B,
    forward: Fw,
    inverse: Inv,
    out: Seq<T>,
)
    requires
        keeps_length(forward, window.len()),
        forall|w: Vec<T>, s: Vec<B>, m: Vec<B>, r: Vec<T>|
            #[trigger] call_ensures(forward, (w,), s) && m@ == s@ && #[trigger] call_ensures(
                inverse,
                (m,),
                r,
            ) ==> r@ == w@,
        lowpassed(window, mask, window.len(), zero, forward, inverse, out),
    ensures
        out == window,
{
    let (w, s, m, r) = choose|w: Vec<T>, s: Vec<B>, m: Vec<B>, r: Vec<T>|
        w@ == window && #[trigger] call_ensures(forward, (w,), s) && m@ == masked(
            s@,
            mask,
            window.len(),
            zero,
        ) && #[trigger] call_ensures(inverse, (m,), r) && r@ == out;
    lemma_full_cutoff_keeps_all(s@, mask, zero);
}

/// With the cutoff at the window size, no bin is dropped: the spectrum
/// comes back unchanged, whichever mask is used.
pub proof fn lemma_full_cutoff_keeps_all<T>(bins: Seq<T>, mask: BinMask, zero: T)
    ensures
        masked(bins, mask, bins.len(), zero) == bins,
{
    assert(masked(bins, mask, bins.len(), zero) =~= bins);
}

/// A zero cutoff drops every bin, the constant (DC) bin included.
pub proof fn lemma_zero_cutoff_drops_all<T>(bins: Seq<T>, mask: BinMask, zero: T)
    ensures
        forall|k: int| 0 <= k < bins.len() ==> #[trigger] masked(bins, mask, 0, zero)[k] == zero,
{
}

/// Any cutoff of at least one keeps the constant (DC) bin.
pub proof fn lemma_positive_cutoff_keeps_dc<T>(bins: Seq<T>, mask: BinMask, cutoff: nat, zero: T)
    requires
        cutoff >= 1,
        bins.len() > 0,
    ensures
        masked(bins, mask, cutoff, zero)[0] == bins[0],
{
}

/// Masking only ever replaces bins by `zero`: each bin of the result is
/// either the input bin or `zero`.
pub proof fn lemma_mask_only_zeroes<T>(bins: Seq<T>, mask: BinMask, cutoff: nat, zero: T)
    ensures
        forall|k: int|
            0 <= k < bins.len() ==> {
                let m = #[trigger] masked(bins, mask, cutoff, zero)[k];
                m == bins[k] || m == zero
            },
{
}

} // verus!

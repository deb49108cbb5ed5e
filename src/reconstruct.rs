use vstd::prelude::*;

verus! {

/// Where the phase-shifted pass starts within the primary pass: just before
/// the middle of the first window.
pub open spec fn shift_of(window_size: nat) -> int {
    window_size / 2 - 1
}

/// `out` is `primary` with each sample that the shifted pass covers replaced
/// by `mix` of the shifted sample, the primary sample and the taper weight
/// for that position within its window; every other sample is `primary`'s.
pub open spec fn blended<T, C, F: Fn(T, T, C) -> T>(
    primary: Seq<T>,
    shifted: Seq<T>,
    taper: Seq<C>,
    mix: F,
    out: Seq<T>,
) -> bool {
    let h = shift_of(taper.len());
    &&& out.len() == primary.len()
    &&& forall|j: int|
        0 <= j < out.len() ==> if h <= j < h + shifted.len() {
            call_ensures(mix, (shifted[j - h], primary[j], taper[(j - h) % (taper.len() as int)]), #[trigger] out[j])
        } else {
            out[j] == primary[j]
        }
}

/// Cross-fades the phase-shifted pass `shifted` into the primary pass
/// `primary`. The window size is the taper's length `W`; shifted sample `i`
/// lands on primary index `i + W/2 - 1`, weighted by `taper[i % W]`, and
/// `mix(shifted, primary, weight)` gives the blended sample. Samples that
/// the shifted pass does not reach pass through unchanged.
pub fn overlap_add<T: Copy, C: Copy, F: Fn(T, T, C) -> T>(
    primary: &Vec<T>,
    shifted: &Vec<T>,
    taper: &Vec<C>,
    mix: &F,
) -> (r: Vec<T>)
    requires
        taper@.len() >= 2,
        shifted@.len() + taper@.len() <= primary@.len(),
        forall|a: T, b: T, c: C| #[trigger] call_requires(*mix, (a, b, c)),
    ensures
        blended(primary@, shifted@, taper@, *mix, r@),
{
    let window_size = taper.len();
    let h: usize = window_size / 2 - 1;
    let plen = primary.len();
    let slen = shifted.len();
    let mut out: Vec<T> = Vec::with_capacity(plen);
    let mut j: usize = 0;
    while j < plen
        invariant
            plen == primary@.len(),
            j <= plen,
            out@ == primary@.subrange(0, j as int),
        decreases plen - j,
    {
        out.push(primary[j]);
        j = j + 1;
        assert(out@ =~= primary@.subrange(0, j as int));
    }
    let mut i: usize = 0;
    while i < slen
        invariant
            window_size == taper@.len(),
            window_size >= 2,
            h == shift_of(window_size as nat),
            plen == primary@.len(),
            slen == shifted@.len(),
            slen + window_size <= plen,
            forall|a: T, b: T, c: C| #[trigger] call_requires(*mix, (a, b, c)),
            i <= slen,
            out@.len() == plen,
            forall|k: int|
                0 <= k < plen ==> if h <= k < h + i {
                    call_ensures(mix, (shifted@[k - h], primary@[k], taper@[(k - h) % (window_size as int)]), #[trigger] out@[k])
                } else {
                    out@[k] == primary@[k]
                },
        decreases slen - i,
    {
        let weight = taper[i % window_size];
        let v = mix(shifted[i], primary[i + h], weight);
        out.set(i + h, v);
        i = i + 1;
    }
    out
}

/// Outside `[W/2 - 1, P - W/2)` the reconstruction is the primary pass
/// itself, where `P` is the primary pass's length and the shifted pass is
/// one window shorter.
pub proof fn lemma_overlap_add_edges_untouched<T, C, F: Fn(T, T, C) -> T>(
    primary: Seq<T>,
    shifted: Seq<T>,
    taper: Seq<C>,
    mix: F,
    out: Seq<T>,
    j: int,
)
    requires
        taper.len() >= 2,
        shifted.len() + taper.len() == primary.len(),
        blended(primary, shifted, taper, mix, out),
        0 <= j < primary.len(),
        j < taper.len() / 2 - 1 || j >= primary.len() - taper.len() / 2,
    ensures
        out[j] == primary[j],
{
    assert(out[j] == primary[j]);
}

/// `out` is the single-pole smoothing of `input` through `step`: the first
/// sample is kept, and each later one is `step(input[n], out[n - 1])`.
pub open spec fn smoothed<T, F: Fn(T, T) -> T>(input: Seq<T>, step: F, out: Seq<T>) -> bool {
    &&& out.len() == input.len()
    &&& input.len() > 0 ==> out[0] == input[0]
    &&& forall|n: int| 0 < n < out.len() ==> call_ensures(step, (input[n], out[n - 1]), #[trigger] out[n])
}

/// Runs `input` through a single-pole recursive smoother: `y[0] = x[0]` and
/// `y[n] = step(x[n], y[n - 1])`, where `step` holds the weighting (for an
/// exponential moving average, `alpha * x + (1 - alpha) * y`). Length and
/// order are kept.
pub fn smooth<T: Copy, F: Fn(T, T) -> T>(input: &Vec<T>, step: &F) -> (r: Vec<T>)
    requires
        forall|x: T, y: T| #[trigger] call_requires(*step, (x, y)),
    ensures
        smoothed(input@, *step, r@),
{
    let len = input.len();
    let mut out: Vec<T> = Vec::with_capacity(len);
    if len == 0 {
        return out;
    }
    out.push(input[0]);
    let mut n: usize = 1;
    while n < len
        invariant
            len == input@.len(),
            1 <= n <= len,
            forall|x: T, y: T| #[trigger] call_requires(*step, (x, y)),
            out@.len() == n,
            out@[0] == input@[0],
            forall|m: int| 0 < m < n ==> call_ensures(*step, (input@[m], out@[m - 1]), #[trigger] out@[m]),
        decreases len - n,
    {
        let y = step(input[n], out[n - 1]);
        out.push(y);
        n = n + 1;
    }
    out
}

/// A constant input is a fixed point of the smoother: where `step(c, c)`
/// can only be `c`, a signal that is `c` throughout comes out as `c`
/// throughout, the first sample exactly so whatever `step` does.
pub proof fn lemma_smooth_constant<T, F: Fn(T, T) -> T>(input: Seq<T>, step: F, out: Seq<T>, c: T)
    requires
        smoothed(input, step, out),
        forall|n: int| 0 <= n < input.len() ==> #[trigger] input[n] == c,
        forall|y: T| #[trigger] call_ensures(step, (c, c), y) ==> y == c,
    ensures
        forall|n: int| 0 <= n < out.len() ==> #[trigger] out[n] == c,
{
    assert forall|n: int| 0 <= n < out.len() implies #[trigger] out[n] == c by {
        lemma_smooth_constant_upto(input, step, out, c, n);
    }
}

proof fn lemma_smooth_constant_upto<T, F: Fn(T, T) -> T>(
    input: Seq<T>,
    step: F,
    out: Seq<T>,
    c: T,
    n: int,
)
    requires
        smoothed(input, step, out),
        forall|m: int| 0 <= m < input.len() ==> #[trigger] input[m] == c,
        forall|y: T| #[trigger] call_ensures(step, (c, c), y) ==> y == c,
        0 <= n < out.len(),
    ensures
        out[n] == c,
    decreases n,
{
    if n > 0 {
        lemma_smooth_constant_upto(input, step, out, c, n - 1);
        assert(call_ensures(step, (input[n], out[n - 1]), out[n]));
    } else {
        assert(input[0] == c);
    }
}

} // verus!

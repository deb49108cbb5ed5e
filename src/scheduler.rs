use vstd::prelude::*;

verus! {

/// Window `k` of `s`, when `s` is cut from `offset` on into consecutive
/// windows of `window_size` samples.
pub open spec fn window_at<T>(s: Seq<T>, offset: nat, window_size: nat, k: nat) -> Seq<T> {
    s.subrange((offset + k * window_size) as int, (offset + (k + 1) * window_size) as int)
}

/// `output` is one of the results that `filter` may give for a window whose
/// samples are `input`.
pub open spec fn filters_to<T, F: Fn(Vec<T>) -> Vec<T>>(
    filter: F,
    input: Seq<T>,
    output: Seq<T>,
) -> bool {
    exists|w: Vec<T>, r: Vec<T>|
        w@ == input && r@ == output && #[trigger] call_ensures(filter, (w,), r)
}

/// `filter` accepts every window of `window_size` samples and hands back as
/// many samples as it was given.
pub open spec fn length_preserving<T, F: Fn(Vec<T>) -> Vec<T>>(
    filter: F,
    window_size: nat,
) -> bool {
    &&& forall|w: Vec<T>| w@.len() == window_size ==> #[trigger] call_requires(filter, (w,))
    &&& forall|w: Vec<T>, r: Vec<T>| #[trigger] call_ensures(filter, (w,), r) ==> r@.len() == w@.len()
}

/// `out` is the concatenation, in order, of `filter` applied to each of the
/// `num_windows` windows of `s` that start at `offset`.
pub open spec fn scheduled<T, F: Fn(Vec<T>) -> Vec<T>>(
    s: Seq<T>,
    num_windows: nat,
    window_size: nat,
    offset: nat,
    filter: F,
    out: Seq<T>,
) -> bool {
    &&& out.len() == num_windows * window_size
    &&& forall|k: nat|
        k < num_windows ==> #[trigger] filters_to(
            filter,
            window_at(s, offset, window_size, k),
            window_at(out, 0, window_size, k),
        )
}

/// `filter` gives one result for each window contents: whatever `Vec`
/// carries the samples, and however often it is called.
pub open spec fn view_deterministic<T, F: Fn(Vec<T>) -> Vec<T>>(filter: F) -> bool {
    forall|w1: Vec<T>, w2: Vec<T>, r1: Vec<T>, r2: Vec<T>|
        w1@ == w2@ && #[trigger] call_ensures(filter, (w1,), r1) && #[trigger] call_ensures(
            filter,
            (w2,),
            r2,
        ) ==> r1@ == r2@
}

/// Windows are filtered independently: for a filter that depends on the
/// window's samples alone, two signals that agree on window `k` give the
/// same filtered window `k`, whatever they hold elsewhere.
pub proof fn lemma_windows_independent<T, F: Fn(Vec<T>) -> Vec<T>>(
    s1: Seq<T>,
    s2: Seq<T>,
    num_windows: nat,
    window_size: nat,
    offset: nat,
    filter: F,
    out1: Seq<T>,
    out2: Seq<T>,
    k: nat,
)
    requires
        view_deterministic(filter),
        scheduled(s1, num_windows, window_size, offset, filter, out1),
        scheduled(s2, num_windows, window_size, offset, filter, out2),
        k < num_windows,
        window_at(s1, offset, window_size, k) == window_at(s2, offset, window_size, k),
    ensures
        out1.len() == out2.len(),
        window_at(out1, 0, window_size, k) == window_at(out2, 0, window_size, k),
{
    let in1 = window_at(s1, offset, window_size, k);
    let o1 = window_at(out1, 0, window_size, k);
    let o2 = window_at(out2, 0, window_size, k);
    assert(filters_to(filter, in1, o1));
    assert(filters_to(filter, in1, o2));
    let (w1, r1) = choose|w: Vec<T>, r: Vec<T>|
        w@ == in1 && r@ == o1 && #[trigger] call_ensures(filter, (w,), r);
    let (w2, r2) = choose|w: Vec<T>, r: Vec<T>|
        w@ == in1 && r@ == o2 && #[trigger] call_ensures(filter, (w,), r);
    assert(call_ensures(filter, (w1,), r1) && call_ensures(filter, (w2,), r2));
}

proof fn lemma_window_bounds(k: nat, n: nat, w: nat)
    requires
        k < n,
    ensures
        k * w + w == (k + 1) * w,
        (k + 1) * w <= n * w,
{
    assert(k * w + w == (k + 1) * w) by (nonlinear_arith);
    assert((k + 1) * w <= n * w) by (nonlinear_arith)
        requires
            k < n,
    ;
}

/// Cuts `signal` from `offset` on into `num_windows` consecutive windows of
/// `window_size` samples, runs each through `filter`, and concatenates the
/// filtered windows in order. Nothing at or beyond
/// `offset + num_windows * window_size` is read.
pub fn schedule_windows<T: Copy, F: Fn(Vec<T>) -> Vec<T>>(
    signal: &Vec<T>,
    num_windows: usize,
    window_size: usize,
    offset: usize,
    filter: &F,
) -> (r: Vec<T>)
    requires
        offset + num_windows * window_size <= signal@.len(),
        length_preserving(*filter, window_size as nat),
    ensures
        scheduled(signal@, num_windows as nat, window_size as nat, offset as nat, *filter, r@),
{
    let len = signal.len();
    let mut out: Vec<T> = Vec::new();
    let mut k: usize = 0;
    while k < num_windows
        invariant
            len == signal@.len(),
            offset + num_windows * window_size <= len,
            length_preserving(*filter, window_size as nat),
            k <= num_windows,
            out@.len() == k * window_size,
            forall|j: nat|
                j < k ==> #[trigger] filters_to(
                    *filter,
                    window_at(signal@, offset as nat, window_size as nat, j),
                    window_at(out@, 0, window_size as nat, j),
                ),
        decreases num_windows - k,
    {
        proof {
            lemma_window_bounds(k as nat, num_windows as nat, window_size as nat);
            assert(offset + k * window_size + window_size <= signal@.len());
        }
        let start: usize = offset + k * window_size;
        let mut w: Vec<T> = Vec::with_capacity(window_size);
        let mut i: usize = 0;
        while i < window_size
            invariant
                len == signal@.len(),
                start + window_size <= len,
                i <= window_size,
                w@ == signal@.subrange(start as int, start + i),
            decreases window_size - i,
        {
            w.push(signal[start + i]);
            i = i + 1;
            assert(w@ =~= signal@.subrange(start as int, start + i));
        }
        let ghost win = w@;
        let mut filtered = filter(w);
        let ghost fv = filtered@;
        let ghost prev = out@;
        out.append(&mut filtered);
        proof {
            assert(win == window_at(signal@, offset as nat, window_size as nat, k as nat));
            assert(window_at(out@, 0, window_size as nat, k as nat) =~= fv);
            assert forall|j: nat| j < k + 1 implies #[trigger] filters_to(
                *filter,
                window_at(signal@, offset as nat, window_size as nat, j),
                window_at(out@, 0, window_size as nat, j),
            ) by {
                if j < k {
                    lemma_window_bounds(j, k as nat, window_size as nat);
                    assert(window_at(out@, 0, window_size as nat, j) =~= window_at(
                        prev,
                        0,
                        window_size as nat,
                        j,
                    ));
                }
            }
        }
        k = k + 1;
    }
    out
}

} // verus!

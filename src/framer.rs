use vstd::prelude::*;

verus! {

/// The length of a signal of `len` samples once right-padded to whole
/// windows of `window_size` samples.
pub open spec fn framed_len(len: nat, window_size: nat) -> nat
    recommends
        window_size > 0,
{
    if len % window_size == 0 {
        len
    } else {
        (len + (window_size - len % window_size)) as nat
    }
}

/// The signal `s` padded on the right with `silence` up to `framed_len`.
pub open spec fn framed<T>(s: Seq<T>, window_size: nat, silence: T) -> Seq<T> {
    Seq::new(framed_len(s.len(), window_size), |i: int| if i < s.len() { s[i] } else { silence })
}

/// Framing pads to the smallest multiple of the window size that holds the
/// whole input, keeps every input sample at its index, and fills the tail
/// with `silence`.
pub proof fn lemma_framing<T>(s: Seq<T>, window_size: nat, silence: T)
    requires
        window_size > 0,
    ensures
        framed(s, window_size, silence).len() % window_size == 0,
        framed(s, window_size, silence).len() >= s.len(),
        forall|m: nat|
            #[trigger] (m % window_size) == 0 && m >= s.len() ==> m >= framed(s, window_size, silence).len(),
        forall|i: int| 0 <= i < s.len() ==> #[trigger] framed(s, window_size, silence)[i] == s[i],
        forall|i: int|
            s.len() <= i < framed(s, window_size, silence).len() ==> #[trigger] framed(s, window_size, silence)[i]
                == silence,
{
    let len = s.len();
    let w = window_size;
    let q = len / w;
    let r = len % w;
    assert(len == q * w + r && r < w) by (nonlinear_arith)
        requires
            w > 0,
            q == len / w,
            r == len % w,
    ;
    let f = framed_len(len, w);
    if r == 0 {
        assert(f == q * w);
    } else {
        assert(f == (q + 1) * w) by (nonlinear_arith)
            requires
                f == len + (w - r),
                len == q * w + r,
        ;
    }
    assert(f % w == 0) by (nonlinear_arith)
        requires
            w > 0,
            f == q * w || f == (q + 1) * w,
    ;
    assert forall|m: nat| #[trigger] (m % w) == 0 && m >= len implies m >= f by {
        let p = m / w;
        assert(m == p * w) by (nonlinear_arith)
            requires
                w > 0,
                m % w == 0,
                p == m / w,
        ;
        if r != 0 {
            assert(p > q) by (nonlinear_arith)
                requires
                    m == p * w,
                    m >= q * w + r,
                    r > 0,
                    w > 0,
            ;
            assert(m >= (q + 1) * w) by (nonlinear_arith)
                requires
                    m == p * w,
                    p >= q + 1,
                    w > 0,
            ;
        }
    }
}

/// Pads `signal` on the right with `silence` until its length is the
/// smallest multiple of `window_size` that is at least the input length.
pub fn frame_signal<T: Copy>(signal: &Vec<T>, window_size: usize, silence: T) -> (r: Vec<T>)
    requires
        window_size > 0,
        framed_len(signal@.len(), window_size as nat) <= usize::MAX,
    ensures
        r@ == framed(signal@, window_size as nat, silence),
{
    let len = signal.len();
    let rem = len % window_size;
    let target: usize = if rem == 0 { len } else { len + (window_size - rem) };
    let mut out: Vec<T> = Vec::with_capacity(target);
    let mut i: usize = 0;
    while i < target
        invariant
            target == framed_len(signal@.len(), window_size as nat),
            len == signal@.len(),
            i <= target,
            out@.len() == i,
            forall|j: int| 0 <= j < i ==> out@[j] == framed(signal@, window_size as nat, silence)[j],
        decreases target - i,
    {
        if i < len {
            out.push(signal[i]);
        } else {
            out.push(silence);
        }
        i = i + 1;
    }
    assert(out@ =~= framed(signal@, window_size as nat, silence));
    out
}

} // verus!

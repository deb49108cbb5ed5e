use vstd::prelude::*;

verus! {

/// Where a head moves after position `pos` on a loop of `len` cells: one
/// cell on, back to the start after the last one.
pub open spec fn next_head(pos: nat, len: nat) -> nat {
    if pos + 1 < len {
        pos + 1
    } else {
        0
    }
}

/// A circular delay buffer with independent read and write heads.
pub struct TapeLoop<T> {
    read_head_index: usize,
    write_head_index: usize,
    buffer: Vec<T>,
}

impl<T: Copy> TapeLoop<T> {
    /// The cells of the loop, in order from the start.
    pub closed spec fn contents(&self) -> Seq<T> {
        self.buffer@
    }

    /// The cell the next read takes.
    pub closed spec fn read_head(&self) -> nat {
        self.read_head_index as nat
    }

    /// The cell the next write fills.
    pub closed spec fn write_head(&self) -> nat {
        self.write_head_index as nat
    }

    /// The loop has at least one cell and both heads stand on one.
    pub open spec fn wf(&self) -> bool {
        &&& self.contents().len() > 0
        &&& self.read_head() < self.contents().len()
        &&& self.write_head() < self.contents().len()
    }

    /// A loop of `length` cells, all `silence`, with both heads at the start.
    pub fn new(length: usize, silence: T) -> (r: Self)
        requires
            length > 0,
        ensures
            r.wf(),
            r.contents() == Seq::new(length as nat, |i: int| silence),
            r.read_head() == 0,
            r.write_head() == 0,
    {
        let mut buffer: Vec<T> = Vec::with_capacity(length);
        let mut i: usize = 0;
        while i < length
            invariant
                i <= length,
                buffer@ == Seq::new(i as nat, |j: int| silence),
            decreases length - i,
        {
            buffer.push(silence);
            i = i + 1;
            assert(buffer@ =~= Seq::new(i as nat, |j: int| silence));
        }
        let r = TapeLoop { read_head_index: 0, write_head_index: 0, buffer };
        assert(r.contents() =~= Seq::new(length as nat, |i: int| silence));
        r
    }

    /// The position after `cur_position`, wrapping round at the end.
    pub fn get_next_head_position(&self, cur_position: usize) -> (r: usize)
        requires
            self.wf(),
            cur_position < self.contents().len(),
        ensures
            r == next_head(cur_position as nat, self.contents().len()),
    {
        if cur_position < self.buffer.len() - 1 {
            return cur_position + 1;
        }
        0
    }

    /// Stores `write_sample` under the write head and moves that head on.
    pub fn write_sample(&mut self, write_sample: T)
        requires
            old(self).wf(),
        ensures
            final(self).wf(),
            final(self).contents() == old(self).contents().update(
                old(self).write_head() as int,
                write_sample,
            ),
            final(self).write_head() == next_head(old(self).write_head(), old(self).contents().len()),
            final(self).read_head() == old(self).read_head(),
    {
        self.buffer.set(self.write_head_index, write_sample);
        self.write_head_index = self.get_next_head_position(self.write_head_index);
    }

    /// Takes the sample under the read head and moves that head on.
    pub fn read_sample(&mut self) -> (r: T)
        requires
            old(self).wf(),
        ensures
            final(self).wf(),
            r == old(self).contents()[old(self).read_head() as int],
            final(self).contents() == old(self).contents(),
            final(self).read_head() == next_head(old(self).read_head(), old(self).contents().len()),
            final(self).write_head() == old(self).write_head(),
    {
        let read_sample = self.buffer[self.read_head_index];
        self.read_head_index = self.get_next_head_position(self.read_head_index);
        read_sample
    }
}

/// The sample that a loop of `delay` cells, filled with `silence` at first,
/// hands back at step `i` when `fed[j]` was written at each step `j`.
pub open spec fn delayed<T>(fed: Seq<T>, delay: nat, silence: T, i: int) -> T {
    if i < delay {
        silence
    } else {
        fed[i - delay]
    }
}

/// `out` is `signal` run through a feedback delay of `delay` samples: at
/// each step the delayed sample `d` and the input `x` give the sample
/// written back to the loop, `feed(d, x)`, and the output, `wet(d, x)`.
pub open spec fn echoed<T, Fb: Fn(T, T) -> T, Wm: Fn(T, T) -> T>(
    signal: Seq<T>,
    delay: nat,
    silence: T,
    feed: Fb,
    wet: Wm,
    out: Seq<T>,
) -> bool {
    exists|fed: Seq<T>| #[trigger] echo_steps(signal, delay, silence, feed, wet, fed, out)
}

/// Every step of the echo, with `fed` the samples written back to the loop.
pub open spec fn echo_steps<T, Fb: Fn(T, T) -> T, Wm: Fn(T, T) -> T>(
    signal: Seq<T>,
    delay: nat,
    silence: T,
    feed: Fb,
    wet: Wm,
    fed: Seq<T>,
    out: Seq<T>,
) -> bool {
    &&& fed.len() == signal.len()
    &&& out.len() == signal.len()
    &&& forall|i: int|
        0 <= i < signal.len() ==> call_ensures(
            feed,
            (delayed(fed, delay, silence, i), signal[i]),
            #[trigger] fed[i],
        ) && call_ensures(wet, (delayed(fed, delay, silence, i), signal[i]), out[i])
}

/// Runs `signal` through a tape loop of `delay` cells that starts silent:
/// each step reads the delayed sample `d`, writes `feed(d, x)` back to the
/// loop and outputs `wet(d, x)`.
pub fn tape_echo<T: Copy, Fb: Fn(T, T) -> T, Wm: Fn(T, T) -> T>(
    signal: &Vec<T>,
    delay: usize,
    silence: T,
    feed: &Fb,
    wet: &Wm,
) -> (r: Vec<T>)
    requires
        delay > 0,
        forall|d: T, x: T| #[trigger] call_requires(*feed, (d, x)),
        forall|d: T, x: T| #[trigger] call_requires(*wet, (d, x)),
    ensures
        echoed(signal@, delay as nat, silence, *feed, *wet, r@),
{
    let len = signal.len();
    let mut tape = TapeLoop::new(delay, silence);
    let mut out: Vec<T> = Vec::with_capacity(len);
    let ghost mut fed: Seq<T> = Seq::empty();
    let mut i: usize = 0;
    while i < len
        invariant
            len == signal@.len(),
            i <= len,
            forall|d: T, x: T| #[trigger] call_requires(*feed, (d, x)),
            forall|d: T, x: T| #[trigger] call_requires(*wet, (d, x)),
            tape.wf(),
            tape.contents().len() == delay,
            tape.read_head() == tape.write_head(),
            fed.len() == i,
            out@.len() == i,
            forall|c: int|
                0 <= c < delay ==> #[trigger] tape.contents()[c] == delayed(
                    fed,
                    delay as nat,
                    silence,
                    i + (if c >= tape.read_head() {
                        c - tape.read_head()
                    } else {
                        c + delay - tape.read_head()
                    }),
                ),
            forall|j: int|
                0 <= j < i ==> call_ensures(
                    *feed,
                    (delayed(fed, delay as nat, silence, j), signal@[j]),
                    #[trigger] fed[j],
                ) && call_ensures(*wet, (delayed(fed, delay as nat, silence, j), signal@[j]), out@[j]),
        decreases len - i,
    {
        let ghost h = tape.read_head() as int;
        let ghost before = tape.contents();
        let from_loop = tape.read_sample();
        assert(before[h] == from_loop);
        let x = signal[i];
        let for_loop = feed(from_loop, x);
        tape.write_sample(for_loop);
        let y = wet(from_loop, x);
        out.push(y);
        proof {
            let old_fed = fed;
            fed = fed.push(for_loop);
            assert(delayed(fed, delay as nat, silence, i as int) == from_loop);
            assert forall|j: int| 0 <= j < i implies delayed(fed, delay as nat, silence, j) == delayed(
                old_fed,
                delay as nat,
                silence,
                j,
            ) by {}
            assert forall|c: int| 0 <= c < delay implies #[trigger] tape.contents()[c] == delayed(
                fed,
                delay as nat,
                silence,
                (i + 1) + (if c >= tape.read_head() {
                    c - tape.read_head()
                } else {
                    c + delay - tape.read_head()
                }),
            ) by {
                if c != h {
                    let dd = i + (if c >= h { c - h } else { c + delay - h });
                    assert(before[c] == delayed(old_fed, delay as nat, silence, dd));
                    assert(dd < i + delay);
                }
            }
        }
        i = i + 1;
    }
    assert(echo_steps(signal@, delay as nat, silence, *feed, *wet, fed, out@));
    out
}

} // verus!

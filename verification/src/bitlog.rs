//! A rolling log that keeps the last `N` samples of a per-tick quantity.

use vstd::prelude::*;

verus! {

/// The last `N` samples, in a ring: `i` is the slot that the next sample
/// overwrites, so the most recent sample sits just before it.
///
/// The view is the `N` retained samples in the order they were taken, oldest
/// first. A new log holds `N` copies of the value it was made with; they stand
/// for "no data yet" and leave the log one by one as samples arrive.
#[derive(Debug)]
pub struct BitLog<T, const N: usize> {
    bit_record: [T; N],
    i: usize,
}

/// The samples retained in `record` when `cursor` is the next slot to be
/// written: what follows the cursor is older than what precedes it.
pub open spec fn unrolled<T>(record: Seq<T>, cursor: int) -> Seq<T> {
    record.subrange(cursor, record.len() as int) + record.subrange(0, cursor)
}

impl<T, const N: usize> View for BitLog<T, N> {
    type V = Seq<T>;

    closed spec fn view(&self) -> Seq<T> {
        unrolled(self.bit_record@, self.i as int)
    }
}

/// The window that results from taking `samples` one by one into `window`:
/// each sample enters at the recent end and drives the oldest one out.
pub open spec fn pushed<T>(window: Seq<T>, samples: Seq<T>) -> Seq<T>
    decreases samples.len(),
{
    if samples.len() == 0 {
        window
    } else {
        pushed(window, samples.drop_last()).drop_first().push(samples.last())
    }
}

impl<T: Copy, const N: usize> BitLog<T, N> {
    /// The cursor points at a slot (or at nothing, in a log without slots).
    pub closed spec fn wf(&self) -> bool {
        if N == 0 {
            self.i == 0
        } else {
            self.i < N
        }
    }

    /// The sample taken `lookback` ticks before the most recent one.
    pub open spec fn sample_at(&self, lookback: int) -> T {
        self@[N - 1 - lookback]
    }

    /// A log whose `N` slots all hold `fill`.
    pub fn new(fill: T) -> (log: Self)
        ensures
            log.wf(),
            log@ == Seq::new(N as nat, |k: int| fill),
    {
        let log = BitLog { bit_record: [fill;N], i: 0 };
        assert(log@ =~= Seq::new(N as nat, |k: int| fill));
        log
    }

    /// A log over the given ring and cursor. The cursor must name a slot; 0 is
    /// accepted for a ring without slots too.
    pub fn from_parts(bit_record: [T; N], i: usize) -> (made: Option<Self>)
        ensures
            made.is_some() <==> (i < N || i == 0),
            made matches Some(log) ==> log.wf() && log@ == unrolled(bit_record@, i as int),
    {
        if i < N || i == 0 {
            Some(BitLog { bit_record, i })
        } else {
            None
        }
    }

    /// Records `val` as the most recent sample; the oldest one is dropped.
    pub fn track(&mut self, val: T)
        requires
            old(self).wf(),
            N > 0,
        ensures
            final(self).wf(),
            final(self)@ == old(self)@.drop_first().push(val),
    {
        self.bit_record[self.i] = val;
        self.i = (self.i + 1) % N;
        proof {
            let before = old(self).bit_record@;
            let at = old(self).i as int;
            assert(self.bit_record@ == before.update(at, val));
            assert(self.i == if at + 1 < N { at + 1 } else { 0 }) by {
                if at + 1 < N {
                    vstd::arithmetic::div_mod::lemma_small_mod((at + 1) as nat, N as nat);
                } else {
                    vstd::arithmetic::div_mod::lemma_mod_self_0(N as int);
                }
            }
            assert(self@ =~= old(self)@.drop_first().push(val));
        }
    }

    /// The sample taken `lookback` ticks before the most recent one, found by
    /// index arithmetic alone.
    pub fn get_from_end(&self, lookback: usize) -> (sample: T)
        requires
            self.wf(),
            lookback < N,
        ensures
            sample == self.sample_at(lookback as int),
    {
        let lookback_i: usize = if self.i > lookback {
            self.i - lookback - 1
        } else {
            N - (lookback - self.i) - 1
        };
        self.bit_record[lookback_i]
    }

    /// The change over the last `lookback + 1` ticks: what `minus` makes of the
    /// most recent sample and the one `lookback` ticks before it.
    pub fn diff<F: Fn(T, T) -> T>(&self, lookback: usize, minus: F) -> (change: T)
        requires
            self.wf(),
            lookback < N,
            minus.requires((self.sample_at(0), self.sample_at(lookback as int))),
        ensures
            minus.ensures((self.sample_at(0), self.sample_at(lookback as int)), change),
    {
        minus(self.get_from_end(0), self.get_from_end(lookback))
    }

    /// All `N` retained samples, oldest first.
    pub fn to_vec(&self) -> (samples: Vec<T>)
        requires
            self.wf(),
        ensures
            samples@ == self@,
            samples@.len() == N,
    {
        let mut v: Vec<T> = Vec::new();
        let mut k: usize = self.i;
        while k < N
            invariant
                self.wf(),
                self.i <= k <= N,
                v@ == self.bit_record@.subrange(self.i as int, k as int),
            decreases N - k,
        {
            v.push(self.bit_record[k]);
            k += 1;
            assert(v@ =~= self.bit_record@.subrange(self.i as int, k as int));
        }
        let mut j: usize = 0;
        while j < self.i
            invariant
                self.wf(),
                j <= self.i <= N,
                v@ == self.bit_record@.subrange(self.i as int, N as int)
                    + self.bit_record@.subrange(0, j as int),
            decreases self.i - j,
        {
            v.push(self.bit_record[j]);
            j += 1;
            assert(v@ =~= self.bit_record@.subrange(self.i as int, N as int)
                + self.bit_record@.subrange(0, j as int));
        }
        v
    }
}

/// In a ring the most recent sample sits one slot before the cursor, and the
/// sample taken `lookback` ticks earlier sits `lookback` slots before that,
/// counted round the ring.
pub proof fn lemma_unrolled_slot<T>(record: Seq<T>, cursor: int, lookback: int)
    requires
        0 <= cursor < record.len(),
        0 <= lookback < record.len(),
    ensures
        unrolled(record, cursor)[record.len() - 1 - lookback] == record[(cursor - 1 - lookback)
            % (record.len() as int)],
{
    let n = record.len() as int;
    let slot = cursor - 1 - lookback;
    if slot >= 0 {
        vstd::arithmetic::div_mod::lemma_small_mod(slot as nat, n as nat);
    } else {
        vstd::arithmetic::div_mod::lemma_small_mod((slot + n) as nat, n as nat);
        vstd::arithmetic::div_mod::lemma_mod_add_multiples_vanish(slot, n);
    }
}

/// After any run of samples the window is the last `N` entries of the old
/// window followed by the samples: each sample takes one place at the recent
/// end, however often the cursor has wrapped.
pub proof fn lemma_pushed_window<T>(window: Seq<T>, samples: Seq<T>)
    requires
        window.len() > 0,
    ensures
        pushed(window, samples) == (window + samples).subrange(
            samples.len() as int,
            (samples.len() + window.len()) as int,
        ),
    decreases samples.len(),
{
    let n = window.len() as int;
    let m = samples.len() as int;
    if m == 0 {
        assert(pushed(window, samples) =~= (window + samples).subrange(m, m + n));
    } else {
        let earlier = samples.drop_last();
        lemma_pushed_window(window, earlier);
        let step = (window + earlier).subrange(m - 1, m - 1 + n);
        assert(step.drop_first().push(samples.last()) =~= (window + samples).subrange(m, m + n));
    }
}

/// While a new window of `fill` values warms up, the samples taken so far
/// stand at its recent end and the remaining places still hold `fill`.
pub proof fn lemma_warm_up<T>(len: nat, fill: T, samples: Seq<T>)
    requires
        samples.len() <= len,
        len > 0,
    ensures
        pushed(Seq::new(len, |k: int| fill), samples) == Seq::new(
            (len - samples.len()) as nat,
            |k: int| fill,
        ) + samples,
{
    let window = Seq::new(len, |k: int| fill);
    lemma_pushed_window(window, samples);
    assert((window + samples).subrange(samples.len() as int, (samples.len() + len) as int)
        =~= Seq::new((len - samples.len()) as nat, |k: int| fill) + samples);
}

/// Taking one more sample after a run is the run taken with that sample at
/// its end.
pub proof fn lemma_pushed_step<T>(window: Seq<T>, samples: Seq<T>, val: T)
    ensures
        pushed(window, samples.push(val)) == pushed(window, samples).drop_first().push(val),
{
    assert(samples.push(val).drop_last() =~= samples);
}

impl<T: Copy, const N: usize> BitLog<T, N> {
    /// A log always retains exactly `N` samples.
    pub proof fn lemma_len(self)
        requires
            self.wf(),
        ensures
            self@.len() == N,
    {
    }

    /// The most recent sample is the last one of the retained samples in
    /// chronological order.
    pub proof fn lemma_snapshot_last(self)
        requires
            self.wf(),
            N > 0,
        ensures
            self@.len() == N,
            self@.last() == self.sample_at(0),
    {
    }

    /// Once `samples` have been taken into the log `self`, giving `after`, a
    /// lookback that does not reach past them finds the sample taken that
    /// many ticks before the last.
    pub proof fn lemma_lookback(self, samples: Seq<T>, after: Self, lookback: int)
        requires
            self.wf(),
            after@ == pushed(self@, samples),
            0 <= lookback < N,
            lookback < samples.len(),
        ensures
            after.sample_at(lookback) == samples[samples.len() - 1 - lookback],
    {
        lemma_pushed_window(self@, samples);
    }

    /// After `N` samples or more, the log holds the last pushed sample at
    /// lookback 0 and the one pushed `N - 1` pushes before it at lookback
    /// `N - 1`, wherever the cursor stood and however often it wrapped.
    pub proof fn lemma_wraparound(self, samples: Seq<T>, after: Self)
        requires
            self.wf(),
            N > 0,
            samples.len() >= N,
            after@ == pushed(self@, samples),
        ensures
            after.sample_at(0) == samples.last(),
            after.sample_at(N - 1) == samples[samples.len() - N],
            after@ == samples.subrange(samples.len() - N, samples.len() as int),
    {
        lemma_pushed_window(self@, samples);
        assert(after@ =~= samples.subrange(samples.len() - N, samples.len() as int));
    }

    /// After samples `s_0` to `s_k` with `k < N`, the two samples that the
    /// change over `k` ticks is taken between are `s_k` and `s_0`.
    pub proof fn lemma_delta_endpoints(self, samples: Seq<T>, after: Self)
        requires
            self.wf(),
            0 < samples.len() <= N,
            after@ == pushed(self@, samples),
        ensures
            after.sample_at(0) == samples.last(),
            after.sample_at(samples.len() - 1) == samples[0],
    {
        self.lemma_lookback(samples, after, 0);
        self.lemma_lookback(samples, after, samples.len() - 1);
    }
}

} // verus!

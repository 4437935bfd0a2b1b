use vstd::prelude::*;

use crate::utils::{is_fold_chain, IterExt};

verus! {

/// The lowest and the highest sample of a run of samples.
#[derive(Default, Debug, PartialEq, Clone, Copy)]
pub struct Peak<T> {
    pub min: T,
    pub max: T,
}

/// The smaller of two samples.
pub open spec fn min_of(a: i32, b: i32) -> i32 {
    if a <= b {
        a
    } else {
        b
    }
}

/// The larger of two samples.
pub open spec fn max_of(a: i32, b: i32) -> i32 {
    if a >= b {
        a
    } else {
        b
    }
}

/// The lowest sample of a non-empty run.
pub open spec fn seq_min(s: Seq<i32>) -> i32
    recommends
        s.len() > 0,
    decreases s.len(),
{
    if s.len() <= 1 {
        s[0]
    } else {
        min_of(s.last(), seq_min(s.drop_last()))
    }
}

/// The highest sample of a non-empty run.
pub open spec fn seq_max(s: Seq<i32>) -> i32
    recommends
        s.len() > 0,
    decreases s.len(),
{
    if s.len() <= 1 {
        s[0]
    } else {
        max_of(s.last(), seq_max(s.drop_last()))
    }
}

/// The peak of a non-empty run of samples.
pub open spec fn peak_of(s: Seq<i32>) -> Peak<i32>
    recommends
        s.len() > 0,
{
    Peak { min: seq_min(s), max: seq_max(s) }
}

/// Two peaks taken together.
pub open spec fn merge(a: Peak<i32>, b: Peak<i32>) -> Peak<i32> {
    Peak { min: min_of(a.min, b.min), max: max_of(a.max, b.max) }
}

/// The peak of a slice of samples.
pub trait SlicePeakExt: Sized {
    type Item;

    /// Returns the highest and lowest elements in this slice.
    fn peak(self) -> Peak<Self::Item>;
}

impl<'a> SlicePeakExt for &'a [i32] {
    type Item = i32;

    /// Returns the highest and lowest elements in this slice; the all-zero
    /// peak when the slice is empty.
    fn peak(self) -> (res: Peak<i32>)
        ensures
            self@.len() == 0 ==> res == (Peak { min: 0i32, max: 0i32 }),
            self@.len() > 0 ==> res == peak_of(self@),
    {
        match Peak::from_iter(self) {
            Some(p) => p,
            None => Peak { min: 0i32, max: 0i32 },
        }
    }
}

/// Each accumulator of a fold whose closures compute a single-sample peak and
/// widen a peak by one sample is the peak of the samples seen so far.
proof fn lemma_peak_chain<I, F>(init: I, f: F, s: Seq<i32>, accs: Seq<Peak<i32>>, k: int) where
    I: FnOnce(i32) -> Peak<i32>,
    F: Fn(Peak<i32>, i32) -> Peak<i32>,

    requires
        is_fold_chain(init, f, s, accs),
        0 <= k < s.len(),
        forall|x: i32, r: Peak<i32>| call_ensures(init, (x,), r) ==> r == (Peak { min: x, max: x }),
        forall|p: Peak<i32>, x: i32, r: Peak<i32>|
            call_ensures(f, (p, x), r) ==> r == (Peak {
                min: min_of(x, p.min),
                max: max_of(x, p.max),
            }),
    ensures
        accs[k] == peak_of(s.take(k + 1)),
    decreases k,
{
    if k > 0 {
        lemma_peak_chain(init, f, s, accs, k - 1);
        assert(s.take(k + 1).drop_last() =~= s.take(k));
        assert(call_ensures(f, (accs[k - 1], s[k]), accs[k]));
    }
}

/// The peak of a non-empty run bounds every sample of the run, and its low
/// and its high are both samples of the run.
pub proof fn lemma_peak_bounds(s: Seq<i32>)
    requires
        s.len() > 0,
    ensures
        forall|i: int| 0 <= i < s.len() ==> seq_min(s) <= #[trigger] s[i] <= seq_max(s),
        s.contains(seq_min(s)),
        s.contains(seq_max(s)),
        seq_min(s) <= seq_max(s),
    decreases s.len(),
{
    if s.len() > 1 {
        let d = s.drop_last();
        lemma_peak_bounds(d);
        assert forall|i: int| 0 <= i < s.len() implies seq_min(s) <= #[trigger] s[i] <= seq_max(
            s,
        ) by {
            if i < s.len() - 1 {
                assert(s[i] == d[i]);
            }
        }
        if seq_min(s) != s.last() {
            let j = choose|j: int| 0 <= j < d.len() && d[j] == seq_min(d);
            assert(s[j] == seq_min(s));
        } else {
            assert(s[s.len() - 1] == seq_min(s));
        }
        if seq_max(s) != s.last() {
            let j = choose|j: int| 0 <= j < d.len() && d[j] == seq_max(d);
            assert(s[j] == seq_max(s));
        } else {
            assert(s[s.len() - 1] == seq_max(s));
        }
    } else {
        assert(s[0] == seq_min(s));
    }
}

/// The peak of two runs laid end to end is the two peaks taken together.
pub proof fn lemma_peak_concat(s: Seq<i32>, t: Seq<i32>)
    requires
        s.len() > 0,
        t.len() > 0,
    ensures
        peak_of(s + t) == merge(peak_of(s), peak_of(t)),
    decreases t.len(),
{
    let st = s + t;
    if t.len() == 1 {
        assert(st.drop_last() =~= s);
    } else {
        lemma_peak_concat(s, t.drop_last());
        assert(st.drop_last() =~= s + t.drop_last());
    }
}

impl Peak<i32> {
    /// The peak of a run of samples: `None` when there is no sample, else
    /// the lowest and the highest sample.
    pub fn from_iter(samples: &[i32]) -> (res: Option<Peak<i32>>)
        ensures
            samples@.len() == 0 ==> res is None,
            samples@.len() > 0 ==> res == Some(peak_of(samples@)),
    {
        let init = |sample: i32| -> (r: Peak<i32>)
            ensures
                r == (Peak { min: sample, max: sample }),
            { Peak { min: sample, max: sample } };
        let widen = |peak: Peak<i32>, sample: i32| -> (r: Peak<i32>)
            ensures
                r == (Peak { min: min_of(sample, peak.min), max: max_of(sample, peak.max) }),
            {
                Peak {
                    min: if sample <= peak.min { sample } else { peak.min },
                    max: if sample >= peak.max { sample } else { peak.max },
                }
            };
        let res = samples.reduce_with(init, widen);
        proof {
            if let Some(b) = res {
                let accs = choose|accs: Seq<Peak<i32>>|
                    is_fold_chain(init, widen, samples@, accs) && b == accs.last();
                let n = samples@.len() as int;
                lemma_peak_chain(init, widen, samples@, accs, n - 1);
                assert(samples@.take(n) =~= samples@);
            }
        }
        res
    }
}

} // verus!

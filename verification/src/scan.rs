use vstd::prelude::*;

use itertools::Itertools;

use crate::peaks::{lemma_peak_bounds, merge, peak_of, Peak};

verus! {

/// The consecutive chunks of `s` of `n` items each; the last chunk holds
/// what is left and may be shorter.
pub open spec fn chunked<T>(s: Seq<T>, n: nat) -> Seq<Seq<T>>
    decreases s.len(),
{
    if s.len() == 0 || n == 0 {
        seq![]
    } else if s.len() <= n {
        seq![s]
    } else {
        seq![s.take(n as int)] + chunked(s.skip(n as int), n)
    }
}

/// The peak of each chunk of a run of samples.
pub open spec fn chunk_peaks(s: Seq<i32>, n: nat) -> Seq<Peak<i32>> {
    chunked(s, n).map_values(|c: Seq<i32>| peak_of(c))
}

/// Cuts `samples` into consecutive chunks of `size` items with
/// `Itertools::chunks`; the crate documents that each chunk holds `size`
/// items but the last, which holds what is left, and that it panics on a
/// size of zero.
#[verifier::external_body]
fn chunk_samples<T: Copy>(samples: &[T], size: usize) -> (res: Vec<Vec<T>>)
    requires
        size > 0,
    ensures
        res@.map_values(|c: Vec<T>| c@) == chunked(samples@, size as nat),
{
    let chunks = samples.iter().copied().chunks(size);
    let res: Vec<Vec<T>> = chunks.into_iter().map(|chunk| chunk.collect()).collect();
    res
}

/// A waveform summarised as one peak per chunk of samples.
pub struct PeakScan<T> {
    data: Vec<Peak<T>>,
}

impl<T> View for PeakScan<T> {
    type V = Seq<Peak<T>>;

    closed spec fn view(&self) -> Seq<Peak<T>> {
        self.data@
    }
}

/// Whether two runs of samples are the same, item by item.
fn same_samples(a: &[i32], b: &[i32]) -> (res: bool)
    ensures
        res == (a@ == b@),
{
    if a.len() != b.len() {
        return false;
    }
    let mut k: usize = 0;
    while k < a.len()
        invariant
            a@.len() == b@.len(),
            k <= a@.len(),
            forall|m: int| 0 <= m < k ==> a@[m] == b@[m],
        decreases a@.len() - k,
    {
        if a[k] != b[k] {
            return false;
        }
        k = k + 1;
    }
    assert(a@ =~= b@);
    true
}

impl PeakScan<i32> {
    /// Cuts the samples into chunks of `chunk_size` and keeps the peak of
    /// each chunk: the `i`-th peak is the lowest and the highest of the
    /// samples from `i * chunk_size` up to the next multiple of `chunk_size`
    /// (or the end), and there are `ceil(len / chunk_size)` peaks.
    pub fn from_iter(samples: &[i32], chunk_size: usize) -> (res: PeakScan<i32>)
        requires
            chunk_size > 0,
        ensures
            res@ == chunk_peaks(samples@, chunk_size as nat),
            res@.len() == (samples@.len() + chunk_size - 1) / (chunk_size as int),
            forall|i: int|
                0 <= i < res@.len() ==> #[trigger] res@[i] == peak_of(
                    samples@.subrange(
                        i * chunk_size,
                        column_end(samples@.len() as int, chunk_size as int, i),
                    ),
                ),
            forall|i: int, j: int|
                #![trigger res@[i], samples@[j]]
                0 <= i < res@.len() && i * chunk_size <= j < (i + 1) * chunk_size && j
                    < samples@.len() ==> res@[i].min <= samples@[j] <= res@[i].max,
            forall|i: int|
                0 <= i < res@.len() ==> samples@.subrange(
                    i * chunk_size,
                    column_end(samples@.len() as int, chunk_size as int, i),
                ).contains(#[trigger] res@[i].min),
            forall|i: int|
                0 <= i < res@.len() ==> samples@.subrange(
                    i * chunk_size,
                    column_end(samples@.len() as int, chunk_size as int, i),
                ).contains(#[trigger] res@[i].max),
    {
        let len = samples.len();
        let chunks = chunk_samples(samples, chunk_size);
        let count: usize = if len == 0 {
            0
        } else {
            (len - 1) / chunk_size + 1
        };
        proof {
            let l = len as int;
            let n = chunk_size as int;
            if l > 0 {
                assert((l - 1) / n <= l - 1) by (nonlinear_arith)
                    requires
                        n > 0,
                        l > 0,
                ;
                assert((l - 1) / n + 1 == ((l - 1) + n) / n) by (nonlinear_arith)
                    requires
                        n > 0,
                        l > 0,
                ;
            } else {
                assert((l + n - 1) / n == 0) by (nonlinear_arith)
                    requires
                        n > 0,
                        l == 0,
                ;
            }
            lemma_chunked(samples@, chunk_size as nat);
        }
        let mut data: Vec<Peak<i32>> = Vec::new();
        let mut i: usize = 0;
        while i < count
            invariant
                chunk_size > 0,
                len == samples@.len(),
                count == chunked(samples@, chunk_size as nat).len(),
                i <= count,
                data@.len() == i,
                forall|j: int|
                    0 <= j < i ==> #[trigger] data@[j] == peak_of(
                        samples@.subrange(
                            j * chunk_size,
                            column_end(len as int, chunk_size as int, j),
                        ),
                    ),
            decreases count - i,
        {
            proof {
                lemma_chunked_index(samples@, chunk_size as nat, i as int);
            }
            let start = i * chunk_size;
            let end = if len - start <= chunk_size {
                len
            } else {
                start + chunk_size
            };
            proof {
                let n = chunk_size as int;
                assert((i + 1) * n == i * n + n) by (nonlinear_arith);
            }
            assert(end == column_end(len as int, chunk_size as int, i as int));
            let cut = vstd::slice::slice_subrange(samples, start, end);
            let mut source: &[i32] = cut;
            if i < chunks.len() && same_samples(chunks[i].as_slice(), cut) {
                source = chunks[i].as_slice();
            }
            let peak = match Peak::from_iter(source) {
                Some(p) => p,
                None => Peak { min: 0i32, max: 0i32 },
            };
            data.push(peak);
            i = i + 1;
        }
        proof {
            let n = chunk_size as nat;
            assert forall|i: int| 0 <= i < data@.len() implies #[trigger] data@[i] == chunk_peaks(
                samples@,
                n,
            )[i] by {
                lemma_chunk_peak_index(samples@, n, i);
            }
            assert(data@ =~= chunk_peaks(samples@, n));
        }
        let res = PeakScan { data };
        proof {
            let n = chunk_size as nat;
            assert forall|i: int, j: int|
                0 <= i < res@.len() && i * chunk_size <= j < (i + 1) * chunk_size && j
                    < samples@.len() implies #[trigger] res@[i].min <= #[trigger] samples@[j]
                <= res@[i].max by {
                lemma_chunk_peak_index(samples@, n, i);
                assert(i * n == i * chunk_size);
                assert((i + 1) * n == (i + 1) * chunk_size);
            }
            assert forall|i: int| 0 <= i < res@.len() implies samples@.subrange(
                i * chunk_size,
                column_end(samples@.len() as int, chunk_size as int, i),
            ).contains(#[trigger] res@[i].min) by {
                lemma_chunk_peak_index(samples@, n, i);
                lemma_peak_bounds(
                    samples@.subrange(i * chunk_size, column_end(samples@.len() as int, chunk_size as int, i)),
                );
            }
            assert forall|i: int| 0 <= i < res@.len() implies samples@.subrange(
                i * chunk_size,
                column_end(samples@.len() as int, chunk_size as int, i),
            ).contains(#[trigger] res@[i].max) by {
                lemma_chunk_peak_index(samples@, n, i);
                lemma_peak_bounds(
                    samples@.subrange(i * chunk_size, column_end(samples@.len() as int, chunk_size as int, i)),
                );
            }
        }
        res
    }
}

impl<T> PeakScan<T> {
    /// A scan made of the given peaks, in order.
    pub fn from_chunks(peaks: Vec<Peak<T>>) -> (res: PeakScan<T>)
        ensures
            res@ == peaks@,
    {
        PeakScan { data: peaks }
    }

    /// The peaks of the scan, one per chunk.
    pub fn peaks(&self) -> (res: &[Peak<T>])
        ensures
            res@ == self@,
    {
        self.data.as_slice()
    }

    /// The number of peaks in the scan.
    pub fn resolution(&self) -> (res: usize)
        ensures
            res == self@.len(),
    {
        self.data.len()
    }
}

/// The chunks of a run are all non-empty and at most `n` long, all but the
/// last are exactly `n` long, there are `ceil(len / n)` of them, and laid end
/// to end they give the run back.
pub proof fn lemma_chunked<T>(s: Seq<T>, n: nat)
    requires
        n > 0,
    ensures
        chunked(s, n).len() == (s.len() + n - 1) / (n as int),
        forall|i: int|
            0 <= i < chunked(s, n).len() ==> 0 < (#[trigger] chunked(s, n)[i]).len() <= n,
        forall|i: int|
            0 <= i < chunked(s, n).len() - 1 ==> (#[trigger] chunked(s, n)[i]).len() == n,
        chunked(s, n).flatten() == s,
    decreases s.len(),
{
    let c = chunked(s, n);
    if s.len() == 0 {
        assert(c.flatten() =~= s);
        assert((s.len() + n - 1) / (n as int) == 0) by (nonlinear_arith)
            requires s.len() == 0, n > 0;
    } else if s.len() <= n {
        assert(c =~= seq![s]);
        assert(c.drop_first() =~= Seq::<Seq<T>>::empty());
        assert(c.flatten() =~= s + Seq::<Seq<T>>::empty().flatten());
        assert(c.flatten() =~= s);
        let l = s.len() as int;
        assert((l + n - 1) / (n as int) == 1) by (nonlinear_arith)
            requires 0 < l <= n;
    } else {
        let rest = s.skip(n as int);
        lemma_chunked(rest, n);
        let rc = chunked(rest, n);
        assert(c == seq![s.take(n as int)] + rc);
        assert(c.drop_first() =~= rc);
        assert(c.flatten() == s.take(n as int) + rc.flatten());
        assert(s.take(n as int) + rest =~= s);
        assert forall|i: int| 0 <= i < c.len() implies 0 < (#[trigger] c[i]).len() <= n by {
            if i > 0 {
                assert(c[i] == rc[i - 1]);
            }
        }
        assert forall|i: int| 0 <= i < c.len() - 1 implies (#[trigger] c[i]).len() == n by {
            if i > 0 {
                assert(c[i] == rc[i - 1]);
            }
        }
        let l = s.len() as int;
        assert((l + n - 1) / (n as int) == (l - n + n - 1) / (n as int) + 1) by (nonlinear_arith)
            requires l > n, n > 0;
    }
}

/// The peaks of a non-empty list taken together.
pub open spec fn merge_all(ps: Seq<Peak<i32>>) -> Peak<i32>
    recommends
        ps.len() > 0,
    decreases ps.len(),
{
    if ps.len() <= 1 {
        ps[0]
    } else {
        merge(ps[0], merge_all(ps.drop_first()))
    }
}

/// Taken together, the chunk peaks of a non-empty run are the peak of the
/// whole run: no sample is lost or invented by chunking.
pub proof fn lemma_chunk_peaks_merge(s: Seq<i32>, n: nat)
    requires
        n > 0,
        s.len() > 0,
    ensures
        merge_all(chunk_peaks(s, n)) == peak_of(s),
    decreases s.len(),
{
    let ps = chunk_peaks(s, n);
    if s.len() <= n {
        assert(ps =~= seq![peak_of(s)]);
    } else {
        let head = s.take(n as int);
        let rest = s.skip(n as int);
        lemma_chunk_peaks_merge(rest, n);
        lemma_chunked(rest, n);
        assert(chunked(s, n) == seq![head] + chunked(rest, n));
        assert(ps.drop_first() =~= chunk_peaks(rest, n));
        assert(ps[0] == peak_of(head));
        crate::peaks::lemma_peak_concat(head, rest);
        assert(head + rest =~= s);
    }
}

/// A scan of `len` samples cut into chunks of `n` has `ceil(len / n)` peaks.
pub proof fn lemma_scan_resolution(s: Seq<i32>, n: nat)
    requires
        n > 0,
    ensures
        chunk_peaks(s, n).len() == (s.len() + n - 1) / (n as int),
{
    lemma_chunked(s, n);
}

/// The end of the `i`-th column of `len` samples cut every `n`: where the
/// next column starts, or the end of the samples.
pub open spec fn column_end(len: int, n: int, i: int) -> int {
    if (i + 1) * n <= len {
        (i + 1) * n
    } else {
        len
    }
}

/// The `i`-th chunk holds the samples from `i * n` up to the next multiple
/// of `n` or the end of the run.
pub proof fn lemma_chunked_index(s: Seq<i32>, n: nat, i: int)
    requires
        n > 0,
        0 <= i < chunked(s, n).len(),
    ensures
        i * n < s.len(),
        chunked(s, n)[i] == s.subrange(i * n, column_end(s.len() as int, n as int, i)),
    decreases s.len(),
{
    lemma_chunked(s, n);
    let c = chunked(s, n);
    if s.len() <= n {
        assert(c =~= seq![s]);
        assert(i == 0);
        assert(0 * n == 0);
        assert(1 * n == n);
        assert(s.subrange(0, column_end(s.len() as int, n as int, 0)) =~= s);
    } else {
        let rest = s.skip(n as int);
        let rc = chunked(rest, n);
        assert(c == seq![s.take(n as int)] + rc);
        if i == 0 {
            assert(0 * n == 0);
            assert(1 * n == n);
            assert(s.subrange(0, column_end(s.len() as int, n as int, 0)) =~= s.take(n as int));
        } else {
            let k = i - 1;
            lemma_chunked_index(rest, n, k);
            assert(c[i] == rc[k]);
            assert(i * n == k * n + n) by (nonlinear_arith)
                requires
                    i == k + 1,
            ;
            assert((i + 1) * n == (k + 1) * n + n) by (nonlinear_arith)
                requires
                    i == k + 1,
            ;
            let e = column_end(s.len() as int, n as int, i);
            let er = column_end(rest.len() as int, n as int, k);
            assert(e == er + n);
            assert(rest.subrange(k * n, er) =~= s.subrange(i * n, e));
        }
    }
}

/// The `i`-th chunk peak is the peak of the samples from `i * n` up to the
/// next multiple of `n` (or the end) and of no others: it bounds each of
/// them, and its low and its high are among them.
pub proof fn lemma_chunk_peak_index(s: Seq<i32>, n: nat, i: int)
    requires
        n > 0,
        0 <= i < chunk_peaks(s, n).len(),
    ensures
        i * n < s.len(),
        chunk_peaks(s, n)[i] == peak_of(chunked(s, n)[i]),
        chunk_peaks(s, n)[i] == peak_of(s.subrange(i * n, column_end(s.len() as int, n as int, i))),
        forall|j: int|
            i * n <= j < (i + 1) * n && j < s.len() ==> chunk_peaks(s, n)[i].min <= #[trigger] s[j]
                <= chunk_peaks(s, n)[i].max,
        s.subrange(i * n, column_end(s.len() as int, n as int, i)).contains(chunk_peaks(s, n)[i].min),
        s.subrange(i * n, column_end(s.len() as int, n as int, i)).contains(chunk_peaks(s, n)[i].max),
{
    lemma_chunked_index(s, n, i);
    let start = i * n;
    let end = column_end(s.len() as int, n as int, i);
    let col = s.subrange(start, end);
    assert((i + 1) * n == i * n + n) by (nonlinear_arith);
    assert(col.len() > 0);
    lemma_peak_bounds(col);
    let p = chunk_peaks(s, n)[i];
    assert(p == peak_of(col));
    assert forall|j: int| i * n <= j < (i + 1) * n && j < s.len() implies p.min <= #[trigger] s[j]
        <= p.max by {
        assert(s[j] == col[j - start]);
    }
}

} // verus!

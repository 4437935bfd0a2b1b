use vstd::prelude::*;

use crate::peaks::Peak;

verus! {

/// The lows of a run of peaks, in order.
pub open spec fn lows(peaks: Seq<Peak<u8>>) -> Seq<u8> {
    peaks.map_values(|p: Peak<u8>| p.min)
}

/// The highs of a run of peaks, in order.
pub open spec fn highs(peaks: Seq<Peak<u8>>) -> Seq<u8> {
    peaks.map_values(|p: Peak<u8>| p.max)
}

/// The pixels of a two-row grey image of a scan, one column per peak: the
/// first row holds the lows, the second the highs.
pub fn scan_image_data(peaks: &[Peak<u8>]) -> (res: Vec<u8>)
    requires
        peaks@.len() * 2 <= usize::MAX,
    ensures
        res@ == lows(peaks@) + highs(peaks@),
        res@.len() == 2 * peaks@.len(),
        forall|i: int|
            0 <= i < peaks@.len() ==> res@[i] == (#[trigger] peaks@[i]).min && res@[peaks@.len()
                + i] == peaks@[i].max,
{
    let n = peaks.len();
    let mut data: Vec<u8> = Vec::with_capacity(n * 2);
    let mut i: usize = 0;
    while i < n
        invariant
            n == peaks@.len(),
            i <= n,
            data@ =~= lows(peaks@).take(i as int),
        decreases n - i,
    {
        data.push(peaks[i].min);
        i = i + 1;
    }
    let mut j: usize = 0;
    while j < n
        invariant
            n == peaks@.len(),
            j <= n,
            data@ =~= lows(peaks@) + highs(peaks@).take(j as int),
        decreases n - j,
    {
        data.push(peaks[j].max);
        j = j + 1;
    }
    assert(highs(peaks@).take(n as int) =~= highs(peaks@));
    assert forall|i: int| 0 <= i < peaks@.len() implies data@[i] == (#[trigger] peaks@[i]).min
        && data@[peaks@.len() + i] == peaks@[i].max by {
        assert(lows(peaks@)[i] == peaks@[i].min);
        assert(highs(peaks@)[i] == peaks@[i].max);
    }
    data
}

} // verus!

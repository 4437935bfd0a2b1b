use vstd::prelude::*;

verus! {

/// `n` zero bytes.
pub open spec fn zeros(n: nat) -> Seq<u8> {
    Seq::new(n, |i: int| 0u8)
}

/// A zeroed uniform block of `size` bytes with `value` written at `offset`.
pub fn uniform_block(size: usize, offset: usize, value: &[u8]) -> (res: Vec<u8>)
    requires
        offset + value@.len() <= size,
    ensures
        res@ == zeros(offset as nat) + value@ + zeros((size - offset - value@.len()) as nat),
        res@.len() == size,
        forall|j: int| 0 <= j < value@.len() ==> res@[offset + j] == #[trigger] value@[j],
        forall|i: int|
            0 <= i < size && !(offset <= i < offset + value@.len()) ==> #[trigger] res@[i] == 0,
{
    let mut data: Vec<u8> = Vec::with_capacity(size);
    let mut i: usize = 0;
    while i < offset
        invariant
            i <= offset,
            data@ =~= zeros(i as nat),
        decreases offset - i,
    {
        data.push(0u8);
        i = i + 1;
    }
    let mut j: usize = 0;
    while j < value.len()
        invariant
            j <= value@.len(),
            data@ =~= zeros(offset as nat) + value@.take(j as int),
        decreases value@.len() - j,
    {
        data.push(value[j]);
        j = j + 1;
    }
    assert(value@.take(value@.len() as int) =~= value@);
    let end = offset + value.len();
    let mut k: usize = end;
    while k < size
        invariant
            end <= k <= size,
            end == offset + value@.len(),
            data@ =~= zeros(offset as nat) + value@ + zeros((k - end) as nat),
        decreases size - k,
    {
        data.push(0u8);
        k = k + 1;
    }
    assert forall|j: int| 0 <= j < value@.len() implies data@[offset + j] == #[trigger] value@[j] by {
        assert((zeros(offset as nat) + value@)[offset + j] == value@[j]);
    }
    data
}

} // verus!

use vstd::prelude::*;

verus! {

/// `accs` is the run of accumulators of a left fold over `items` that starts
/// with `init` applied to the first item and then applies `f` to the
/// accumulator so far and each following item: `accs[i]` is a value that
/// the closures may produce after the first `i + 1` items.
pub open spec fn is_fold_chain<T, B, I: FnOnce(T) -> B, F: Fn(B, T) -> B>(
    init: I,
    f: F,
    items: Seq<T>,
    accs: Seq<B>,
) -> bool {
    &&& accs.len() == items.len()
    &&& items.len() > 0 ==> call_ensures(init, (items[0],), accs[0])
    &&& forall|i: int|
        #![trigger accs[i]]
        0 < i < items.len() ==> call_ensures(f, (accs[i - 1], items[i]), accs[i])
}

/// Reduction of a sequence of items whose first item seeds the accumulator.
pub trait IterExt<T>: Sized {
    /// Folds the items with `f`, starting from `init` applied to the first
    /// item; `None` when there is no item.
    fn reduce_with<B, I, F>(self, init: I, f: F) -> Option<B> where
        I: FnOnce(T) -> B,
        F: Fn(B, T) -> B,
        requires
            forall|x: T| call_requires(init, (x,)),
            forall|b: B, x: T| call_requires(f, (b, x)),
    ;
}

impl<'a, T: Copy> IterExt<T> for &'a [T] {
    fn reduce_with<B, I, F>(self, init: I, f: F) -> (res: Option<B>) where
        I: FnOnce(T) -> B,
        F: Fn(B, T) -> B,
        ensures
            res is None <==> self@.len() == 0,
            res matches Some(b) ==> exists|accs: Seq<B>|
                is_fold_chain(init, f, self@, accs) && b == accs.last(),
    {
        if self.len() == 0 {
            return None;
        }
        let first = self[0];
        let mut acc = init(first);
        let ghost mut accs: Seq<B> = seq![acc];
        let mut i: usize = 1;
        while i < self.len()
            invariant
                1 <= i <= self@.len(),
                accs.len() == i,
                acc == accs.last(),
                call_ensures(init, (self@[0],), accs[0]),
                forall|j: int|
                    #![trigger accs[j]]
                    0 < j < i ==> call_ensures(f, (accs[j - 1], self@[j]), accs[j]),
                forall|b: B, x: T| call_requires(f, (b, x)),
            decreases self@.len() - i,
        {
            let x = self[i];
            let next = f(acc, x);
            proof {
                accs = accs.push(next);
            }
            acc = next;
            i = i + 1;
        }
        assert(is_fold_chain(init, f, self@, accs));
        Some(acc)
    }
}

} // verus!

//! Index-addressed parallel evaluation on the rayon thread pool.

use rayon::iter::{IntoParallelIterator, ParallelIterator};
use vstd::prelude::*;

verus! {

/// rayon's `into_par_iter().map(f).collect()` on the range `0..n`: `f` is
/// called once for every index, on some worker thread, and the results come
/// back in the order of the indices.
#[verifier::external_body]
pub(crate) fn par_map_range<R: Send, G: Fn(usize) -> R + Sync + Send>(n: usize, f: G) -> (out: Vec<R>)
    requires
        forall|i: usize| i < n ==> call_requires(f, (i,)),
    ensures
        out.len() == n,
        forall|i: usize| i < n ==> call_ensures(f, (i,), #[trigger] out[i as int]),
{
    (0..n).into_par_iter().map(f).collect()
}

} // verus!

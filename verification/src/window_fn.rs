//! The symmetric-taper structure of the analysis window function.
//!
//! A Hann window of `n` weights is symmetric about its center, so
//! only the first `(n + 1) / 2` weights need computing; the rest are
//! a mirror image. The weight arithmetic is floating point and is
//! supplied by the caller; this module builds the full window from
//! the computed half and guarantees the symmetry.

use vstd::prelude::*;

verus! {

/// Extend the computed first half of a symmetric window to the full
/// `sample_count` weights by mirroring: the result begins with the
/// half as given and is symmetric about its center,
/// `w[i] == w[sample_count - 1 - i]` throughout.
pub fn mirror_second_half<T: Copy>(half: &Vec<T>, sample_count: usize) -> (w: Vec<T>)
    requires
        sample_count >= 1,
        half@.len() == (sample_count + 1) / 2,
    ensures
        w@.len() == sample_count,
        forall|i: int| 0 <= i < half@.len() ==> w@[i] == half@[i],
        forall|i: int| 0 <= i < sample_count ==> #[trigger] w@[i] == w@[sample_count - 1 - i],
{
    let halfsize = half.len();
    let mut w: Vec<T> = Vec::new();
    let mut j: usize = 0;
    while j < halfsize
        invariant
            j <= halfsize,
            halfsize == half@.len(),
            w@ == half@.take(j as int),
        decreases halfsize - j,
    {
        w.push(half[j]);
        proof {
            assert(half@.take(j as int).push(half@[j as int]) =~= half@.take(j + 1));
        }
        j = j + 1;
    }
    proof {
        assert(w@ =~= half@);
    }
    let mut i: usize = halfsize;
    while i < sample_count
        invariant
            halfsize == half@.len(),
            halfsize == (sample_count + 1) / 2,
            halfsize <= i <= sample_count,
            w@.len() == i,
            forall|k: int| 0 <= k < halfsize ==> w@[k] == half@[k],
            forall|k: int| halfsize <= k < i ==> w@[k] == half@[sample_count - 1 - k],
        decreases sample_count - i,
    {
        w.push(half[sample_count - 1 - i]);
        i = i + 1;
    }
    proof {
        assert forall|i: int| 0 <= i < sample_count implies #[trigger] w@[i] == w@[sample_count
            - 1 - i] by {
            let m = sample_count - 1 - i;
            if i >= halfsize {
                assert(w@[i] == half@[m]);
            } else if m >= halfsize {
                assert(w@[m] == half@[i]);
            }
        }
    }
    w
}

} // verus!

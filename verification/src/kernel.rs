//! The kernel oracle: a fixed, symmetric matrix of pairwise similarities
//! over the training set, answering "similarity of sample i and sample j".
//! Rows are stored outright, so every query is answered from the same
//! immutable data and is trivially deterministic and side-effect-free.

use vstd::prelude::*;
use crate::{MAX_KERNEL, MAX_SAMPLES};
use crate::solver_smo::SvmError;

verus! {

/// A similarity oracle over a fixed dataset, held as a full square matrix.
/// Entries are fixed-point values (see `ONE`).
#[derive(Debug)]
pub struct Kernel {
    pub matrix: Vec<Vec<i64>>,
}

impl Kernel {
    /// Number of samples the oracle answers for.
    pub open spec fn n(self) -> int {
        self.matrix@.len() as int
    }

    /// The similarity of samples i and j.
    pub open spec fn at(self, i: int, j: int) -> int {
        self.matrix@[i]@[j] as int
    }

    /// Well-formedness: square, nonempty, within the representable range,
    /// and symmetric.
    pub open spec fn wf(self) -> bool {
        &&& 1 <= self.n() <= MAX_SAMPLES
        &&& forall|i: int| 0 <= i < self.n() ==> #[trigger] self.matrix@[i]@.len() == self.n()
        &&& forall|i: int, j: int|
            0 <= i < self.n() && 0 <= j < self.n() ==> -MAX_KERNEL <= #[trigger] self.at(i, j)
                <= MAX_KERNEL
        &&& forall|i: int, j: int|
            0 <= i < self.n() && 0 <= j < self.n() ==> #[trigger] self.at(i, j) == self.at(j, i)
    }

    /// Wraps a similarity matrix, rejecting one that is not square, is
    /// empty or too large, has an entry out of range, or is asymmetric.
    pub fn from_matrix(matrix: Vec<Vec<i64>>) -> (r: Result<Kernel, SvmError>)
        ensures
            match r {
                Ok(k) => k.matrix@ == matrix@ && k.wf(),
                Err(e) => e == SvmError::InvalidKernel && !(Kernel { matrix }.wf()),
            },
    {
        let n = matrix.len();
        if n == 0 || n > MAX_SAMPLES {
            return Err(SvmError::InvalidKernel);
        }
        let mut i: usize = 0;
        while i < n
            invariant
                i <= n,
                1 <= n <= MAX_SAMPLES,
                n == matrix@.len(),
                forall|a: int| 0 <= a < i ==> #[trigger] matrix@[a]@.len() == n as int,
                forall|a: int, b: int|
                    0 <= a < i && 0 <= b < n ==> -MAX_KERNEL <= #[trigger] (matrix@[a]@[b] as int)
                        <= MAX_KERNEL,
                forall|a: int, b: int|
                    0 <= a < i && 0 <= b <= a ==> #[trigger] (matrix@[a]@[b] as int)
                        == matrix@[b]@[a] as int,
            decreases n - i,
        {
            let row = &matrix[i];
            if row.len() != n {
                return Err(SvmError::InvalidKernel);
            }
            let mut j: usize = 0;
            while j < n
                invariant
                    j <= n,
                    i < n,
                    1 <= n <= MAX_SAMPLES,
                    n == matrix@.len(),
                    matrix@[i as int]@.len() == n as int,
                    forall|a: int| 0 <= a < i ==> #[trigger] matrix@[a]@.len() == n as int,
                    forall|b: int|
                        0 <= b < j ==> -MAX_KERNEL <= #[trigger] (matrix@[i as int]@[b] as int)
                            <= MAX_KERNEL,
                    forall|b: int|
                        0 <= b < j && b <= i ==> #[trigger] (matrix@[i as int]@[b] as int)
                            == matrix@[b]@[i as int] as int,
                decreases n - j,
            {
                let v = matrix[i][j];
                if v < -MAX_KERNEL || v > MAX_KERNEL {
                    proof {
                        let k = Kernel { matrix: matrix };
                        assert(k.at(i as int, j as int) == v);
                        assert(!k.wf());
                    }
                    return Err(SvmError::InvalidKernel);
                }
                if j <= i {
                    // rows 0..=i are known square, so the mirror entry exists
                    if matrix[j][i] != v {
                        proof {
                            let k = Kernel { matrix: matrix };
                            assert(k.at(i as int, j as int) == v);
                            assert(k.at(j as int, i as int) != v);
                            assert(!k.wf());
                        }
                        return Err(SvmError::InvalidKernel);
                    }
                }
                j += 1;
            }
            i += 1;
        }
        let k = Kernel { matrix };
        proof {
            assert forall|a: int, b: int|
                0 <= a < k.n() && 0 <= b < k.n() implies #[trigger] k.at(a, b) == k.at(b, a) by {
                if a < b {
                    assert(k.at(b, a) == k.at(a, b));
                }
            }
        }
        Ok(k)
    }

    /// The similarity of samples i and j.
    pub fn value(&self, i: usize, j: usize) -> (v: i64)
        requires
            self.wf(),
            i < self.n(),
            j < self.n(),
        ensures
            v as int == self.at(i as int, j as int),
            -MAX_KERNEL <= v <= MAX_KERNEL,
    {
        self.matrix[i][j]
    }

    /// Number of samples.
    pub fn len(&self) -> (n: usize)
        ensures
            n as int == self.n(),
    {
        self.matrix.len()
    }
}

} // verus!

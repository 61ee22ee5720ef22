//! A dense row-major matrix and the rows and columns that the benchmark's
//! multiplication takes dot products of.
use vstd::prelude::*;

verus! {

/// A dense matrix stored row by row: element `(r, c)` of a matrix with
/// `dim.1` columns is `data[r * dim.1 + c]`.
pub struct Matrix<T> {
    data: Vec<T>,
    dim: (usize, usize),
}

/// The elements `s[n]`, `s[n + stride]`, `s[n + 2 * stride]`, ... that lie
/// within `s`.
pub open spec fn strided_from<T>(s: Seq<T>, stride: int, n: int) -> Seq<T>
    recommends
        stride > 0,
        n >= 0,
{
    let count = if n < s.len() {
        (s.len() - n - 1) / stride + 1
    } else {
        0
    };
    Seq::new(count as nat, |k: int| s[n + k * stride])
}

impl<T> Matrix<T> {
    /// The elements, row by row.
    pub closed spec fn elements(&self) -> Seq<T> {
        self.data@
    }

    /// The number of rows and of columns.
    pub closed spec fn shape(&self) -> (usize, usize) {
        self.dim
    }

    /// The matrix with these elements, row by row, and these dimensions.
    pub fn new(data: Vec<T>, dim: (usize, usize)) -> (m: Self)
        ensures
            m.elements() == data@,
            m.shape() == dim,
    {
        Matrix { data, dim }
    }

    /// The number of elements stored.
    pub fn len(&self) -> (r: usize)
        ensures
            r == self.elements().len(),
    {
        self.data.len()
    }

    /// The number of rows and of columns.
    pub fn dim(&self) -> (r: (usize, usize))
        ensures
            r == self.shape(),
    {
        self.dim
    }
}

impl<T: Copy> Matrix<T> {
    /// Row `n`: the elements `n * cols .. (n + 1) * cols`.
    ///
    /// The caller must rule out the case where the row lies past the elements.
    pub fn row(&self, n: usize) -> (r: &[T])
        requires
            self.shape().1 * (n + 1) <= self.elements().len(),
        ensures
            r@ == self.elements().subrange(
                self.shape().1 * n,
                self.shape().1 * (n + 1),
            ),
    {
        let cols = self.dim.1;
        let len = self.data.len();
        proof {
            assert(cols * (n + 1) == cols * n + cols) by (nonlinear_arith);
            assert(cols * n + cols <= len);
        }
        let start = cols * n;
        let end = start + cols;
        let s = self.data.as_slice();
        &s[start..end]
    }

    /// Column `n`: every `cols`-th element, starting at element `n`.
    ///
    /// The caller must rule out the case where `n` is not below the number of columns.
    pub fn col(&self, n: usize) -> (r: Vec<T>)
        requires
            n < self.shape().1,
        ensures
            r@ == strided_from(self.elements(), self.shape().1 as int, n as int),
    {
        let stride = self.dim.1;
        let len = self.data.len();
        let ghost s = self.data@;
        let count: usize = if n < len {
            (len - n - 1) / stride + 1
        } else {
            0
        };
        let mut out: Vec<T> = Vec::new();
        let mut i: usize = n;
        let mut k: usize = 0;
        while k < count
            invariant
                stride == self.shape().1,
                stride > 0,
                len == s.len(),
                s == self.elements(),
                count == (if n < len {
                    (len - n - 1) / (stride as int) + 1
                } else {
                    0
                }),
                k <= count,
                k < count ==> i == n + k * stride,
                out@.len() == k,
                forall|j: int| 0 <= j < k ==> out@[j] == s[n + j * stride],
            decreases count - k,
        {
            proof {
                lemma_index_within(len as int, n as int, stride as int, k as int);
            }
            out.push(self.data[i]);
            k = k + 1;
            if k < count {
                proof {
                    lemma_index_within(len as int, n as int, stride as int, k as int);
                    assert(n + k * stride == i + stride) by (nonlinear_arith)
                        requires
                            i == n + (k - 1) * stride,
                    ;
                }
                i = i + stride;
            }
        }
        assert(out@ =~= strided_from(s, stride as int, n as int));
        out
    }
}

/// Element `n + k * stride` lies within `len` elements while `k` is below
/// the number of such elements.
proof fn lemma_index_within(len: int, n: int, stride: int, k: int)
    requires
        stride > 0,
        0 <= n < len,
        0 <= k <= (len - n - 1) / stride,
    ensures
        n + k * stride < len,
{
    let q = (len - n - 1) / stride;
    vstd::arithmetic::div_mod::lemma_fundamental_div_mod(len - n - 1, stride);
    vstd::arithmetic::div_mod::lemma_mod_pos_bound(len - n - 1, stride);
    assert(k * stride <= q * stride) by (nonlinear_arith)
        requires
            0 <= k <= q,
            stride > 0,
    ;
}

} // verus!

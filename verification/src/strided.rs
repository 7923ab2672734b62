//! Strided views: descriptors of evenly spaced selections of a buffer.
//!
//! A `Strided` names, for each axis, how many elements the view has and how
//! far apart (in buffer cells, possibly negative or zero) consecutive
//! elements sit, together with the buffer offset of the first element. The
//! buffer itself is passed to every reading or writing operation, so a
//! descriptor can outlive nothing and alias freely; operations that write
//! demand in their contracts that the cells they touch are distinct.

use vstd::arithmetic::div_mod::lemma_div_pos_is_pos;
use vstd::std_specs::cmp::PartialEqSpec;
use vstd::arithmetic::div_mod::lemma_fundamental_div_mod;
use vstd::arithmetic::div_mod::lemma_fundamental_div_mod_converse;
use vstd::prelude::*;

verus! {

/// Length of the sub-view `subslice(start, len, step)` takes from a view of
/// `slen` elements: clipped to what the stepped walk can reach, except that
/// a zero step replicates one element exactly `len` times.
pub open spec fn partial_len_spec(slen: int, start: int, len: int, step: int) -> int {
    if start >= slen {
        0
    } else if step == 0 {
        len
    } else {
        let m = if step > 0 {
            step
        } else {
            -step
        };
        let avail = (slen - start - 1) / m + 1;
        if len < avail {
            len
        } else {
            avail
        }
    }
}

/// Index of the original view that element `j` of the sub-view
/// `subslice(start, len, step)` addresses: forward from `start` for a
/// positive step, backward from the last element for a negative one, and
/// `start` itself for a zero step.
pub open spec fn partial_index_spec(slen: int, start: int, step: int, j: int) -> int {
    if step > 0 {
        start + j * step
    } else if step < 0 {
        slen - 1 + j * step
    } else {
        start
    }
}

/// A product of nonnegative factors is nonnegative.
proof fn lemma_nonneg_prod(a: int, b: int)
    requires
        a >= 0,
        b >= 0,
    ensures
        a * b >= 0,
        b >= 1 ==> a <= a * b,
{
    assert(a * b >= 0) by (nonlinear_arith)
        requires
            a >= 0,
            b >= 0,
    ;
    assert(b >= 1 ==> a <= a * b) by (nonlinear_arith)
        requires
            a >= 0,
    ;
}

/// For a positive divisor, the quotient times the divisor does not exceed
/// the (nonnegative) dividend, and the quotient is positive only when the
/// dividend reaches the divisor.
pub proof fn lemma_div_mul_le(a: int, m: int)
    requires
        a >= 0,
        m > 0,
    ensures
        (a / m) * m <= a,
        a / m >= 1 ==> a >= m,
        a >= m ==> a / m >= 1,
{
    lemma_fundamental_div_mod(a, m);
    assert((a / m) * m == m * (a / m)) by (nonlinear_arith);
    assert(a / m >= 1 ==> m * (a / m) >= m) by (nonlinear_arith)
        requires
            m > 0,
    ;
    assert(a / m == 0 ==> m * (a / m) == 0) by (nonlinear_arith);
}

/// Index of the original view that cell `(i, j)` of its chunking into rows
/// of `n` addresses.
pub open spec fn chunk_index_spec(n: int, i: int, j: int) -> int {
    i * n + j
}

/// How many elements phase `k` of a deinterleave into `n` phases receives:
/// one per full period, plus one more exactly when `k` falls before the cut
/// of the last partial period.
pub open spec fn deint_len_spec(slen: int, n: int, k: int) -> int {
    slen / n + if k < slen % n {
        1int
    } else {
        0int
    }
}

/// Index of the original view that element `j` of deinterleave phase `k`
/// (of `n`) addresses.
pub open spec fn deint_index_spec(n: int, k: int, j: int) -> int {
    k + j * n
}

/// The clipped walk of `subslice(k, slen, n)` has exactly the deinterleave
/// phase length.
proof fn lemma_deint_len(slen: int, n: int, k: int)
    requires
        0 <= k < n,
        slen >= 0,
    ensures
        partial_len_spec(slen, k, slen, n) == deint_len_spec(slen, n, k),
{
    lemma_fundamental_div_mod(slen, n);
    let q = slen / n;
    let rmod = slen % n;
    if k >= slen {
        assert(slen < n);
        lemma_fundamental_div_mod_converse(slen, n, 0, slen);
        assert(q == 0 && rmod == slen);
    } else {
        let a = slen - k - 1;
        let avail = a / n + 1;
        lemma_div_mul_le(a, n);
        assert(a / n <= a) by {
            assert((a / n) * n >= a / n) by (nonlinear_arith)
                requires
                    n >= 1,
                    a / n >= 0,
            ;
        }
        assert(avail <= slen);
        if k < rmod {
            assert(a == n * q + (rmod - k - 1));
            assert(n * q == q * n) by (nonlinear_arith);
            lemma_fundamental_div_mod_converse(a, n, q, rmod - k - 1);
            assert(avail == q + 1);
        } else {
            assert(q >= 1) by {
                assert(n * 0 + rmod == rmod);
                if q == 0 {
                    assert(slen == rmod);
                }
            }
            assert(a == n * (q - 1) + (n + rmod - k - 1)) by (nonlinear_arith)
                requires
                    slen == n * q + rmod && a == slen - k - 1,
            ;
            assert(n * (q - 1) == (q - 1) * n) by (nonlinear_arith);
            lemma_fundamental_div_mod_converse(a, n, q - 1, n + rmod - k - 1);
            assert(avail == q);
        }
    }
}

/// Shape metadata of a strided view: a dimension count and, for each axis,
/// a length and an element stride, outermost axis first. Only the first
/// `dim` entries of the arrays are meaningful.
#[derive(Clone, Copy)]
pub struct StridedState {
    pub dim: usize,
    pub lens: [usize; 4],
    pub strides: [isize; 4],
}

/// The four regions of a two-axis view partitioned into `n0` by `n1`
/// blocks: the grid of full blocks, the strip of partial-height blocks
/// along the bottom, the strip of partial-width blocks along the right,
/// and the corner that is partial in both directions.
pub struct StridedBlocks {
    pub blocks: Strided,
    pub remaining0: Strided,
    pub remaining1: Strided,
    pub remaining01: Strided,
}

/// A strided view: the buffer offset of its first element plus its shape.
#[derive(Clone, Copy)]
pub struct Strided {
    pub off: usize,
    pub state: StridedState,
}

impl StridedState {
    /// Number of axes of the view this shape describes.
    pub open spec fn sdim(self) -> int {
        self.dim as int
    }

    pub open spec fn len_of(self, k: int) -> int {
        self.lens@[k] as int
    }

    pub open spec fn stride_of(self, k: int) -> int {
        self.strides@[k] as int
    }
}

impl StridedState {
    /// Exchanges axes `a` and `b`: their lengths swap, and their strides
    /// swap too unless one of the lengths is zero, in which case both
    /// strides become zero so that a degenerate axis never carries an
    /// offset.
    fn swap_axes(&mut self, a: usize, b: usize)
        requires
            a < b < 4,
        ensures
            final(self).dim == old(self).dim,
            final(self).len_of(a as int) == old(self).len_of(b as int),
            final(self).len_of(b as int) == old(self).len_of(a as int),
            forall|k: int|
                #![trigger final(self).len_of(k)]
                #![trigger final(self).stride_of(k)]
                0 <= k < 4 && k != a && k != b ==> final(self).len_of(k) == old(self).len_of(k) && final(self).stride_of(k) == old(self).stride_of(k),
            old(self).len_of(a as int) == 0 || old(self).len_of(b as int) == 0 ==> final(self).stride_of(a as int) == 0 && final(self).stride_of(b as int) == 0,
            old(self).len_of(a as int) != 0 && old(self).len_of(b as int) != 0 ==> final(self).stride_of(a as int) == old(self).stride_of(b as int) && final(self).stride_of(
                b as int,
            ) == old(self).stride_of(a as int),
    {
        let la = self.lens[a];
        let lb = self.lens[b];
        self.lens[a] = lb;
        self.lens[b] = la;
        if la == 0 || lb == 0 {
            self.strides[a] = 0;
            self.strides[b] = 0;
        } else {
            let sa = self.strides[a];
            let sb = self.strides[b];
            self.strides[a] = sb;
            self.strides[b] = sa;
        }
    }

    /// Transposes axes 0 and 1 of the shape.
    pub fn transpose01(&mut self)
        ensures
            final(self).dim == old(self).dim,
            final(self).len_of(0) == old(self).len_of(1),
            final(self).len_of(1) == old(self).len_of(0),
            forall|k: int|
                #![trigger final(self).len_of(k)]
                #![trigger final(self).stride_of(k)]
                2 <= k < 4 ==> final(self).len_of(k) == old(self).len_of(k) && final(self).stride_of(k) == old(self).stride_of(k),
            old(self).len_of(0) == 0 || old(self).len_of(1) == 0 ==> final(self).stride_of(0) == 0
                && final(self).stride_of(1) == 0,
            old(self).len_of(0) != 0 && old(self).len_of(1) != 0 ==> final(self).stride_of(0)
                == old(self).stride_of(1) && final(self).stride_of(1) == old(self).stride_of(0),
    {
        self.swap_axes(0, 1);
    }

    /// Transposes axes 0 and 2 of the shape.
    pub fn transpose02(&mut self)
        ensures
            final(self).dim == old(self).dim,
            final(self).len_of(0) == old(self).len_of(2),
            final(self).len_of(2) == old(self).len_of(0),
            forall|k: int|
                #![trigger final(self).len_of(k)]
                #![trigger final(self).stride_of(k)]
                0 <= k < 4 && k != 0 && k != 2 ==> final(self).len_of(k) == old(self).len_of(k) && final(self).stride_of(k) == old(self).stride_of(k),
            old(self).len_of(0) == 0 || old(self).len_of(2) == 0 ==> final(self).stride_of(0) == 0
                && final(self).stride_of(2) == 0,
            old(self).len_of(0) != 0 && old(self).len_of(2) != 0 ==> final(self).stride_of(0)
                == old(self).stride_of(2) && final(self).stride_of(2) == old(self).stride_of(0),
    {
        self.swap_axes(0, 2);
    }

    /// Transposes axes 1 and 2 of the shape.
    pub fn transpose12(&mut self)
        ensures
            final(self).dim == old(self).dim,
            final(self).len_of(1) == old(self).len_of(2),
            final(self).len_of(2) == old(self).len_of(1),
            forall|k: int|
                #![trigger final(self).len_of(k)]
                #![trigger final(self).stride_of(k)]
                0 <= k < 4 && k != 1 && k != 2 ==> final(self).len_of(k) == old(self).len_of(k) && final(self).stride_of(k) == old(self).stride_of(k),
            old(self).len_of(1) == 0 || old(self).len_of(2) == 0 ==> final(self).stride_of(1) == 0
                && final(self).stride_of(2) == 0,
            old(self).len_of(1) != 0 && old(self).len_of(2) != 0 ==> final(self).stride_of(1)
                == old(self).stride_of(2) && final(self).stride_of(2) == old(self).stride_of(1),
    {
        self.swap_axes(1, 2);
    }

    /// Transposes axes 0 and 3 of the shape.
    pub fn transpose03(&mut self)
        ensures
            final(self).dim == old(self).dim,
            final(self).len_of(0) == old(self).len_of(3),
            final(self).len_of(3) == old(self).len_of(0),
            forall|k: int|
                #![trigger final(self).len_of(k)]
                #![trigger final(self).stride_of(k)]
                0 <= k < 4 && k != 0 && k != 3 ==> final(self).len_of(k) == old(self).len_of(k) && final(self).stride_of(k) == old(self).stride_of(k),
            old(self).len_of(0) == 0 || old(self).len_of(3) == 0 ==> final(self).stride_of(0) == 0
                && final(self).stride_of(3) == 0,
            old(self).len_of(0) != 0 && old(self).len_of(3) != 0 ==> final(self).stride_of(0)
                == old(self).stride_of(3) && final(self).stride_of(3) == old(self).stride_of(0),
    {
        self.swap_axes(0, 3);
    }

    /// Transposes axes 1 and 3 of the shape.
    pub fn transpose13(&mut self)
        ensures
            final(self).dim == old(self).dim,
            final(self).len_of(1) == old(self).len_of(3),
            final(self).len_of(3) == old(self).len_of(1),
            forall|k: int|
                #![trigger final(self).len_of(k)]
                #![trigger final(self).stride_of(k)]
                0 <= k < 4 && k != 1 && k != 3 ==> final(self).len_of(k) == old(self).len_of(k) && final(self).stride_of(k) == old(self).stride_of(k),
            old(self).len_of(1) == 0 || old(self).len_of(3) == 0 ==> final(self).stride_of(1) == 0
                && final(self).stride_of(3) == 0,
            old(self).len_of(1) != 0 && old(self).len_of(3) != 0 ==> final(self).stride_of(1)
                == old(self).stride_of(3) && final(self).stride_of(3) == old(self).stride_of(1),
    {
        self.swap_axes(1, 3);
    }

    /// Transposes axes 2 and 3 of the shape.
    pub fn transpose23(&mut self)
        ensures
            final(self).dim == old(self).dim,
            final(self).len_of(2) == old(self).len_of(3),
            final(self).len_of(3) == old(self).len_of(2),
            forall|k: int|
                #![trigger final(self).len_of(k)]
                #![trigger final(self).stride_of(k)]
                0 <= k < 2 ==> final(self).len_of(k) == old(self).len_of(k) && final(self).stride_of(k) == old(self).stride_of(k),
            old(self).len_of(2) == 0 || old(self).len_of(3) == 0 ==> final(self).stride_of(2) == 0
                && final(self).stride_of(3) == 0,
            old(self).len_of(2) != 0 && old(self).len_of(3) != 0 ==> final(self).stride_of(2)
                == old(self).stride_of(3) && final(self).stride_of(3) == old(self).stride_of(2),
    {
        self.swap_axes(2, 3);
    }
}

impl Strided {
    pub open spec fn dim(self) -> int {
        self.state.sdim()
    }

    pub open spec fn len_of(self, k: int) -> int {
        self.state.len_of(k)
    }

    pub open spec fn stride_of(self, k: int) -> int {
        self.state.stride_of(k)
    }

    /// Buffer cell addressed by index `i` of a one-axis view.
    pub open spec fn pos1(self, i: int) -> int {
        self.off + i * self.stride_of(0)
    }

    /// Buffer cell addressed by index `(i, j)` of a two-axis view.
    pub open spec fn pos2(self, i: int, j: int) -> int {
        self.off + i * self.stride_of(0) + j * self.stride_of(1)
    }

    pub open spec fn pos3(self, i: int, j: int, k: int) -> int {
        self.off + i * self.stride_of(0) + j * self.stride_of(1) + k * self.stride_of(2)
    }

    pub open spec fn pos4(self, i: int, j: int, k: int, l: int) -> int {
        self.off + i * self.stride_of(0) + j * self.stride_of(1) + k * self.stride_of(2)
            + l * self.stride_of(3)
    }

    /// A one-axis view over a buffer of `n` cells: every in-range index
    /// addresses a cell of the buffer. The buffer is no larger than the
    /// greatest allocation the platform permits, so every reachable cell
    /// index also fits in `isize`.
    pub open spec fn wf1(self, n: int) -> bool {
        &&& self.dim() == 1
        &&& n <= isize::MAX as int + 1
        &&& forall|i: int| 0 <= i < self.len_of(0) ==> 0 <= #[trigger] self.pos1(i) < n
    }

    /// A two-axis view over a buffer of `n` cells.
    pub open spec fn wf2(self, n: int) -> bool {
        &&& self.dim() == 2
        &&& n <= isize::MAX as int + 1
        &&& forall|i: int, j: int|
            0 <= i < self.len_of(0) && 0 <= j < self.len_of(1) ==> 0 <= #[trigger] self.pos2(
                i,
                j,
            ) < n
    }

    pub open spec fn wf3(self, n: int) -> bool {
        &&& self.dim() == 3
        &&& n <= isize::MAX as int + 1
        &&& forall|i: int, j: int, k: int|
            0 <= i < self.len_of(0) && 0 <= j < self.len_of(1) && 0 <= k < self.len_of(2)
                ==> 0 <= #[trigger] self.pos3(i, j, k) < n
    }

    pub open spec fn wf4(self, n: int) -> bool {
        &&& self.dim() == 4
        &&& n <= isize::MAX as int + 1
        &&& forall|i: int, j: int, k: int, l: int|
            0 <= i < self.len_of(0) && 0 <= j < self.len_of(1) && 0 <= k < self.len_of(2) && 0 <= l
                < self.len_of(3) ==> 0 <= #[trigger] self.pos4(i, j, k, l) < n
    }

    /// No two in-range indices of a one-axis view share a buffer cell, so
    /// writing through one index cannot disturb another. This is the
    /// aliasing discipline that exclusive views demand, stated as a contract.
    pub open spec fn inj1(self) -> bool {
        forall|i: int, j: int|
            0 <= i < self.len_of(0) && 0 <= j < self.len_of(0) && i != j ==> #[trigger] self.pos1(
                i,
            ) != #[trigger] self.pos1(j)
    }

    /// No two in-range index pairs of a two-axis view share a buffer cell.
    pub open spec fn inj2(self) -> bool {
        forall|i1: int, j1: int, i2: int, j2: int|
            0 <= i1 < self.len_of(0) && 0 <= j1 < self.len_of(1) && 0 <= i2 < self.len_of(0) && 0
                <= j2 < self.len_of(1) && (i1 != i2 || j1 != j2) ==> #[trigger] self.pos2(i1, j1)
                != #[trigger] self.pos2(i2, j2)
    }

    /// No two in-range index triples of a three-axis view share a buffer
    /// cell.
    pub open spec fn inj3(self) -> bool {
        forall|i1: int, j1: int, k1: int, i2: int, j2: int, k2: int|
            0 <= i1 < self.len_of(0) && 0 <= j1 < self.len_of(1) && 0 <= k1 < self.len_of(2) && 0
                <= i2 < self.len_of(0) && 0 <= j2 < self.len_of(1) && 0 <= k2 < self.len_of(2) && (
            i1 != i2 || j1 != j2 || k1 != k2) ==> #[trigger] self.pos3(i1, j1, k1)
                != #[trigger] self.pos3(i2, j2, k2)
    }

    /// No two in-range index quadruples of a four-axis view share a buffer
    /// cell.
    pub open spec fn inj4(self) -> bool {
        forall|i1: int, j1: int, k1: int, l1: int, i2: int, j2: int, k2: int, l2: int|
            0 <= i1 < self.len_of(0) && 0 <= j1 < self.len_of(1) && 0 <= k1 < self.len_of(2) && 0
                <= l1 < self.len_of(3) && 0 <= i2 < self.len_of(0) && 0 <= j2 < self.len_of(1) && 0
                <= k2 < self.len_of(2) && 0 <= l2 < self.len_of(3) && (i1 != i2 || j1 != j2 || k1
                != k2 || l1 != l2) ==> #[trigger] self.pos4(i1, j1, k1, l1) != #[trigger] self.pos4(
                i2,
                j2,
                k2,
                l2,
            )
    }

    /// Whether buffer cell `p` is addressed by some in-range index of a
    /// one-axis view.
    pub open spec fn covers1(self, p: int) -> bool {
        exists|i: int| 0 <= i < self.len_of(0) && #[trigger] self.pos1(i) == p
    }

    /// Whether buffer cell `p` is addressed by some in-range index pair of
    /// a two-axis view.
    pub open spec fn covers2(self, p: int) -> bool {
        exists|i: int, j: int|
            0 <= i < self.len_of(0) && 0 <= j < self.len_of(1) && #[trigger] self.pos2(i, j) == p
    }

    /// The sequence of buffer values a one-axis view addresses, in index
    /// order.
    pub open spec fn seq1<T>(self, buf: Seq<T>) -> Seq<T> {
        Seq::new(self.len_of(0) as nat, |i: int| buf[self.pos1(i)])
    }

    /// The grid of buffer values a two-axis view addresses: one inner
    /// sequence per index of the outer axis.
    pub open spec fn grid2<T>(self, buf: Seq<T>) -> Seq<Seq<T>> {
        Seq::new(
            self.len_of(0) as nat,
            |i: int| Seq::new(self.len_of(1) as nat, |j: int| buf[self.pos2(i, j)]),
        )
    }

    /// An empty one-axis view.
    pub fn new() -> (r: Strided)
        ensures
            r.dim() == 1,
            r.len_of(0) == 0,
            r.off == 0,
            forall|n: int| 0 <= n <= isize::MAX as int + 1 ==> r.wf1(n),
    {
        Strided { off: 0, state: StridedState { dim: 1, lens: [0, 0, 0, 0], strides: [1, 0, 0, 0] } }
    }

    /// The one-axis view of a whole buffer of `len` cells: offset zero,
    /// stride one.
    pub fn contiguous(len: usize) -> (r: Strided)
        requires
            len <= isize::MAX as int + 1,
        ensures
            r.dim() == 1,
            r.len_of(0) == len,
            r.stride_of(0) == 1,
            r.off == 0,
            forall|i: int| #![trigger r.pos1(i)] 0 <= i < len ==> r.pos1(i) == i,
            forall|n: int| len <= n <= isize::MAX as int + 1 ==> r.wf1(n),
            r.inj1(),
    {
        let r = Strided {
            off: 0,
            state: StridedState { dim: 1, lens: [len, 0, 0, 0], strides: [1, 0, 0, 0] },
        };
        proof {
            assert forall|i: int| 0 <= i < len implies r.pos1(i) == i by {
                assert(r.stride_of(0) == 1);
            }
        }
        r
    }

    /// Shape metadata of this view.
    pub fn state(&self) -> (r: &StridedState)
        ensures
            r == self.state,
    {
        &self.state
    }

    /// Length of the outermost axis.
    pub fn len(&self) -> (r: usize)
        ensures
            r == self.len_of(0),
    {
        self.state.lens[0]
    }

    /// Stride of the outermost axis, in buffer cells.
    pub fn stride(&self) -> (r: isize)
        ensures
            r == self.stride_of(0),
    {
        self.state.strides[0]
    }

    /// Total number of elements the view addresses: the product of its
    /// axis lengths.
    pub fn total_size(&self) -> (r: usize)
        requires
            1 <= self.dim() <= 4,
            self.dim() >= 2 ==> self.len_of(0) * self.len_of(1) <= usize::MAX,
            self.dim() >= 3 ==> self.len_of(0) * self.len_of(1) * self.len_of(2) <= usize::MAX,
            self.dim() >= 4 ==> self.len_of(0) * self.len_of(1) * self.len_of(2) * self.len_of(3)
                <= usize::MAX,
        ensures
            self.dim() == 1 ==> r == self.len_of(0),
            self.dim() == 2 ==> r == self.len_of(0) * self.len_of(1),
            self.dim() == 3 ==> r == self.len_of(0) * self.len_of(1) * self.len_of(2),
            self.dim() == 4 ==> r == self.len_of(0) * self.len_of(1) * self.len_of(2) * self.len_of(
                3,
            ),
    {
        let d = self.state.dim;
        let mut r = self.state.lens[0];
        if d >= 2 {
            proof {
                lemma_nonneg_prod(self.len_of(0), self.len_of(1));
            }
            r = r * self.state.lens[1];
        }
        if d >= 3 {
            proof {
                lemma_nonneg_prod(self.len_of(0) * self.len_of(1), self.len_of(2));
            }
            r = r * self.state.lens[2];
        }
        if d >= 4 {
            proof {
                lemma_nonneg_prod(self.len_of(0) * self.len_of(1) * self.len_of(2), self.len_of(3));
            }
            r = r * self.state.lens[3];
        }
        r
    }

    pub fn is_empty(&self) -> (r: bool)
        ensures
            r == (self.len_of(0) == 0),
    {
        self.state.lens[0] == 0
    }

    /// Buffer cell index of element `i` of a one-axis view.
    fn index1(&self, i: usize) -> (r: usize)
        requires
            0 <= self.pos1(i as int) <= isize::MAX as int,
        ensures
            r == self.pos1(i as int),
    {
        let s: isize = self.state.strides[0];
        if s >= 0 {
            proof {
                assert(i * s >= 0) by (nonlinear_arith)
                    requires
                        i >= 0 && s >= 0,
                ;
            }
            self.off + i * (s as usize)
        } else {
            let m: usize = if s == isize::MIN {
                (isize::MAX as usize) + 1
            } else {
                (-s) as usize
            };
            proof {
                assert(i * s == -(i * (m as int))) by (nonlinear_arith)
                    requires
                        m == -(s as int) && i >= 0,
                ;
            }
            self.off - i * m
        }
    }

    /// Element `i` of a one-axis view of `buf`, or `None` when `i` is out of
    /// range.
    pub fn checked_get<T: Copy>(&self, buf: &Vec<T>, i: usize) -> (r: Option<T>)
        requires
            self.wf1(buf@.len() as int),
        ensures
            i < self.len_of(0) ==> r == Some(self.seq1(buf@)[i as int]),
            i >= self.len_of(0) ==> r is None,
    {
        if i < self.state.lens[0] {
            Some(buf[self.index1(i)])
        } else {
            None
        }
    }

    /// Element `i` of a one-axis view of `buf`.
    pub fn get<T: Copy>(&self, buf: &Vec<T>, i: usize) -> (r: T)
        requires
            self.wf1(buf@.len() as int),
            i < self.len_of(0),
        ensures
            r == self.seq1(buf@)[i as int],
    {
        buf[self.index1(i)]
    }

    /// Writes `v` to element `i` of a one-axis view of `buf`. Only that one
    /// buffer cell changes.
    pub fn store<T>(&self, buf: &mut Vec<T>, i: usize, v: T)
        requires
            self.wf1(old(buf)@.len() as int),
            i < self.len_of(0),
        ensures
            final(buf)@ == old(buf)@.update(self.pos1(i as int), v),
            final(buf)@.len() == old(buf)@.len(),
    {
        let p = self.index1(i);
        buf.set(p, v);
    }

    /// First element of a one-axis view of `buf`, or `None` when it is
    /// empty.
    pub fn first<T: Copy>(&self, buf: &Vec<T>) -> (r: Option<T>)
        requires
            self.wf1(buf@.len() as int),
        ensures
            self.len_of(0) > 0 ==> r == Some(self.seq1(buf@)[0]),
            self.len_of(0) == 0 ==> r is None,
    {
        self.checked_get(buf, 0)
    }

    /// Last element of a one-axis view of `buf`, or `None` when it is empty.
    pub fn last<T: Copy>(&self, buf: &Vec<T>) -> (r: Option<T>)
        requires
            self.wf1(buf@.len() as int),
        ensures
            self.len_of(0) > 0 ==> r == Some(self.seq1(buf@)[self.len_of(0) - 1]),
            self.len_of(0) == 0 ==> r is None,
    {
        if self.state.lens[0] == 0 {
            None
        } else {
            self.checked_get(buf, self.state.lens[0] - 1)
        }
    }

    /// Every cell a one-axis view can address lies within the greatest
    /// offset a signed machine word can hold, so offset arithmetic on the
    /// descriptor cannot overflow. Implied by `wf1` for any buffer.
    pub open spec fn addr1(self) -> bool {
        &&& self.dim() == 1
        &&& forall|i: int| 0 <= i < self.len_of(0) ==> 0 <= #[trigger] self.pos1(i) <= isize::MAX as int
    }

    pub open spec fn addr2(self) -> bool {
        &&& self.dim() == 2
        &&& forall|i: int, j: int|
            0 <= i < self.len_of(0) && 0 <= j < self.len_of(1) ==> 0 <= #[trigger] self.pos2(i, j)
                <= isize::MAX as int
    }

    /// Splits a one-axis view at `i`: the first `i` elements and the rest,
    /// as two descriptors over the same buffer. `None` when `i` exceeds the
    /// length.
    pub fn checked_split_at(&self, i: usize) -> (r: Option<(Strided, Strided)>)
        requires
            self.addr1(),
        ensures
            i > self.len_of(0) ==> r is None,
            i <= self.len_of(0) ==> {
                let (a, b) = r->Some_0;
                &&& r is Some
                &&& a.dim() == 1 && b.dim() == 1
                &&& a.len_of(0) == i
                &&& b.len_of(0) == self.len_of(0) - i
                &&& forall|j: int| 0 <= j < i ==> #[trigger] a.pos1(j) == self.pos1(j)
                &&& forall|j: int|
                    0 <= j < self.len_of(0) - i ==> #[trigger] b.pos1(j) == self.pos1(i + j)
            },
    {
        let n = self.state.lens[0];
        if i > n {
            None
        } else if i == n {
            let a = Strided { off: self.off, state: self.state };
            let b = Strided {
                off: self.off,
                state: StridedState { dim: 1, lens: [0, 0, 0, 0], strides: [0, 0, 0, 0] },
            };
            Some((a, b))
        } else {
            let mut sa = self.state;
            sa.lens[0] = i;
            let a = Strided { off: self.off, state: sa };
            let mut sb = self.state;
            sb.lens[0] = n - i;
            let b = Strided { off: self.index1(i), state: sb };
            proof {
                assert forall|j: int| 0 <= j < self.len_of(0) - i implies #[trigger] b.pos1(j)
                    == self.pos1(i + j) by {
                    assert((i + j) * self.stride_of(0) == i * self.stride_of(0) + j * self.stride_of(
                        0,
                    )) by (nonlinear_arith);
                }
            }
            Some((a, b))
        }
    }

    /// As `checked_split_at`; `i` must be in range.
    pub fn split_at(&self, i: usize) -> (r: (Strided, Strided))
        requires
            self.addr1(),
            i <= self.len_of(0),
        ensures
            ({
                let (a, b) = r;
                &&& a.dim() == 1 && b.dim() == 1
                &&& a.len_of(0) == i
                &&& b.len_of(0) == self.len_of(0) - i
                &&& forall|j: int| 0 <= j < i ==> #[trigger] a.pos1(j) == self.pos1(j)
                &&& forall|j: int|
                    0 <= j < self.len_of(0) - i ==> #[trigger] b.pos1(j) == self.pos1(i + j)
            }),
    {
        match self.checked_split_at(i) {
            Some(p) => p,
            None => {
                proof {
                    assert(false);
                }
                (Strided::new(), Strided::new())
            },
        }
    }

    /// As `split_at`, consuming the view.
    pub fn into_split_at(self, i: usize) -> (r: (Strided, Strided))
        requires
            self.addr1(),
            i <= self.len_of(0),
        ensures
            ({
                let (a, b) = r;
                &&& a.dim() == 1 && b.dim() == 1
                &&& a.len_of(0) == i
                &&& b.len_of(0) == self.len_of(0) - i
                &&& forall|j: int| 0 <= j < i ==> #[trigger] a.pos1(j) == self.pos1(j)
                &&& forall|j: int|
                    0 <= j < self.len_of(0) - i ==> #[trigger] b.pos1(j) == self.pos1(i + j)
            }),
    {
        self.split_at(i)
    }

    /// Splits a one-axis view at `i`, promising additionally what exclusive
    /// access needs: when the view addresses pairwise distinct cells, the
    /// two halves do too, and no cell is shared between them.
    pub fn checked_split_at_mut(&self, i: usize) -> (r: Option<(Strided, Strided)>)
        requires
            self.addr1(),
        ensures
            i > self.len_of(0) ==> r is None,
            i <= self.len_of(0) ==> {
                let (a, b) = r->Some_0;
                &&& r is Some
                &&& a.dim() == 1 && b.dim() == 1
                &&& a.len_of(0) == i
                &&& b.len_of(0) == self.len_of(0) - i
                &&& forall|j: int| 0 <= j < i ==> #[trigger] a.pos1(j) == self.pos1(j)
                &&& forall|j: int|
                    0 <= j < self.len_of(0) - i ==> #[trigger] b.pos1(j) == self.pos1(i + j)
                &&& self.inj1() ==> a.inj1() && b.inj1() && (forall|p: int, q: int|
                    0 <= p < a.len_of(0) && 0 <= q < b.len_of(0) ==> #[trigger] a.pos1(p)
                        != #[trigger] b.pos1(q))
            },
    {
        self.checked_split_at(i)
    }

    /// As `checked_split_at_mut`; `i` must be in range.
    pub fn split_at_mut(&self, i: usize) -> (r: (Strided, Strided))
        requires
            self.addr1(),
            i <= self.len_of(0),
        ensures
            ({
                let (a, b) = r;
                &&& a.dim() == 1 && b.dim() == 1
                &&& a.len_of(0) == i
                &&& b.len_of(0) == self.len_of(0) - i
                &&& forall|j: int| 0 <= j < i ==> #[trigger] a.pos1(j) == self.pos1(j)
                &&& forall|j: int|
                    0 <= j < self.len_of(0) - i ==> #[trigger] b.pos1(j) == self.pos1(i + j)
                &&& self.inj1() ==> a.inj1() && b.inj1() && (forall|p: int, q: int|
                    0 <= p < a.len_of(0) && 0 <= q < b.len_of(0) ==> #[trigger] a.pos1(p)
                        != #[trigger] b.pos1(q))
            }),
    {
        self.split_at(i)
    }

    /// First element of a one-axis view of `buf` plus the view of the rest,
    /// or `None` when the view is empty.
    pub fn split_first<T: Copy>(&self, buf: &Vec<T>) -> (r: Option<(T, Strided)>)
        requires
            self.wf1(buf@.len() as int),
        ensures
            self.len_of(0) == 0 ==> r is None,
            self.len_of(0) > 0 ==> {
                let (v, rest) = r->Some_0;
                &&& v == self.seq1(buf@)[0]
                &&& rest.dim() == 1
                &&& rest.len_of(0) == self.len_of(0) - 1
                &&& forall|j: int|
                    0 <= j < self.len_of(0) - 1 ==> #[trigger] rest.pos1(j) == self.pos1(1 + j)
            },
    {
        if self.state.lens[0] == 0 {
            None
        } else {
            let v = self.get(buf, 0);
            let (_, rest) = self.split_at(1);
            Some((v, rest))
        }
    }

    /// Last element of a one-axis view of `buf` plus the view of the rest,
    /// or `None` when the view is empty.
    pub fn split_last<T: Copy>(&self, buf: &Vec<T>) -> (r: Option<(T, Strided)>)
        requires
            self.wf1(buf@.len() as int),
        ensures
            self.len_of(0) == 0 ==> r is None,
            self.len_of(0) > 0 ==> {
                let (v, rest) = r->Some_0;
                &&& v == self.seq1(buf@)[self.len_of(0) - 1]
                &&& rest.dim() == 1
                &&& rest.len_of(0) == self.len_of(0) - 1
                &&& forall|j: int|
                    0 <= j < self.len_of(0) - 1 ==> #[trigger] rest.pos1(j) == self.pos1(j)
            },
    {
        let n = self.state.lens[0];
        if n == 0 {
            None
        } else {
            let v = self.get(buf, n - 1);
            let (rest, _) = self.split_at(n - 1);
            Some((v, rest))
        }
    }

    /// As `split_first`, also promising that the rest shares no cell with
    /// the element taken off when the view is self-disjoint.
    pub fn split_first_mut<T: Copy>(&self, buf: &Vec<T>) -> (r: Option<(T, Strided)>)
        requires
            self.wf1(buf@.len() as int),
        ensures
            self.len_of(0) == 0 ==> r is None,
            self.len_of(0) > 0 ==> {
                let (v, rest) = r->Some_0;
                &&& v == self.seq1(buf@)[0]
                &&& rest.dim() == 1
                &&& rest.len_of(0) == self.len_of(0) - 1
                &&& forall|j: int|
                    0 <= j < self.len_of(0) - 1 ==> #[trigger] rest.pos1(j) == self.pos1(1 + j)
                &&& self.inj1() ==> rest.inj1() && (forall|j: int|
                    0 <= j < rest.len_of(0) ==> #[trigger] rest.pos1(j) != self.pos1(0))
            },
    {
        self.split_first(buf)
    }

    /// As `split_last`, also promising that the rest shares no cell with
    /// the element taken off when the view is self-disjoint.
    pub fn split_last_mut<T: Copy>(&self, buf: &Vec<T>) -> (r: Option<(T, Strided)>)
        requires
            self.wf1(buf@.len() as int),
        ensures
            self.len_of(0) == 0 ==> r is None,
            self.len_of(0) > 0 ==> {
                let (v, rest) = r->Some_0;
                &&& v == self.seq1(buf@)[self.len_of(0) - 1]
                &&& rest.dim() == 1
                &&& rest.len_of(0) == self.len_of(0) - 1
                &&& forall|j: int|
                    0 <= j < self.len_of(0) - 1 ==> #[trigger] rest.pos1(j) == self.pos1(j)
                &&& self.inj1() ==> rest.inj1() && (forall|j: int|
                    0 <= j < rest.len_of(0) ==> #[trigger] rest.pos1(j) != self.pos1(
                        self.len_of(0) - 1,
                    ))
            },
    {
        self.split_last(buf)
    }

    /// Generalized strided sub-view: skip `start` elements, then take up to
    /// `len` elements every `step` positions — forward for a positive step,
    /// backward from the end of the view for a negative one. A zero step
    /// replicates the element at `start` exactly `len` times when `start`
    /// is in range. The result is clipped to what the original view can
    /// reach and never addresses a cell the original does not.
    pub fn partial(&self, start: usize, len: usize, step: isize) -> (r: Strided)
        requires
            self.addr1(),
        ensures
            r.dim() == 1,
            r.len_of(0) == partial_len_spec(self.len_of(0), start as int, len as int, step as int),
            forall|j: int|
                0 <= j < r.len_of(0) ==> 0 <= #[trigger] partial_index_spec(
                    self.len_of(0),
                    start as int,
                    step as int,
                    j,
                ) < self.len_of(0),
            forall|j: int|
                0 <= j < r.len_of(0) ==> #[trigger] r.pos1(j) == self.pos1(
                    partial_index_spec(self.len_of(0), start as int, step as int, j),
                ),
    {
        let slen = self.state.lens[0];
        if start >= slen {
            return Strided {
                off: self.off,
                state: StridedState { dim: 1, lens: [0, 0, 0, 0], strides: [0, 0, 0, 0] },
            };
        }
        if step == 0 {
            let r = Strided {
                off: self.index1(start),
                state: StridedState { dim: 1, lens: [len, 0, 0, 0], strides: [0, 0, 0, 0] },
            };
            return r;
        }
        let m: usize = if step == isize::MIN {
            (isize::MAX as usize) + 1
        } else if step < 0 {
            (-step) as usize
        } else {
            step as usize
        };
        let avail: usize = (slen - start - 1) / m + 1;
        let rlen: usize = if len < avail {
            len
        } else {
            avail
        };
        let origin: usize = if step > 0 {
            start
        } else {
            slen - 1
        };
        let off2 = self.index1(origin);
        let snew: isize = match step.checked_mul(self.state.strides[0]) {
            Some(v) => v,
            None => 0,
        };
        let r = Strided {
            off: off2,
            state: StridedState { dim: 1, lens: [rlen, 0, 0, 0], strides: [snew, 0, 0, 0] },
        };
        proof {
            let slen_i = self.len_of(0);
            let st0 = self.stride_of(0);
            let ms = m as int;
            lemma_div_mul_le(slen_i - start - 1, ms);
            assert forall|j: int| 0 <= j < r.len_of(0) implies 0 <= #[trigger] partial_index_spec(
                slen_i,
                start as int,
                step as int,
                j,
            ) < slen_i by {
                assert(j * ms >= 0) by (nonlinear_arith)
                    requires
                        j >= 0,
                        ms > 0,
                ;
                assert(j * ms <= (avail - 1) * ms) by (nonlinear_arith)
                    requires
                        0 <= j <= avail - 1,
                        ms > 0,
                ;
                assert((avail - 1) * ms <= slen_i - start - 1) by {
                    assert((avail - 1) * ms == ((slen_i - start - 1) / ms) * ms)
                        by (nonlinear_arith)
                        requires
                            avail - 1 == (slen_i - start - 1) / ms,
                    ;
                }
                if step < 0 {
                    assert(j * (step as int) == -(j * ms)) by (nonlinear_arith)
                        requires
                            step as int == -ms,
                    ;
                }
            }
            if r.len_of(0) >= 2 {
                // The stored stride reproduces stepping through the original.
                let p0 = self.pos1(origin as int);
                let p1 = self.pos1(origin + step);
                assert(0 <= origin + step < slen_i);
                assert(p1 - p0 == (step as int) * st0) by (nonlinear_arith)
                    requires
                        p1 == self.off + (origin + step) * st0,
                        p0 == self.off + origin * st0,
                ;
                assert(-(isize::MAX as int) <= (step as int) * st0 <= isize::MAX as int);
                assert(snew == (step as int) * st0);
            }
            assert forall|j: int| 0 <= j < r.len_of(0) implies #[trigger] r.pos1(j) == self.pos1(
                partial_index_spec(slen_i, start as int, step as int, j),
            ) by {
                let src = partial_index_spec(slen_i, start as int, step as int, j);
                if j == 0 {
                    assert(r.pos1(0) == off2 + 0 * (snew as int));
                    assert(r.pos1(0) == self.pos1(origin as int));
                } else {
                    assert(snew == (step as int) * st0);
                    assert(r.pos1(j) == off2 + j * ((step as int) * st0));
                    assert(off2 + j * ((step as int) * st0) == self.off + (origin + j * (
                    step as int)) * st0) by (nonlinear_arith)
                        requires
                            off2 == self.off + origin * st0,
                    ;
                    assert(src == origin + j * (step as int));
                }
            }
        }
        r
    }

    /// As `partial`, for a view meant for writing: the step may not be
    /// zero, and a self-disjoint view yields a self-disjoint sub-view.
    pub fn partial_mut(&self, start: usize, len: usize, step: isize) -> (r: Strided)
        requires
            self.addr1(),
            step != 0,
        ensures
            r.dim() == 1,
            r.len_of(0) == partial_len_spec(self.len_of(0), start as int, len as int, step as int),
            forall|j: int|
                0 <= j < r.len_of(0) ==> 0 <= #[trigger] partial_index_spec(
                    self.len_of(0),
                    start as int,
                    step as int,
                    j,
                ) < self.len_of(0),
            forall|j: int|
                0 <= j < r.len_of(0) ==> #[trigger] r.pos1(j) == self.pos1(
                    partial_index_spec(self.len_of(0), start as int, step as int, j),
                ),
            self.inj1() ==> r.inj1(),
    {
        let r = self.partial(start, len, step);
        proof {
            if self.inj1() {
                let slen_i = self.len_of(0);
                assert forall|p: int, q: int|
                    0 <= p < r.len_of(0) && 0 <= q < r.len_of(0) && p != q implies #[trigger] r.pos1(
                    p,
                ) != #[trigger] r.pos1(q) by {
                    let sp = partial_index_spec(slen_i, start as int, step as int, p);
                    let sq = partial_index_spec(slen_i, start as int, step as int, q);
                    assert(p * (step as int) != q * (step as int)) by (nonlinear_arith)
                        requires
                            p != q,
                            step != 0,
                    ;
                    assert(sp != sq);
                }
            }
        }
        r
    }

    /// Chunks a one-axis view into rows of exactly `n` elements: a two-axis
    /// view of the `len / n` full chunks, plus the one-axis view of the
    /// trailing `len % n` elements.
    pub fn as_chunks(&self, n: usize) -> (r: (Strided, Strided))
        requires
            self.addr1(),
            n >= 1,
        ensures
            ({
                let (c, rem) = r;
                &&& c.dim() == 2
                &&& c.len_of(0) == self.len_of(0) / n as int
                &&& c.len_of(1) == n
                &&& forall|i: int, j: int|
                    0 <= i < c.len_of(0) && 0 <= j < n ==> 0 <= #[trigger] chunk_index_spec(
                        n as int,
                        i,
                        j,
                    ) < self.len_of(0)
                &&& forall|i: int, j: int|
                    0 <= i < c.len_of(0) && 0 <= j < n ==> #[trigger] c.pos2(i, j) == self.pos1(
                        chunk_index_spec(n as int, i, j),
                    )
                &&& rem.dim() == 1
                &&& rem.len_of(0) == self.len_of(0) % n as int
                &&& (self.len_of(0) / n as int) * n == self.len_of(0) - self.len_of(0) % n as int
                &&& forall|k: int|
                    0 <= k < rem.len_of(0) ==> #[trigger] rem.pos1(k) == self.pos1(
                        self.len_of(0) - self.len_of(0) % n as int + k,
                    )
            }),
    {
        let slen = self.state.lens[0];
        let outer = slen / n;
        let rem_n = slen % n;
        let st0 = self.state.strides[0];
        proof {
            lemma_fundamental_div_mod(slen as int, n as int);
            lemma_div_mul_le(slen as int, n as int);
            assert((slen as int / n as int) * n == n * (slen as int / n as int))
                by (nonlinear_arith);
        }
        let big: isize = if n <= isize::MAX as usize {
            match st0.checked_mul(n as isize) {
                Some(v) => v,
                None => 0,
            }
        } else {
            0
        };
        let c = Strided {
            off: self.off,
            state: StridedState { dim: 2, lens: [outer, n, 0, 0], strides: [big, st0, 0, 0] },
        };
        let rem = if rem_n == 0 {
            Strided {
                off: self.off,
                state: StridedState { dim: 1, lens: [0, 0, 0, 0], strides: [st0, 0, 0, 0] },
            }
        } else {
            Strided {
                off: self.index1(outer * n),
                state: StridedState { dim: 1, lens: [rem_n, 0, 0, 0], strides: [st0, 0, 0, 0] },
            }
        };
        proof {
            let slen_i = self.len_of(0);
            let ni = n as int;
            let st = self.stride_of(0);
            assert forall|i: int, j: int| 0 <= i < c.len_of(0) && 0 <= j < ni implies 0
                <= #[trigger] chunk_index_spec(ni, i, j) < slen_i by {
                assert(0 <= i * ni + j < slen_i) by (nonlinear_arith)
                    requires
                        0 <= i <= outer - 1,
                        0 <= j < ni,
                        ni >= 1,
                        (outer as int) * ni <= slen_i,
                        outer == slen_i / ni,
                ;
            }
            if outer >= 2 {
                if st == 0 {
                    assert(c.stride_of(0) == 0);
                    assert(ni * st == 0) by (nonlinear_arith)
                        requires
                            st == 0,
                    ;
                } else {
                    let p0 = self.pos1(0);
                    let p1 = self.pos1(ni);
                    assert(0 <= ni < slen_i) by (nonlinear_arith)
                        requires
                            outer >= 2,
                            outer == slen_i / ni,
                            ni >= 1,
                            (outer as int) * ni <= slen_i,
                    ;
                    assert(p1 - p0 == ni * st) by (nonlinear_arith)
                        requires
                            p1 == self.off + ni * st,
                            p0 == self.off + 0 * st,
                    ;
                    assert(st * ni == ni * st) by (nonlinear_arith);
                    assert(ni <= isize::MAX as int) by (nonlinear_arith)
                        requires
                            st != 0,
                            -(isize::MAX as int) <= ni * st <= isize::MAX as int,
                            st * ni == ni * st,
                            ni >= 1,
                    ;
                    assert(c.stride_of(0) == ni * st);
                }
            }
            assert forall|i: int, j: int| 0 <= i < c.len_of(0) && 0 <= j < ni implies #[trigger] c.pos2(
                i,
                j,
            ) == self.pos1(chunk_index_spec(ni, i, j)) by {
                if i == 0 {
                    assert(c.pos2(0, j) == c.off + 0 * c.stride_of(0) + j * st);
                    assert(chunk_index_spec(ni, 0, j) == j) by (nonlinear_arith);
                } else {
                    assert(outer >= 2);
                    assert(c.pos2(i, j) == self.off + i * (ni * st) + j * st);
                    assert(self.off + i * (ni * st) + j * st == self.off + (i * ni + j) * st)
                        by (nonlinear_arith);
                }
            }
            if rem_n != 0 {
                assert forall|k: int| 0 <= k < rem.len_of(0) implies #[trigger] rem.pos1(k)
                    == self.pos1(slen_i - rem_n + k) by {
                    assert(rem.off == self.pos1((outer * n) as int));
                    assert(rem.pos1(k) == self.pos1((outer * n) as int) + k * st);
                    assert(self.pos1(outer * n + k) == self.off + ((outer * n) as int + k) * st);
                    assert(((outer * n) as int + k) * st == (outer * n) as int * st + k * st)
                        by (nonlinear_arith);
                }
            }
        }
        (c, rem)
    }

    /// As `as_chunks`, for views meant for writing: when the view addresses
    /// pairwise distinct cells, the chunk grid and the remainder do too,
    /// and they share no cell.
    pub fn as_chunks_mut(&self, n: usize) -> (r: (Strided, Strided))
        requires
            self.addr1(),
            n >= 1,
        ensures
            ({
                let (c, rem) = r;
                &&& c.dim() == 2
                &&& c.len_of(0) == self.len_of(0) / n as int
                &&& c.len_of(1) == n
                &&& forall|i: int, j: int|
                    0 <= i < c.len_of(0) && 0 <= j < n ==> 0 <= #[trigger] chunk_index_spec(
                        n as int,
                        i,
                        j,
                    ) < self.len_of(0)
                &&& forall|i: int, j: int|
                    0 <= i < c.len_of(0) && 0 <= j < n ==> #[trigger] c.pos2(i, j) == self.pos1(
                        chunk_index_spec(n as int, i, j),
                    )
                &&& rem.dim() == 1
                &&& rem.len_of(0) == self.len_of(0) % n as int
                &&& (self.len_of(0) / n as int) * n == self.len_of(0) - self.len_of(0) % n as int
                &&& forall|k: int|
                    0 <= k < rem.len_of(0) ==> #[trigger] rem.pos1(k) == self.pos1(
                        self.len_of(0) - self.len_of(0) % n as int + k,
                    )
                &&& self.inj1() ==> c.inj2() && rem.inj1() && (forall|i: int, j: int, k: int|
                    0 <= i < c.len_of(0) && 0 <= j < n && 0 <= k < rem.len_of(0)
                        ==> #[trigger] c.pos2(i, j) != #[trigger] rem.pos1(k))
            }),
    {
        let r = self.as_chunks(n);
        proof {
            let (c, rem) = r;
            let slen_i = self.len_of(0);
            let ni = n as int;
            if self.inj1() {
                assert forall|i1: int, j1: int, i2: int, j2: int|
                    0 <= i1 < c.len_of(0) && 0 <= j1 < c.len_of(1) && 0 <= i2 < c.len_of(0) && 0
                        <= j2 < c.len_of(1) && (i1 != i2 || j1 != j2) implies #[trigger] c.pos2(
                    i1,
                    j1,
                ) != #[trigger] c.pos2(i2, j2) by {
                    assert(chunk_index_spec(ni, i1, j1) != chunk_index_spec(ni, i2, j2))
                        by (nonlinear_arith)
                        requires
                            0 <= j1 < ni,
                            0 <= j2 < ni,
                            i1 != i2 || j1 != j2,
                    ;
                }
                assert forall|i: int, j: int, k: int|
                    0 <= i < c.len_of(0) && 0 <= j < c.len_of(1) && 0 <= k < rem.len_of(
                        0,
                    ) implies #[trigger] c.pos2(i, j) != #[trigger] rem.pos1(k) by {
                    assert(chunk_index_spec(ni, i, j) < slen_i - rem.len_of(0) + k)
                        by (nonlinear_arith)
                        requires
                            0 <= i < c.len_of(0),
                            0 <= j < ni,
                            k >= 0,
                            c.len_of(0) * ni == slen_i - rem.len_of(0),
                    ;
                }
            }
        }
        r
    }

    /// Chunks a one-axis view into rows of exactly `n` elements, placing
    /// the `len % n` remainder first and the full chunks after it.
    pub fn as_rchunks(&self, n: usize) -> (r: (Strided, Strided))
        requires
            self.addr1(),
            n >= 1,
        ensures
            ({
                let (rem, c) = r;
                &&& rem.dim() == 1
                &&& rem.len_of(0) == self.len_of(0) % n as int
                &&& forall|k: int|
                    0 <= k < rem.len_of(0) ==> #[trigger] rem.pos1(k) == self.pos1(k)
                &&& c.dim() == 2
                &&& c.len_of(0) == self.len_of(0) / n as int
                &&& c.len_of(1) == n
                &&& forall|i: int, j: int|
                    0 <= i < c.len_of(0) && 0 <= j < n ==> 0 <= self.len_of(0) % n as int
                        + #[trigger] chunk_index_spec(n as int, i, j) < self.len_of(0)
                &&& forall|i: int, j: int|
                    0 <= i < c.len_of(0) && 0 <= j < n ==> #[trigger] c.pos2(i, j) == self.pos1(
                        self.len_of(0) % n as int + chunk_index_spec(n as int, i, j),
                    )
            }),
    {
        let slen = self.state.lens[0];
        let rem_n = slen % n;
        proof {
            lemma_fundamental_div_mod(slen as int, n as int);
            lemma_div_mul_le(slen as int, n as int);
            assert((slen as int / n as int) * (n as int) == (n as int) * (slen as int / n as int))
                by (nonlinear_arith);
            assert(rem_n <= slen);
        }
        let (rem, tail) = self.split_at(rem_n);
        proof {
            assert forall|j: int| 0 <= j < tail.len_of(0) implies 0 <= #[trigger] tail.pos1(j)
                <= isize::MAX as int by {
                assert(tail.pos1(j) == self.pos1(rem_n + j));
            }
            assert(tail.addr1());
            lemma_fundamental_div_mod_converse(
                tail.len_of(0),
                n as int,
                slen as int / n as int,
                0,
            );
        }
        let (c, _empty) = tail.as_chunks(n);
        proof {
            let ni = n as int;
            assert forall|i: int, j: int| 0 <= i < c.len_of(0) && 0 <= j < ni implies 0
                <= self.len_of(0) % ni + #[trigger] chunk_index_spec(ni, i, j) < self.len_of(
                0,
            ) by {
                assert(0 <= chunk_index_spec(ni, i, j) < tail.len_of(0));
            }
        }
        (rem, c)
    }

    /// As `as_rchunks`, for views meant for writing, with the disjointness
    /// promises of `as_chunks_mut`.
    pub fn as_rchunks_mut(&self, n: usize) -> (r: (Strided, Strided))
        requires
            self.addr1(),
            n >= 1,
        ensures
            ({
                let (rem, c) = r;
                &&& rem.dim() == 1
                &&& rem.len_of(0) == self.len_of(0) % n as int
                &&& forall|k: int|
                    0 <= k < rem.len_of(0) ==> #[trigger] rem.pos1(k) == self.pos1(k)
                &&& c.dim() == 2
                &&& c.len_of(0) == self.len_of(0) / n as int
                &&& c.len_of(1) == n
                &&& forall|i: int, j: int|
                    0 <= i < c.len_of(0) && 0 <= j < n ==> 0 <= self.len_of(0) % n as int
                        + #[trigger] chunk_index_spec(n as int, i, j) < self.len_of(0)
                &&& forall|i: int, j: int|
                    0 <= i < c.len_of(0) && 0 <= j < n ==> #[trigger] c.pos2(i, j) == self.pos1(
                        self.len_of(0) % n as int + chunk_index_spec(n as int, i, j),
                    )
                &&& self.inj1() ==> c.inj2() && rem.inj1() && (forall|i: int, j: int, k: int|
                    0 <= i < c.len_of(0) && 0 <= j < n && 0 <= k < rem.len_of(0)
                        ==> #[trigger] c.pos2(i, j) != #[trigger] rem.pos1(k))
            }),
    {
        let r = self.as_rchunks(n);
        proof {
            let (rem, c) = r;
            let slen_i = self.len_of(0);
            let ni = n as int;
            lemma_fundamental_div_mod(slen_i, ni);
            lemma_div_mul_le(slen_i, ni);
            assert((slen_i / ni) * ni == ni * (slen_i / ni)) by (nonlinear_arith);
            if self.inj1() {
                assert forall|i1: int, j1: int, i2: int, j2: int|
                    0 <= i1 < c.len_of(0) && 0 <= j1 < c.len_of(1) && 0 <= i2 < c.len_of(0) && 0
                        <= j2 < c.len_of(1) && (i1 != i2 || j1 != j2) implies #[trigger] c.pos2(
                    i1,
                    j1,
                ) != #[trigger] c.pos2(i2, j2) by {
                    assert(chunk_index_spec(ni, i1, j1) != chunk_index_spec(ni, i2, j2))
                        by (nonlinear_arith)
                        requires
                            0 <= j1 < ni,
                            0 <= j2 < ni,
                            i1 != i2 || j1 != j2,
                    ;
                }
                assert forall|a: int, b: int|
                    0 <= a < rem.len_of(0) && 0 <= b < rem.len_of(0) && a != b implies #[trigger] rem.pos1(
                    a,
                ) != #[trigger] rem.pos1(b) by {
                    assert(rem.pos1(a) == self.pos1(a));
                    assert(rem.pos1(b) == self.pos1(b));
                }
                assert forall|i: int, j: int, k: int|
                    0 <= i < c.len_of(0) && 0 <= j < c.len_of(1) && 0 <= k < rem.len_of(
                        0,
                    ) implies #[trigger] c.pos2(i, j) != #[trigger] rem.pos1(k) by {
                    assert(chunk_index_spec(ni, i, j) >= 0) by (nonlinear_arith)
                        requires
                            i >= 0,
                            j >= 0,
                            ni >= 1,
                    ;
                }
            }
        }
        r
    }

    /// Splits a one-axis view into `n` phases by residue class of index:
    /// phase `k` addresses the elements at original indices `k`, `k + n`,
    /// `k + 2n` and so on.
    pub fn deinterleave_array(&self, n: usize) -> (r: Vec<Strided>)
        requires
            self.addr1(),
            1 <= n <= isize::MAX as usize,
        ensures
            self.deint_post(n as int, r@),
    {
        let slen = self.state.lens[0];
        let mut out: Vec<Strided> = Vec::new();
        let mut k: usize = 0;
        while k < n
            invariant
                self.addr1(),
                slen == self.len_of(0),
                1 <= n <= isize::MAX as usize,
                k <= n,
                out@.len() == k,
                forall|t: int|
                    0 <= t < k ==> {
                        let ph = #[trigger] out@[t];
                        &&& ph.dim() == 1
                        &&& ph.len_of(0) == deint_len_spec(self.len_of(0), n as int, t)
                    },
                forall|t: int, j: int|
                    0 <= t < k && 0 <= j < deint_len_spec(self.len_of(0), n as int, t) ==> 0
                        <= #[trigger] deint_index_spec(n as int, t, j) < self.len_of(0),
                forall|t: int, j: int|
                    0 <= t < k && 0 <= j < deint_len_spec(self.len_of(0), n as int, t)
                        ==> #[trigger] out@[t].pos1(j) == self.pos1(
                        deint_index_spec(n as int, t, j),
                    ),
            decreases n - k,
        {
            let ph = self.partial(k, slen, n as isize);
            proof {
                lemma_deint_len(slen as int, n as int, k as int);
                assert forall|j: int|
                    0 <= j < deint_len_spec(self.len_of(0), n as int, k as int) implies 0
                    <= #[trigger] deint_index_spec(n as int, k as int, j) < self.len_of(0) && ph.pos1(
                    j,
                ) == self.pos1(deint_index_spec(n as int, k as int, j)) by {
                    assert(partial_index_spec(self.len_of(0), k as int, n as int, j)
                        == deint_index_spec(n as int, k as int, j));
                    assert(ph.pos1(j) == self.pos1(
                        partial_index_spec(self.len_of(0), k as int, n as int, j),
                    ));
                }
            }
            out.push(ph);
            k += 1;
        }
        out
    }

    /// As `deinterleave_array`, for views meant for writing: when the view
    /// addresses pairwise distinct cells, each phase does too, and no two
    /// phases share a cell.
    pub fn deinterleave_array_mut(&self, n: usize) -> (r: Vec<Strided>)
        requires
            self.addr1(),
            1 <= n <= isize::MAX as usize,
        ensures
            self.deint_post(n as int, r@),
            self.inj1() ==> forall|k: int| 0 <= k < n ==> (#[trigger] r@[k]).inj1(),
            self.inj1() ==> forall|k1: int, j1: int, k2: int, j2: int|
                0 <= k1 < n && 0 <= j1 < deint_len_spec(self.len_of(0), n as int, k1) && 0 <= k2
                    < n && 0 <= j2 < deint_len_spec(self.len_of(0), n as int, k2) && k1 != k2
                    ==> #[trigger] r@[k1].pos1(j1) != #[trigger] r@[k2].pos1(j2),
    {
        let r = self.deinterleave_array(n);
        proof {
            let ni = n as int;
            let slen_i = self.len_of(0);
            if self.inj1() {
                assert forall|k: int| 0 <= k < n implies (#[trigger] r@[k]).inj1() by {
                    let ph = r@[k];
                    assert forall|a: int, b: int|
                        0 <= a < ph.len_of(0) && 0 <= b < ph.len_of(0) && a != b implies #[trigger] ph.pos1(
                        a,
                    ) != #[trigger] ph.pos1(b) by {
                        assert(deint_index_spec(ni, k, a) != deint_index_spec(ni, k, b))
                            by (nonlinear_arith)
                            requires
                                a != b,
                                ni >= 1,
                        ;
                    }
                }
                assert forall|k1: int, j1: int, k2: int, j2: int|
                    0 <= k1 < n && 0 <= j1 < deint_len_spec(slen_i, ni, k1) && 0 <= k2 < n && 0
                        <= j2 < deint_len_spec(slen_i, ni, k2) && k1 != k2 implies #[trigger] r@[k1].pos1(
                    j1,
                ) != #[trigger] r@[k2].pos1(j2) by {
                    assert(deint_index_spec(ni, k1, j1) != deint_index_spec(ni, k2, j2))
                        by (nonlinear_arith)
                        requires
                            0 <= k1 < ni,
                            0 <= k2 < ni,
                            k1 != k2,
                            j1 >= 0,
                            j2 >= 0,
                    ;
                }
            }
        }
        r
    }

    pub open spec fn addr3(self) -> bool {
        &&& self.dim() == 3
        &&& forall|i: int, j: int, k: int|
            0 <= i < self.len_of(0) && 0 <= j < self.len_of(1) && 0 <= k < self.len_of(2)
                ==> 0 <= #[trigger] self.pos3(i, j, k) <= isize::MAX as int
    }

    pub open spec fn addr4(self) -> bool {
        &&& self.dim() == 4
        &&& forall|i: int, j: int, k: int, l: int|
            0 <= i < self.len_of(0) && 0 <= j < self.len_of(1) && 0 <= k < self.len_of(2) && 0 <= l
                < self.len_of(3) ==> 0 <= #[trigger] self.pos4(i, j, k, l) <= isize::MAX as int
    }

    /// Transposes axes 0 and 1: a zero-copy exchange of the two outermost
    /// axes. The transposed view addresses cell `(i, j)` where the original
    /// addressed `(j, i)`.
    pub fn transpose01(&mut self)
        requires
            2 <= old(self).dim() <= 4,
        ensures
            final(self).off == old(self).off,
            final(self).dim() == old(self).dim(),
            final(self).len_of(0) == old(self).len_of(1),
            final(self).len_of(1) == old(self).len_of(0),
            final(self).len_of(2) == old(self).len_of(2),
            final(self).len_of(3) == old(self).len_of(3),
            old(self).dim() == 2 ==> forall|i: int, j: int|
                0 <= i < old(self).len_of(1) && 0 <= j < old(self).len_of(0)
                    ==> #[trigger] final(self).pos2(i, j) == old(self).pos2(j, i),
            old(self).dim() == 3 ==> forall|i: int, j: int, k: int|
                0 <= i < old(self).len_of(1) && 0 <= j < old(self).len_of(0) && 0 <= k < old(
                    self,
                ).len_of(2) ==> #[trigger] final(self).pos3(i, j, k) == old(self).pos3(j, i, k),
            old(self).dim() == 4 ==> forall|i: int, j: int, k: int, l: int|
                0 <= i < old(self).len_of(1) && 0 <= j < old(self).len_of(0) && 0 <= k < old(
                    self,
                ).len_of(2) && 0 <= l < old(self).len_of(3) ==> #[trigger] final(self).pos4(
                    i,
                    j,
                    k,
                    l,
                ) == old(self).pos4(j, i, k, l),
    {
        self.state.transpose01();
    }

    /// Transposes axes 0 and 2 of a view of three or more axes.
    pub fn transpose02(&mut self)
        requires
            3 <= old(self).dim() <= 4,
        ensures
            final(self).off == old(self).off,
            final(self).dim() == old(self).dim(),
            final(self).len_of(0) == old(self).len_of(2),
            final(self).len_of(2) == old(self).len_of(0),
            final(self).len_of(1) == old(self).len_of(1),
            final(self).len_of(3) == old(self).len_of(3),
            old(self).dim() == 3 ==> forall|i: int, j: int, k: int|
                0 <= i < old(self).len_of(2) && 0 <= j < old(self).len_of(1) && 0 <= k < old(
                    self,
                ).len_of(0) ==> #[trigger] final(self).pos3(i, j, k) == old(self).pos3(k, j, i),
            old(self).dim() == 4 ==> forall|i: int, j: int, k: int, l: int|
                0 <= i < old(self).len_of(2) && 0 <= j < old(self).len_of(1) && 0 <= k < old(
                    self,
                ).len_of(0) && 0 <= l < old(self).len_of(3) ==> #[trigger] final(self).pos4(
                    i,
                    j,
                    k,
                    l,
                ) == old(self).pos4(k, j, i, l),
    {
        self.state.transpose02();
    }

    /// Transposes axes 1 and 2 of a view of three or more axes.
    pub fn transpose12(&mut self)
        requires
            3 <= old(self).dim() <= 4,
        ensures
            final(self).off == old(self).off,
            final(self).dim() == old(self).dim(),
            final(self).len_of(1) == old(self).len_of(2),
            final(self).len_of(2) == old(self).len_of(1),
            final(self).len_of(0) == old(self).len_of(0),
            final(self).len_of(3) == old(self).len_of(3),
            old(self).dim() == 3 ==> forall|i: int, j: int, k: int|
                0 <= i < old(self).len_of(0) && 0 <= j < old(self).len_of(2) && 0 <= k < old(
                    self,
                ).len_of(1) ==> #[trigger] final(self).pos3(i, j, k) == old(self).pos3(i, k, j),
            old(self).dim() == 4 ==> forall|i: int, j: int, k: int, l: int|
                0 <= i < old(self).len_of(0) && 0 <= j < old(self).len_of(2) && 0 <= k < old(
                    self,
                ).len_of(1) && 0 <= l < old(self).len_of(3) ==> #[trigger] final(self).pos4(
                    i,
                    j,
                    k,
                    l,
                ) == old(self).pos4(i, k, j, l),
    {
        self.state.transpose12();
    }

    /// Transposes axes 0 and 3 of a four-axis view.
    pub fn transpose03(&mut self)
        requires
            old(self).dim() == 4,
        ensures
            final(self).off == old(self).off,
            final(self).dim() == old(self).dim(),
            final(self).len_of(0) == old(self).len_of(3),
            final(self).len_of(3) == old(self).len_of(0),
            final(self).len_of(1) == old(self).len_of(1),
            final(self).len_of(2) == old(self).len_of(2),
            forall|i: int, j: int, k: int, l: int|
                0 <= i < old(self).len_of(3) && 0 <= j < old(self).len_of(1) && 0 <= k < old(
                    self,
                ).len_of(2) && 0 <= l < old(self).len_of(0) ==> #[trigger] final(self).pos4(
                    i,
                    j,
                    k,
                    l,
                ) == old(self).pos4(l, j, k, i),
    {
        self.state.transpose03();
    }

    /// Transposes axes 1 and 3 of a four-axis view.
    pub fn transpose13(&mut self)
        requires
            old(self).dim() == 4,
        ensures
            final(self).off == old(self).off,
            final(self).dim() == old(self).dim(),
            final(self).len_of(1) == old(self).len_of(3),
            final(self).len_of(3) == old(self).len_of(1),
            final(self).len_of(0) == old(self).len_of(0),
            final(self).len_of(2) == old(self).len_of(2),
            forall|i: int, j: int, k: int, l: int|
                0 <= i < old(self).len_of(0) && 0 <= j < old(self).len_of(3) && 0 <= k < old(
                    self,
                ).len_of(2) && 0 <= l < old(self).len_of(1) ==> #[trigger] final(self).pos4(
                    i,
                    j,
                    k,
                    l,
                ) == old(self).pos4(i, l, k, j),
    {
        self.state.transpose13();
    }

    /// Transposes axes 2 and 3 of a four-axis view.
    pub fn transpose23(&mut self)
        requires
            old(self).dim() == 4,
        ensures
            final(self).off == old(self).off,
            final(self).dim() == old(self).dim(),
            final(self).len_of(2) == old(self).len_of(3),
            final(self).len_of(3) == old(self).len_of(2),
            final(self).len_of(0) == old(self).len_of(0),
            final(self).len_of(1) == old(self).len_of(1),
            forall|i: int, j: int, k: int, l: int|
                0 <= i < old(self).len_of(0) && 0 <= j < old(self).len_of(1) && 0 <= k < old(
                    self,
                ).len_of(3) && 0 <= l < old(self).len_of(2) ==> #[trigger] final(self).pos4(
                    i,
                    j,
                    k,
                    l,
                ) == old(self).pos4(i, j, l, k),
    {
        self.state.transpose23();
    }

    /// Consumes one index of the outermost axis: the sub-view of everything
    /// under index `i`, one axis shallower.
    pub fn into_get(self, i: usize) -> (r: Strided)
        requires
            2 <= self.dim() <= 4,
            i < self.len_of(0),
            self.dim() == 2 ==> self.addr2(),
            self.dim() == 3 ==> self.addr3(),
            self.dim() == 4 ==> self.addr4(),
        ensures
            r.dim() == self.dim() - 1,
            r.len_of(0) == self.len_of(1),
            r.len_of(1) == self.len_of(2),
            r.len_of(2) == self.len_of(3),
            self.dim() == 2 ==> forall|j: int|
                0 <= j < self.len_of(1) ==> #[trigger] r.pos1(j) == self.pos2(i as int, j),
            self.dim() == 3 ==> forall|j: int, k: int|
                0 <= j < self.len_of(1) && 0 <= k < self.len_of(2) ==> #[trigger] r.pos2(j, k)
                    == self.pos3(i as int, j, k),
            self.dim() == 4 ==> forall|j: int, k: int, l: int|
                0 <= j < self.len_of(1) && 0 <= k < self.len_of(2) && 0 <= l < self.len_of(3)
                    ==> #[trigger] r.pos3(j, k, l) == self.pos4(i as int, j, k, l),
    {
        let d = self.state.dim;
        let inner_full = if d == 2 {
            self.state.lens[1] > 0
        } else if d == 3 {
            self.state.lens[1] > 0 && self.state.lens[2] > 0
        } else {
            self.state.lens[1] > 0 && self.state.lens[2] > 0 && self.state.lens[3] > 0
        };
        let off2: usize = if inner_full {
            proof {
                if self.dim() == 2 {
                    assert(self.pos2(i as int, 0) == self.pos1(i as int));
                } else if self.dim() == 3 {
                    assert(self.pos3(i as int, 0, 0) == self.pos1(i as int));
                } else {
                    assert(self.pos4(i as int, 0, 0, 0) == self.pos1(i as int));
                }
            }
            self.index1(i)
        } else {
            self.off
        };
        Strided {
            off: off2,
            state: StridedState {
                dim: d - 1,
                lens: [self.state.lens[1], self.state.lens[2], self.state.lens[3], 0],
                strides: [self.state.strides[1], self.state.strides[2], self.state.strides[3], 0],
            },
        }
    }

    /// Element `(i, j)` of a two-axis view of `buf`.
    pub fn get2<T: Copy>(&self, buf: &Vec<T>, i: usize, j: usize) -> (r: T)
        requires
            self.wf2(buf@.len() as int),
            i < self.len_of(0),
            j < self.len_of(1),
        ensures
            r == self.grid2(buf@)[i as int][j as int],
            r == buf@[self.pos2(i as int, j as int)],
    {
        let row = self.into_get(i);
        proof {
            assert forall|t: int| 0 <= t < row.len_of(0) implies 0 <= #[trigger] row.pos1(t)
                < buf@.len() by {
                assert(row.pos1(t) == self.pos2(i as int, t));
            }
        }
        row.get(buf, j)
    }

    /// Writes `v` to cell `(i, j)` of a two-axis view of `buf`. Only that
    /// one buffer cell changes.
    pub fn store2<T>(&self, buf: &mut Vec<T>, i: usize, j: usize, v: T)
        requires
            self.wf2(old(buf)@.len() as int),
            i < self.len_of(0),
            j < self.len_of(1),
        ensures
            final(buf)@ == old(buf)@.update(self.pos2(i as int, j as int), v),
            final(buf)@.len() == old(buf)@.len(),
    {
        let row = self.into_get(i);
        proof {
            assert forall|t: int| 0 <= t < row.len_of(0) implies 0 <= #[trigger] row.pos1(t)
                < old(buf)@.len() by {
                assert(row.pos1(t) == self.pos2(i as int, t));
            }
        }
        row.store(buf, j, v);
    }

    /// The two-axis view of a dense row-major matrix stored in a buffer:
    /// `rows` rows of `cols` cells each, row stride `cols`, offset zero.
    pub fn from_matrix(rows: usize, cols: usize) -> (r: Strided)
        requires
            cols <= isize::MAX as int,
            rows * cols <= isize::MAX as int + 1,
        ensures
            r.dim() == 2,
            r.off == 0,
            r.len_of(0) == rows,
            r.len_of(1) == cols,
            forall|i: int, j: int|
                0 <= i < rows && 0 <= j < cols ==> #[trigger] r.pos2(i, j) == i * cols + j,
            forall|n: int|
                rows * cols <= n <= isize::MAX as int + 1 ==> r.wf2(n),
            r.inj2(),
    {
        let r = Strided {
            off: 0,
            state: StridedState {
                dim: 2,
                lens: [rows, cols, 0, 0],
                strides: [cols as isize, 1, 0, 0],
            },
        };
        proof {
            let ci = cols as int;
            assert forall|i: int, j: int| 0 <= i < rows && 0 <= j < cols implies #[trigger] r.pos2(
                i,
                j,
            ) == i * ci + j by {
                assert(r.stride_of(0) == ci);
                assert(r.stride_of(1) == 1);
                assert(i * r.stride_of(0) == i * ci) by (nonlinear_arith)
                    requires
                        r.stride_of(0) == ci,
                ;
                assert(j * 1 == j) by (nonlinear_arith);
            }
            assert forall|i: int, j: int| 0 <= i < rows && 0 <= j < cols implies 0
                <= #[trigger] r.pos2(i, j) < rows * ci by {
                assert(0 <= i * ci + j < rows * ci) by (nonlinear_arith)
                    requires
                        0 <= i < rows,
                        0 <= j < ci,
                ;
            }
            assert(rows * ci == rows * cols);
            assert forall|i1: int, j1: int, i2: int, j2: int|
                0 <= i1 < r.len_of(0) && 0 <= j1 < r.len_of(1) && 0 <= i2 < r.len_of(0) && 0 <= j2
                    < r.len_of(1) && (i1 != i2 || j1 != j2) implies #[trigger] r.pos2(i1, j1)
                != #[trigger] r.pos2(i2, j2) by {
                assert(i1 * ci + j1 != i2 * ci + j2) by (nonlinear_arith)
                    requires
                        0 <= j1 < ci,
                        0 <= j2 < ci,
                        i1 != i2 || j1 != j2,
                ;
            }
        }
        r
    }

    /// The rows of a two-axis view of `buf`, each materialized in index
    /// order.
    pub fn to_vecs<T: Copy>(&self, buf: &Vec<T>) -> (r: Vec<Vec<T>>)
        requires
            self.wf2(buf@.len() as int),
        ensures
            r@.len() == self.len_of(0),
            forall|i: int| 0 <= i < self.len_of(0) ==> #[trigger] r@[i]@ == self.grid2(buf@)[i],
    {
        let n = self.state.lens[0];
        let mut out: Vec<Vec<T>> = Vec::new();
        let mut i: usize = 0;
        while i < n
            invariant
                self.wf2(buf@.len() as int),
                n == self.len_of(0),
                i <= n,
                out@.len() == i,
                forall|t: int| 0 <= t < i ==> #[trigger] out@[t]@ == self.grid2(buf@)[t],
            decreases n - i,
        {
            let row = self.into_get(i);
            proof {
                assert forall|t: int| 0 <= t < row.len_of(0) implies 0 <= #[trigger] row.pos1(t)
                    < buf@.len() by {
                    assert(row.pos1(t) == self.pos2(i as int, t));
                }
            }
            let rv = row.to_vec(buf);
            proof {
                assert(rv@ =~= self.grid2(buf@)[i as int]);
            }
            out.push(rv);
            i += 1;
        }
        out
    }

    /// As `transpose01`, consuming the view.
    pub fn into_transpose01(self) -> (r: Strided)
        requires
            2 <= self.dim() <= 4,
        ensures
            r.off == self.off,
            r.dim() == self.dim(),
            r.len_of(0) == self.len_of(1),
            r.len_of(1) == self.len_of(0),
            r.len_of(2) == self.len_of(2),
            r.len_of(3) == self.len_of(3),
            self.dim() == 2 ==> forall|i: int, j: int|
                0 <= i < self.len_of(1) && 0 <= j < self.len_of(0)
                    ==> #[trigger] r.pos2(i, j) == self.pos2(j, i),
            self.dim() == 3 ==> forall|i: int, j: int, k: int|
                0 <= i < self.len_of(1) && 0 <= j < self.len_of(0) && 0 <= k < self.len_of(2)
                    ==> #[trigger] r.pos3(i, j, k) == self.pos3(j, i, k),
            self.dim() == 4 ==> forall|i: int, j: int, k: int, l: int|
                0 <= i < self.len_of(1) && 0 <= j < self.len_of(0) && 0 <= k < self.len_of(2) && 0 <= l < self.len_of(3)
                    ==> #[trigger] r.pos4(i, j, k, l) == self.pos4(j, i, k, l),
    {
        let mut c = self;
        c.transpose01();
        c
    }

    /// As `transpose01`, leaving the view itself unchanged.
    pub fn as_transpose01(&self) -> (r: Strided)
        requires
            2 <= self.dim() <= 4,
        ensures
            r.off == self.off,
            r.dim() == self.dim(),
            r.len_of(0) == self.len_of(1),
            r.len_of(1) == self.len_of(0),
            r.len_of(2) == self.len_of(2),
            r.len_of(3) == self.len_of(3),
            self.dim() == 2 ==> forall|i: int, j: int|
                0 <= i < self.len_of(1) && 0 <= j < self.len_of(0)
                    ==> #[trigger] r.pos2(i, j) == self.pos2(j, i),
            self.dim() == 3 ==> forall|i: int, j: int, k: int|
                0 <= i < self.len_of(1) && 0 <= j < self.len_of(0) && 0 <= k < self.len_of(2)
                    ==> #[trigger] r.pos3(i, j, k) == self.pos3(j, i, k),
            self.dim() == 4 ==> forall|i: int, j: int, k: int, l: int|
                0 <= i < self.len_of(1) && 0 <= j < self.len_of(0) && 0 <= k < self.len_of(2) && 0 <= l < self.len_of(3)
                    ==> #[trigger] r.pos4(i, j, k, l) == self.pos4(j, i, k, l),
    {
        let mut c = *self;
        c.transpose01();
        c
    }

    /// As `as_transpose01`, for views meant for writing: a
    /// self-disjoint view stays self-disjoint under transposition.
    pub fn as_transpose01_mut(&self) -> (r: Strided)
        requires
            2 <= self.dim() <= 4,
        ensures
            r.off == self.off,
            r.dim() == self.dim(),
            r.len_of(0) == self.len_of(1),
            r.len_of(1) == self.len_of(0),
            r.len_of(2) == self.len_of(2),
            r.len_of(3) == self.len_of(3),
            self.dim() == 2 ==> forall|i: int, j: int|
                0 <= i < self.len_of(1) && 0 <= j < self.len_of(0)
                    ==> #[trigger] r.pos2(i, j) == self.pos2(j, i),
            self.dim() == 3 ==> forall|i: int, j: int, k: int|
                0 <= i < self.len_of(1) && 0 <= j < self.len_of(0) && 0 <= k < self.len_of(2)
                    ==> #[trigger] r.pos3(i, j, k) == self.pos3(j, i, k),
            self.dim() == 4 ==> forall|i: int, j: int, k: int, l: int|
                0 <= i < self.len_of(1) && 0 <= j < self.len_of(0) && 0 <= k < self.len_of(2) && 0 <= l < self.len_of(3)
                    ==> #[trigger] r.pos4(i, j, k, l) == self.pos4(j, i, k, l),
            self.dim() == 2 && self.inj2() ==> r.inj2(),
            self.dim() == 3 && self.inj3() ==> r.inj3(),
            self.dim() == 4 && self.inj4() ==> r.inj4(),
    {
        let r = self.as_transpose01();
        proof {
            if self.dim() == 2 && self.inj2() {
                assert forall|i1: int, j1: int, i2: int, j2: int|
                    0 <= i1 < r.len_of(0) && 0 <= i2 < r.len_of(0) && 0 <= j1 < r.len_of(1) && 0 <= j2 < r.len_of(1) && (i1 != i2 || j1 != j2) implies #[trigger] r.pos2(i1, j1)
                    != #[trigger] r.pos2(i2, j2) by {}
            }
            if self.dim() == 3 && self.inj3() {
                assert forall|i1: int, j1: int, k1: int, i2: int, j2: int, k2: int|
                    0 <= i1 < r.len_of(0) && 0 <= i2 < r.len_of(0) && 0 <= j1 < r.len_of(1) && 0 <= j2 < r.len_of(1) && 0 <= k1 < r.len_of(2) && 0 <= k2 < r.len_of(2) && (i1 != i2 || j1 != j2 || k1 != k2) implies #[trigger] r.pos3(i1, j1, k1)
                    != #[trigger] r.pos3(i2, j2, k2) by {}
            }
            if self.dim() == 4 && self.inj4() {
                assert forall|i1: int, j1: int, k1: int, l1: int, i2: int, j2: int, k2: int, l2: int|
                    0 <= i1 < r.len_of(0) && 0 <= i2 < r.len_of(0) && 0 <= j1 < r.len_of(1) && 0 <= j2 < r.len_of(1) && 0 <= k1 < r.len_of(2) && 0 <= k2 < r.len_of(2) && 0 <= l1 < r.len_of(3) && 0 <= l2 < r.len_of(3) && (i1 != i2 || j1 != j2 || k1 != k2 || l1 != l2) implies #[trigger] r.pos4(i1, j1, k1, l1)
                    != #[trigger] r.pos4(i2, j2, k2, l2) by {}
            }
        }
        r
    }

    /// As `transpose02`, consuming the view.
    pub fn into_transpose02(self) -> (r: Strided)
        requires
            3 <= self.dim() <= 4,
        ensures
            r.off == self.off,
            r.dim() == self.dim(),
            r.len_of(0) == self.len_of(2),
            r.len_of(1) == self.len_of(1),
            r.len_of(2) == self.len_of(0),
            r.len_of(3) == self.len_of(3),
            self.dim() == 3 ==> forall|i: int, j: int, k: int|
                0 <= i < self.len_of(2) && 0 <= j < self.len_of(1) && 0 <= k < self.len_of(0)
                    ==> #[trigger] r.pos3(i, j, k) == self.pos3(k, j, i),
            self.dim() == 4 ==> forall|i: int, j: int, k: int, l: int|
                0 <= i < self.len_of(2) && 0 <= j < self.len_of(1) && 0 <= k < self.len_of(0) && 0 <= l < self.len_of(3)
                    ==> #[trigger] r.pos4(i, j, k, l) == self.pos4(k, j, i, l),
    {
        let mut c = self;
        c.transpose02();
        c
    }

    /// As `transpose02`, leaving the view itself unchanged.
    pub fn as_transpose02(&self) -> (r: Strided)
        requires
            3 <= self.dim() <= 4,
        ensures
            r.off == self.off,
            r.dim() == self.dim(),
            r.len_of(0) == self.len_of(2),
            r.len_of(1) == self.len_of(1),
            r.len_of(2) == self.len_of(0),
            r.len_of(3) == self.len_of(3),
            self.dim() == 3 ==> forall|i: int, j: int, k: int|
                0 <= i < self.len_of(2) && 0 <= j < self.len_of(1) && 0 <= k < self.len_of(0)
                    ==> #[trigger] r.pos3(i, j, k) == self.pos3(k, j, i),
            self.dim() == 4 ==> forall|i: int, j: int, k: int, l: int|
                0 <= i < self.len_of(2) && 0 <= j < self.len_of(1) && 0 <= k < self.len_of(0) && 0 <= l < self.len_of(3)
                    ==> #[trigger] r.pos4(i, j, k, l) == self.pos4(k, j, i, l),
    {
        let mut c = *self;
        c.transpose02();
        c
    }

    /// As `as_transpose02`, for views meant for writing: a
    /// self-disjoint view stays self-disjoint under transposition.
    pub fn as_transpose02_mut(&self) -> (r: Strided)
        requires
            3 <= self.dim() <= 4,
        ensures
            r.off == self.off,
            r.dim() == self.dim(),
            r.len_of(0) == self.len_of(2),
            r.len_of(1) == self.len_of(1),
            r.len_of(2) == self.len_of(0),
            r.len_of(3) == self.len_of(3),
            self.dim() == 3 ==> forall|i: int, j: int, k: int|
                0 <= i < self.len_of(2) && 0 <= j < self.len_of(1) && 0 <= k < self.len_of(0)
                    ==> #[trigger] r.pos3(i, j, k) == self.pos3(k, j, i),
            self.dim() == 4 ==> forall|i: int, j: int, k: int, l: int|
                0 <= i < self.len_of(2) && 0 <= j < self.len_of(1) && 0 <= k < self.len_of(0) && 0 <= l < self.len_of(3)
                    ==> #[trigger] r.pos4(i, j, k, l) == self.pos4(k, j, i, l),
            self.dim() == 3 && self.inj3() ==> r.inj3(),
            self.dim() == 4 && self.inj4() ==> r.inj4(),
    {
        let r = self.as_transpose02();
        proof {
            if self.dim() == 3 && self.inj3() {
                assert forall|i1: int, j1: int, k1: int, i2: int, j2: int, k2: int|
                    0 <= i1 < r.len_of(0) && 0 <= i2 < r.len_of(0) && 0 <= j1 < r.len_of(1) && 0 <= j2 < r.len_of(1) && 0 <= k1 < r.len_of(2) && 0 <= k2 < r.len_of(2) && (i1 != i2 || j1 != j2 || k1 != k2) implies #[trigger] r.pos3(i1, j1, k1)
                    != #[trigger] r.pos3(i2, j2, k2) by {}
            }
            if self.dim() == 4 && self.inj4() {
                assert forall|i1: int, j1: int, k1: int, l1: int, i2: int, j2: int, k2: int, l2: int|
                    0 <= i1 < r.len_of(0) && 0 <= i2 < r.len_of(0) && 0 <= j1 < r.len_of(1) && 0 <= j2 < r.len_of(1) && 0 <= k1 < r.len_of(2) && 0 <= k2 < r.len_of(2) && 0 <= l1 < r.len_of(3) && 0 <= l2 < r.len_of(3) && (i1 != i2 || j1 != j2 || k1 != k2 || l1 != l2) implies #[trigger] r.pos4(i1, j1, k1, l1)
                    != #[trigger] r.pos4(i2, j2, k2, l2) by {}
            }
        }
        r
    }

    /// As `transpose12`, consuming the view.
    pub fn into_transpose12(self) -> (r: Strided)
        requires
            3 <= self.dim() <= 4,
        ensures
            r.off == self.off,
            r.dim() == self.dim(),
            r.len_of(0) == self.len_of(0),
            r.len_of(1) == self.len_of(2),
            r.len_of(2) == self.len_of(1),
            r.len_of(3) == self.len_of(3),
            self.dim() == 3 ==> forall|i: int, j: int, k: int|
                0 <= i < self.len_of(0) && 0 <= j < self.len_of(2) && 0 <= k < self.len_of(1)
                    ==> #[trigger] r.pos3(i, j, k) == self.pos3(i, k, j),
            self.dim() == 4 ==> forall|i: int, j: int, k: int, l: int|
                0 <= i < self.len_of(0) && 0 <= j < self.len_of(2) && 0 <= k < self.len_of(1) && 0 <= l < self.len_of(3)
                    ==> #[trigger] r.pos4(i, j, k, l) == self.pos4(i, k, j, l),
    {
        let mut c = self;
        c.transpose12();
        c
    }

    /// As `transpose12`, leaving the view itself unchanged.
    pub fn as_transpose12(&self) -> (r: Strided)
        requires
            3 <= self.dim() <= 4,
        ensures
            r.off == self.off,
            r.dim() == self.dim(),
            r.len_of(0) == self.len_of(0),
            r.len_of(1) == self.len_of(2),
            r.len_of(2) == self.len_of(1),
            r.len_of(3) == self.len_of(3),
            self.dim() == 3 ==> forall|i: int, j: int, k: int|
                0 <= i < self.len_of(0) && 0 <= j < self.len_of(2) && 0 <= k < self.len_of(1)
                    ==> #[trigger] r.pos3(i, j, k) == self.pos3(i, k, j),
            self.dim() == 4 ==> forall|i: int, j: int, k: int, l: int|
                0 <= i < self.len_of(0) && 0 <= j < self.len_of(2) && 0 <= k < self.len_of(1) && 0 <= l < self.len_of(3)
                    ==> #[trigger] r.pos4(i, j, k, l) == self.pos4(i, k, j, l),
    {
        let mut c = *self;
        c.transpose12();
        c
    }

    /// As `as_transpose12`, for views meant for writing: a
    /// self-disjoint view stays self-disjoint under transposition.
    pub fn as_transpose12_mut(&self) -> (r: Strided)
        requires
            3 <= self.dim() <= 4,
        ensures
            r.off == self.off,
            r.dim() == self.dim(),
            r.len_of(0) == self.len_of(0),
            r.len_of(1) == self.len_of(2),
            r.len_of(2) == self.len_of(1),
            r.len_of(3) == self.len_of(3),
            self.dim() == 3 ==> forall|i: int, j: int, k: int|
                0 <= i < self.len_of(0) && 0 <= j < self.len_of(2) && 0 <= k < self.len_of(1)
                    ==> #[trigger] r.pos3(i, j, k) == self.pos3(i, k, j),
            self.dim() == 4 ==> forall|i: int, j: int, k: int, l: int|
                0 <= i < self.len_of(0) && 0 <= j < self.len_of(2) && 0 <= k < self.len_of(1) && 0 <= l < self.len_of(3)
                    ==> #[trigger] r.pos4(i, j, k, l) == self.pos4(i, k, j, l),
            self.dim() == 3 && self.inj3() ==> r.inj3(),
            self.dim() == 4 && self.inj4() ==> r.inj4(),
    {
        let r = self.as_transpose12();
        proof {
            if self.dim() == 3 && self.inj3() {
                assert forall|i1: int, j1: int, k1: int, i2: int, j2: int, k2: int|
                    0 <= i1 < r.len_of(0) && 0 <= i2 < r.len_of(0) && 0 <= j1 < r.len_of(1) && 0 <= j2 < r.len_of(1) && 0 <= k1 < r.len_of(2) && 0 <= k2 < r.len_of(2) && (i1 != i2 || j1 != j2 || k1 != k2) implies #[trigger] r.pos3(i1, j1, k1)
                    != #[trigger] r.pos3(i2, j2, k2) by {}
            }
            if self.dim() == 4 && self.inj4() {
                assert forall|i1: int, j1: int, k1: int, l1: int, i2: int, j2: int, k2: int, l2: int|
                    0 <= i1 < r.len_of(0) && 0 <= i2 < r.len_of(0) && 0 <= j1 < r.len_of(1) && 0 <= j2 < r.len_of(1) && 0 <= k1 < r.len_of(2) && 0 <= k2 < r.len_of(2) && 0 <= l1 < r.len_of(3) && 0 <= l2 < r.len_of(3) && (i1 != i2 || j1 != j2 || k1 != k2 || l1 != l2) implies #[trigger] r.pos4(i1, j1, k1, l1)
                    != #[trigger] r.pos4(i2, j2, k2, l2) by {}
            }
        }
        r
    }

    /// As `transpose03`, consuming the view.
    pub fn into_transpose03(self) -> (r: Strided)
        requires
            self.dim() == 4,
        ensures
            r.off == self.off,
            r.dim() == self.dim(),
            r.len_of(0) == self.len_of(3),
            r.len_of(1) == self.len_of(1),
            r.len_of(2) == self.len_of(2),
            r.len_of(3) == self.len_of(0),
            forall|i: int, j: int, k: int, l: int|
                0 <= i < self.len_of(3) && 0 <= j < self.len_of(1) && 0 <= k < self.len_of(2) && 0 <= l < self.len_of(0)
                    ==> #[trigger] r.pos4(i, j, k, l) == self.pos4(l, j, k, i),
    {
        let mut c = self;
        c.transpose03();
        c
    }

    /// As `transpose03`, leaving the view itself unchanged.
    pub fn as_transpose03(&self) -> (r: Strided)
        requires
            self.dim() == 4,
        ensures
            r.off == self.off,
            r.dim() == self.dim(),
            r.len_of(0) == self.len_of(3),
            r.len_of(1) == self.len_of(1),
            r.len_of(2) == self.len_of(2),
            r.len_of(3) == self.len_of(0),
            forall|i: int, j: int, k: int, l: int|
                0 <= i < self.len_of(3) && 0 <= j < self.len_of(1) && 0 <= k < self.len_of(2) && 0 <= l < self.len_of(0)
                    ==> #[trigger] r.pos4(i, j, k, l) == self.pos4(l, j, k, i),
    {
        let mut c = *self;
        c.transpose03();
        c
    }

    /// As `as_transpose03`, for views meant for writing: a
    /// self-disjoint view stays self-disjoint under transposition.
    pub fn as_transpose03_mut(&self) -> (r: Strided)
        requires
            self.dim() == 4,
        ensures
            r.off == self.off,
            r.dim() == self.dim(),
            r.len_of(0) == self.len_of(3),
            r.len_of(1) == self.len_of(1),
            r.len_of(2) == self.len_of(2),
            r.len_of(3) == self.len_of(0),
            forall|i: int, j: int, k: int, l: int|
                0 <= i < self.len_of(3) && 0 <= j < self.len_of(1) && 0 <= k < self.len_of(2) && 0 <= l < self.len_of(0)
                    ==> #[trigger] r.pos4(i, j, k, l) == self.pos4(l, j, k, i),
            self.dim() == 4 && self.inj4() ==> r.inj4(),
    {
        let r = self.as_transpose03();
        proof {
            if self.dim() == 4 && self.inj4() {
                assert forall|i1: int, j1: int, k1: int, l1: int, i2: int, j2: int, k2: int, l2: int|
                    0 <= i1 < r.len_of(0) && 0 <= i2 < r.len_of(0) && 0 <= j1 < r.len_of(1) && 0 <= j2 < r.len_of(1) && 0 <= k1 < r.len_of(2) && 0 <= k2 < r.len_of(2) && 0 <= l1 < r.len_of(3) && 0 <= l2 < r.len_of(3) && (i1 != i2 || j1 != j2 || k1 != k2 || l1 != l2) implies #[trigger] r.pos4(i1, j1, k1, l1)
                    != #[trigger] r.pos4(i2, j2, k2, l2) by {}
            }
        }
        r
    }

    /// As `transpose13`, consuming the view.
    pub fn into_transpose13(self) -> (r: Strided)
        requires
            self.dim() == 4,
        ensures
            r.off == self.off,
            r.dim() == self.dim(),
            r.len_of(0) == self.len_of(0),
            r.len_of(1) == self.len_of(3),
            r.len_of(2) == self.len_of(2),
            r.len_of(3) == self.len_of(1),
            forall|i: int, j: int, k: int, l: int|
                0 <= i < self.len_of(0) && 0 <= j < self.len_of(3) && 0 <= k < self.len_of(2) && 0 <= l < self.len_of(1)
                    ==> #[trigger] r.pos4(i, j, k, l) == self.pos4(i, l, k, j),
    {
        let mut c = self;
        c.transpose13();
        c
    }

    /// As `transpose13`, leaving the view itself unchanged.
    pub fn as_transpose13(&self) -> (r: Strided)
        requires
            self.dim() == 4,
        ensures
            r.off == self.off,
            r.dim() == self.dim(),
            r.len_of(0) == self.len_of(0),
            r.len_of(1) == self.len_of(3),
            r.len_of(2) == self.len_of(2),
            r.len_of(3) == self.len_of(1),
            forall|i: int, j: int, k: int, l: int|
                0 <= i < self.len_of(0) && 0 <= j < self.len_of(3) && 0 <= k < self.len_of(2) && 0 <= l < self.len_of(1)
                    ==> #[trigger] r.pos4(i, j, k, l) == self.pos4(i, l, k, j),
    {
        let mut c = *self;
        c.transpose13();
        c
    }

    /// As `as_transpose13`, for views meant for writing: a
    /// self-disjoint view stays self-disjoint under transposition.
    pub fn as_transpose13_mut(&self) -> (r: Strided)
        requires
            self.dim() == 4,
        ensures
            r.off == self.off,
            r.dim() == self.dim(),
            r.len_of(0) == self.len_of(0),
            r.len_of(1) == self.len_of(3),
            r.len_of(2) == self.len_of(2),
            r.len_of(3) == self.len_of(1),
            forall|i: int, j: int, k: int, l: int|
                0 <= i < self.len_of(0) && 0 <= j < self.len_of(3) && 0 <= k < self.len_of(2) && 0 <= l < self.len_of(1)
                    ==> #[trigger] r.pos4(i, j, k, l) == self.pos4(i, l, k, j),
            self.dim() == 4 && self.inj4() ==> r.inj4(),
    {
        let r = self.as_transpose13();
        proof {
            if self.dim() == 4 && self.inj4() {
                assert forall|i1: int, j1: int, k1: int, l1: int, i2: int, j2: int, k2: int, l2: int|
                    0 <= i1 < r.len_of(0) && 0 <= i2 < r.len_of(0) && 0 <= j1 < r.len_of(1) && 0 <= j2 < r.len_of(1) && 0 <= k1 < r.len_of(2) && 0 <= k2 < r.len_of(2) && 0 <= l1 < r.len_of(3) && 0 <= l2 < r.len_of(3) && (i1 != i2 || j1 != j2 || k1 != k2 || l1 != l2) implies #[trigger] r.pos4(i1, j1, k1, l1)
                    != #[trigger] r.pos4(i2, j2, k2, l2) by {}
            }
        }
        r
    }

    /// As `transpose23`, consuming the view.
    pub fn into_transpose23(self) -> (r: Strided)
        requires
            self.dim() == 4,
        ensures
            r.off == self.off,
            r.dim() == self.dim(),
            r.len_of(0) == self.len_of(0),
            r.len_of(1) == self.len_of(1),
            r.len_of(2) == self.len_of(3),
            r.len_of(3) == self.len_of(2),
            forall|i: int, j: int, k: int, l: int|
                0 <= i < self.len_of(0) && 0 <= j < self.len_of(1) && 0 <= k < self.len_of(3) && 0 <= l < self.len_of(2)
                    ==> #[trigger] r.pos4(i, j, k, l) == self.pos4(i, j, l, k),
    {
        let mut c = self;
        c.transpose23();
        c
    }

    /// As `transpose23`, leaving the view itself unchanged.
    pub fn as_transpose23(&self) -> (r: Strided)
        requires
            self.dim() == 4,
        ensures
            r.off == self.off,
            r.dim() == self.dim(),
            r.len_of(0) == self.len_of(0),
            r.len_of(1) == self.len_of(1),
            r.len_of(2) == self.len_of(3),
            r.len_of(3) == self.len_of(2),
            forall|i: int, j: int, k: int, l: int|
                0 <= i < self.len_of(0) && 0 <= j < self.len_of(1) && 0 <= k < self.len_of(3) && 0 <= l < self.len_of(2)
                    ==> #[trigger] r.pos4(i, j, k, l) == self.pos4(i, j, l, k),
    {
        let mut c = *self;
        c.transpose23();
        c
    }

    /// As `as_transpose23`, for views meant for writing: a
    /// self-disjoint view stays self-disjoint under transposition.
    pub fn as_transpose23_mut(&self) -> (r: Strided)
        requires
            self.dim() == 4,
        ensures
            r.off == self.off,
            r.dim() == self.dim(),
            r.len_of(0) == self.len_of(0),
            r.len_of(1) == self.len_of(1),
            r.len_of(2) == self.len_of(3),
            r.len_of(3) == self.len_of(2),
            forall|i: int, j: int, k: int, l: int|
                0 <= i < self.len_of(0) && 0 <= j < self.len_of(1) && 0 <= k < self.len_of(3) && 0 <= l < self.len_of(2)
                    ==> #[trigger] r.pos4(i, j, k, l) == self.pos4(i, j, l, k),
            self.dim() == 4 && self.inj4() ==> r.inj4(),
    {
        let r = self.as_transpose23();
        proof {
            if self.dim() == 4 && self.inj4() {
                assert forall|i1: int, j1: int, k1: int, l1: int, i2: int, j2: int, k2: int, l2: int|
                    0 <= i1 < r.len_of(0) && 0 <= i2 < r.len_of(0) && 0 <= j1 < r.len_of(1) && 0 <= j2 < r.len_of(1) && 0 <= k1 < r.len_of(2) && 0 <= k2 < r.len_of(2) && 0 <= l1 < r.len_of(3) && 0 <= l2 < r.len_of(3) && (i1 != i2 || j1 != j2 || k1 != k2 || l1 != l2) implies #[trigger] r.pos4(i1, j1, k1, l1)
                    != #[trigger] r.pos4(i2, j2, k2, l2) by {}
            }
        }
        r
    }

    /// What `deinterleave_array(n)` promises of its `n` phases.
    pub open spec fn deint_post(self, n: int, parts: Seq<Strided>) -> bool {
        &&& parts.len() == n
        &&& forall|k: int|
            0 <= k < n ==> {
                let ph = #[trigger] parts[k];
                &&& ph.dim() == 1
                &&& ph.len_of(0) == deint_len_spec(self.len_of(0), n, k)
            }
        &&& forall|k: int, j: int|
            0 <= k < n && 0 <= j < deint_len_spec(self.len_of(0), n, k) ==> 0
                <= #[trigger] deint_index_spec(n, k, j) < self.len_of(0)
        &&& forall|k: int, j: int|
            0 <= k < n && 0 <= j < deint_len_spec(self.len_of(0), n, k) ==> #[trigger] parts[k].pos1(
                j,
            ) == self.pos1(deint_index_spec(n, k, j))
    }

    /// What `into_blocks(n0, n1)` promises of its four regions.
    pub open spec fn blocks_post(self, n0: int, n1: int, r: StridedBlocks) -> bool {
        &&& r.blocks.dim() == 4
        &&& r.blocks.len_of(0) == self.len_of(0) / n0
        &&& r.blocks.len_of(1) == self.len_of(1) / n1
        &&& r.blocks.len_of(2) == n0
        &&& r.blocks.len_of(3) == n1
        &&& (self.len_of(0) / n0) * n0 == self.len_of(0) - self.len_of(0) % n0
        &&& (self.len_of(1) / n1) * n1 == self.len_of(1) - self.len_of(1) % n1
        &&& forall|bi: int, i: int|
                0 <= bi < self.len_of(0) / n0 && 0 <= i < n0 ==> 0
                    <= #[trigger] chunk_index_spec(n0, bi, i) < self.len_of(0)
        &&& forall|bj: int, j: int|
                0 <= bj < self.len_of(1) / n1 && 0 <= j < n1 ==> 0
                    <= #[trigger] chunk_index_spec(n1, bj, j) < self.len_of(1)
        &&& forall|bi: int, bj: int, i: int, j: int|
                0 <= bi < self.len_of(0) / n0 && 0 <= bj < self.len_of(1) / n1 && 0
                    <= i < n0 && 0 <= j < n1 ==> #[trigger] r.blocks.pos4(bi, bj, i, j)
                    == self.pos2(chunk_index_spec(n0, bi, i), chunk_index_spec(n1, bj, j))
        &&& r.remaining0.dim() == 3
        &&& r.remaining0.len_of(0) == self.len_of(1) / n1
        &&& r.remaining0.len_of(1) == self.len_of(0) % n0
        &&& r.remaining0.len_of(2) == n1
        &&& forall|bj: int, i: int, j: int|
                0 <= bj < self.len_of(1) / n1 && 0 <= i < self.len_of(0) % n0 && 0
                    <= j < n1 ==> #[trigger] r.remaining0.pos3(bj, i, j) == self.pos2(
                    self.len_of(0) - self.len_of(0) % n0 + i,
                    chunk_index_spec(n1, bj, j),
                )
        &&& r.remaining1.dim() == 3
        &&& r.remaining1.len_of(0) == self.len_of(0) / n0
        &&& r.remaining1.len_of(1) == n0
        &&& r.remaining1.len_of(2) == self.len_of(1) % n1
        &&& forall|bi: int, i: int, j: int|
                0 <= bi < self.len_of(0) / n0 && 0 <= i < n0 && 0 <= j < self.len_of(1)
                    % n1 ==> #[trigger] r.remaining1.pos3(bi, i, j) == self.pos2(
                    chunk_index_spec(n0, bi, i),
                    self.len_of(1) - self.len_of(1) % n1 + j,
                )
        &&& r.remaining01.dim() == 2
        &&& r.remaining01.len_of(0) == self.len_of(0) % n0
        &&& r.remaining01.len_of(1) == self.len_of(1) % n1
        &&& forall|i: int, j: int|
                0 <= i < self.len_of(0) % n0 && 0 <= j < self.len_of(1) % n1
                    ==> #[trigger] r.remaining01.pos2(i, j) == self.pos2(
                    self.len_of(0) - self.len_of(0) % n0 + i,
                    self.len_of(1) - self.len_of(1) % n1 + j,
                )
    }

    /// Buffer cell index of cell `(i, j)` of a two-axis view.
    pub(crate) fn index2(&self, i: usize, j: usize) -> (r: usize)
        requires
            0 <= self.pos2(i as int, 0) <= isize::MAX as int,
            0 <= self.pos2(i as int, j as int) <= isize::MAX as int,
        ensures
            r == self.pos2(i as int, j as int),
    {
        proof {
            assert(self.pos1(i as int) == self.pos2(i as int, 0));
        }
        let a: usize = self.index1(i);
        let s: isize = self.state.strides[1];
        if s >= 0 {
            proof {
                assert(j * (s as int) >= 0) by (nonlinear_arith)
                    requires
                        j >= 0 && s >= 0,
                ;
            }
            a + j * (s as usize)
        } else {
            let m: usize = if s == isize::MIN {
                (isize::MAX as usize) + 1
            } else {
                (-s) as usize
            };
            proof {
                assert(j * (s as int) == -(j * (m as int))) by (nonlinear_arith)
                    requires
                        m == -(s as int) && j >= 0,
                ;
            }
            a - j * m
        }
    }

    /// Scales a stride by a chunk width, or yields zero when the product
    /// leaves the machine range; the callers show the fallback is taken
    /// only where the value never reaches an addressed cell.
    fn scale_stride(st: isize, f: usize) -> (r: isize)
        requires
            1 <= f <= isize::MAX as usize,
        ensures
            -(isize::MAX as int) - 1 <= (st as int) * (f as int) <= isize::MAX as int ==> r
                == (st as int) * (f as int),
    {
        match st.checked_mul(f as isize) {
            Some(v) => v,
            None => 0,
        }
    }

    /// Partitions a two-axis view into `n0` by `n1` blocks, all purely by
    /// descriptor arithmetic: the four-axis grid of full blocks (block row,
    /// block column, row in block, column in block), plus the bottom strip,
    /// the right strip and the corner left over where the view's height or
    /// width is no multiple of the block size.
    pub fn into_blocks(self, n0: usize, n1: usize) -> (r: StridedBlocks)
        requires
            self.addr2(),
            1 <= n0 <= isize::MAX as usize,
            1 <= n1 <= isize::MAX as usize,
        ensures
            self.blocks_post(n0 as int, n1 as int, r),
    {
        let h = self.state.lens[0];
        let w = self.state.lens[1];
        let sr = self.state.strides[0];
        let sc = self.state.strides[1];
        let hq = h / n0;
        let hr = h % n0;
        let wq = w / n1;
        let wr = w % n1;
        proof {
            lemma_fundamental_div_mod(h as int, n0 as int);
            lemma_div_mul_le(h as int, n0 as int);
            assert((h as int / n0 as int) * n0 == n0 * (h as int / n0 as int)) by (nonlinear_arith);
            lemma_fundamental_div_mod(w as int, n1 as int);
            lemma_div_mul_le(w as int, n1 as int);
            assert((w as int / n1 as int) * n1 == n1 * (w as int / n1 as int)) by (nonlinear_arith);
        }
        let big_r = Strided::scale_stride(sr, n0);
        let big_c = Strided::scale_stride(sc, n1);
        let blocks = Strided {
            off: self.off,
            state: StridedState {
                dim: 4,
                lens: [hq, wq, n0, n1],
                strides: [big_r, big_c, sr, sc],
            },
        };
        let off_r0: usize = if hr > 0 && w > 0 {
            self.index2(h - hr, 0)
        } else {
            self.off
        };
        let remaining0 = Strided {
            off: off_r0,
            state: StridedState { dim: 3, lens: [wq, hr, n1, 0], strides: [big_c, sr, sc, 0] },
        };
        let off_r1: usize = if wr > 0 && h > 0 {
            self.index2(0, w - wr)
        } else {
            self.off
        };
        let remaining1 = Strided {
            off: off_r1,
            state: StridedState { dim: 3, lens: [hq, n0, wr, 0], strides: [big_r, sr, sc, 0] },
        };
        let off_r01: usize = if hr > 0 && wr > 0 {
            self.index2(h - hr, w - wr)
        } else {
            self.off
        };
        let remaining01 = Strided {
            off: off_r01,
            state: StridedState { dim: 2, lens: [hr, wr, 0, 0], strides: [sr, sc, 0, 0] },
        };
        proof {
            let hi = h as int;
            let wi = w as int;
            let n0i = n0 as int;
            let n1i = n1 as int;
            let sri = sr as int;
            let sci = sc as int;
            // Row-block index arithmetic stays inside the view.
            assert forall|bi: int, i: int| 0 <= bi < hi / n0i && 0 <= i < n0i implies 0
                <= #[trigger] chunk_index_spec(n0i, bi, i) < hi by {
                assert(0 <= bi * n0i + i < hi) by (nonlinear_arith)
                    requires
                        0 <= bi <= hi / n0i - 1,
                        0 <= i < n0i,
                        n0i >= 1,
                        (hi / n0i) * n0i <= hi,
                ;
            }
            assert forall|bj: int, j: int| 0 <= bj < wi / n1i && 0 <= j < n1i implies 0
                <= #[trigger] chunk_index_spec(n1i, bj, j) < wi by {
                assert(0 <= bj * n1i + j < wi) by (nonlinear_arith)
                    requires
                        0 <= bj <= wi / n1i - 1,
                        0 <= j < n1i,
                        n1i >= 1,
                        (wi / n1i) * n1i <= wi,
                ;
            }
            // The scaled strides are exact wherever a block row or column
            // index beyond the first can occur.
            assert(hi / n0i >= 2 && wi >= 1 ==> big_r as int == sri * n0i) by {
                if hi / n0i >= 2 && wi >= 1 {
                    assert(0 <= n0i < hi) by (nonlinear_arith)
                        requires
                            hi / n0i >= 2,
                            n0i >= 1,
                            (hi / n0i) * n0i <= hi,
                    ;
                    let p0 = self.pos2(0, 0);
                    let p1 = self.pos2(n0i, 0);
                    assert(p1 - p0 == n0i * sri) by (nonlinear_arith)
                        requires
                            p1 == self.off + n0i * sri + 0 * sci,
                            p0 == self.off + 0 * sri + 0 * sci,
                    ;
                    assert(sri * n0i == n0i * sri) by (nonlinear_arith);
                }
            }
            assert(wi / n1i >= 2 && hi >= 1 ==> big_c as int == sci * n1i) by {
                if wi / n1i >= 2 && hi >= 1 {
                    assert(0 <= n1i < wi) by (nonlinear_arith)
                        requires
                            wi / n1i >= 2,
                            n1i >= 1,
                            (wi / n1i) * n1i <= wi,
                    ;
                    let p0 = self.pos2(0, 0);
                    let p1 = self.pos2(0, n1i);
                    assert(p1 - p0 == n1i * sci) by (nonlinear_arith)
                        requires
                            p1 == self.off + 0 * sri + n1i * sci,
                            p0 == self.off + 0 * sri + 0 * sci,
                    ;
                    assert(sci * n1i == n1i * sci) by (nonlinear_arith);
                }
            }
            // Full blocks.
            assert forall|bi: int, bj: int, i: int, j: int|
                0 <= bi < hi / n0i && 0 <= bj < wi / n1i && 0 <= i < n0i && 0 <= j
                    < n1i implies #[trigger] blocks.pos4(bi, bj, i, j) == self.pos2(
                chunk_index_spec(n0i, bi, i),
                chunk_index_spec(n1i, bj, j),
            ) by {
                let ri = chunk_index_spec(n0i, bi, i);
                let cj = chunk_index_spec(n1i, bj, j);
                assert(wi >= 1) by (nonlinear_arith)
                    requires
                        wi / n1i >= 1,
                        n1i >= 1,
                        (wi / n1i) * n1i <= wi,
                ;
                assert(hi >= 1) by (nonlinear_arith)
                    requires
                        hi / n0i >= 1,
                        n0i >= 1,
                        (hi / n0i) * n0i <= hi,
                ;
                let br = if bi == 0 { 0int } else { big_r as int };
                assert(bi * (big_r as int) == bi * (sri * n0i) || bi == 0) by {
                    if bi != 0 {
                        assert(hi / n0i >= 2);
                        assert(bi * (big_r as int) == bi * (sri * n0i)) by (nonlinear_arith)
                            requires
                                big_r as int == sri * n0i,
                        ;
                    }
                }
                assert(bj * (big_c as int) == bj * (sci * n1i) || bj == 0) by {
                    if bj != 0 {
                        assert(wi / n1i >= 2);
                        assert(bj * (big_c as int) == bj * (sci * n1i)) by (nonlinear_arith)
                            requires
                                big_c as int == sci * n1i,
                        ;
                    }
                }
                assert(bi * (sri * n0i) + i * sri == ri * sri) by (nonlinear_arith)
                    requires
                        ri == bi * n0i + i,
                ;
                assert(bj * (sci * n1i) + j * sci == cj * sci) by (nonlinear_arith)
                    requires
                        cj == bj * n1i + j,
                ;
                if bi == 0 {
                    assert(bi * (big_r as int) == 0) by (nonlinear_arith)
                        requires
                            bi == 0,
                    ;
                    assert(bi * (sri * n0i) == 0) by (nonlinear_arith)
                        requires
                            bi == 0,
                    ;
                }
                if bj == 0 {
                    assert(bj * (big_c as int) == 0) by (nonlinear_arith)
                        requires
                            bj == 0,
                    ;
                    assert(bj * (sci * n1i) == 0) by (nonlinear_arith)
                        requires
                            bj == 0,
                    ;
                }
            }
            // Bottom strip.
            assert forall|bj: int, i: int, j: int|
                0 <= bj < wi / n1i && 0 <= i < hi % n0i && 0 <= j < n1i implies #[trigger] remaining0.pos3(
                bj,
                i,
                j,
            ) == self.pos2(hi - hi % n0i + i, chunk_index_spec(n1i, bj, j)) by {
                let cj = chunk_index_spec(n1i, bj, j);
                assert(wi >= 1) by (nonlinear_arith)
                    requires
                        wi / n1i >= 1,
                        n1i >= 1,
                        (wi / n1i) * n1i <= wi,
                ;
                assert(remaining0.off == self.pos2(hi - hi % n0i, 0));
                assert(bj * (big_c as int) == bj * (sci * n1i) || bj == 0) by {
                    if bj != 0 {
                        assert(wi / n1i >= 2);
                        assert(bj * (big_c as int) == bj * (sci * n1i)) by (nonlinear_arith)
                            requires
                                big_c as int == sci * n1i,
                        ;
                    }
                }
                if bj == 0 {
                    assert(bj * (big_c as int) == 0) by (nonlinear_arith)
                        requires
                            bj == 0,
                    ;
                    assert(bj * (sci * n1i) == 0) by (nonlinear_arith)
                        requires
                            bj == 0,
                    ;
                }
                assert(bj * (sci * n1i) + j * sci == cj * sci) by (nonlinear_arith)
                    requires
                        cj == bj * n1i + j,
                ;
                assert((hi - hi % n0i) * sri + i * sri == (hi - hi % n0i + i) * sri)
                    by (nonlinear_arith);
            }
            // Right strip.
            assert forall|bi: int, i: int, j: int|
                0 <= bi < hi / n0i && 0 <= i < n0i && 0 <= j < wi % n1i implies #[trigger] remaining1.pos3(
                bi,
                i,
                j,
            ) == self.pos2(chunk_index_spec(n0i, bi, i), wi - wi % n1i + j) by {
                let ri = chunk_index_spec(n0i, bi, i);
                assert(hi >= 1) by (nonlinear_arith)
                    requires
                        hi / n0i >= 1,
                        n0i >= 1,
                        (hi / n0i) * n0i <= hi,
                ;
                assert(remaining1.off == self.pos2(0, wi - wi % n1i));
                assert(bi * (big_r as int) == bi * (sri * n0i) || bi == 0) by {
                    if bi != 0 {
                        assert(hi / n0i >= 2);
                        assert(bi * (big_r as int) == bi * (sri * n0i)) by (nonlinear_arith)
                            requires
                                big_r as int == sri * n0i,
                        ;
                    }
                }
                if bi == 0 {
                    assert(bi * (big_r as int) == 0) by (nonlinear_arith)
                        requires
                            bi == 0,
                    ;
                    assert(bi * (sri * n0i) == 0) by (nonlinear_arith)
                        requires
                            bi == 0,
                    ;
                }
                assert(bi * (sri * n0i) + i * sri == ri * sri) by (nonlinear_arith)
                    requires
                        ri == bi * n0i + i,
                ;
                assert((wi - wi % n1i) * sci + j * sci == (wi - wi % n1i + j) * sci)
                    by (nonlinear_arith);
            }
            // Corner.
            assert forall|i: int, j: int|
                0 <= i < hi % n0i && 0 <= j < wi % n1i implies #[trigger] remaining01.pos2(i, j)
                == self.pos2(hi - hi % n0i + i, wi - wi % n1i + j) by {
                assert(remaining01.off == self.pos2(hi - hi % n0i, wi - wi % n1i));
                assert((hi - hi % n0i) * sri + i * sri == (hi - hi % n0i + i) * sri)
                    by (nonlinear_arith);
                assert((wi - wi % n1i) * sci + j * sci == (wi - wi % n1i + j) * sci)
                    by (nonlinear_arith);
            }
        }
        StridedBlocks { blocks, remaining0, remaining1, remaining01 }
    }

    /// As `into_blocks`, leaving the view itself unchanged.
    pub fn as_blocks(&self, n0: usize, n1: usize) -> (r: StridedBlocks)
        requires
            self.addr2(),
            1 <= n0 <= isize::MAX as usize,
            1 <= n1 <= isize::MAX as usize,
        ensures
            self.blocks_post(n0 as int, n1 as int, r),
    {
        (*self).into_blocks(n0, n1)
    }

    /// As `as_blocks`, for views meant for writing. The four regions
    /// address disjoint index rectangles of the view, so on a self-disjoint
    /// view no cell is reachable from two regions.
    pub fn as_blocks_mut(&self, n0: usize, n1: usize) -> (r: StridedBlocks)
        requires
            self.addr2(),
            1 <= n0 <= isize::MAX as usize,
            1 <= n1 <= isize::MAX as usize,
        ensures
            self.blocks_post(n0 as int, n1 as int, r),
    {
        (*self).into_blocks(n0, n1)
    }

    /// The elements of a one-axis view of `buf`, materialized in index
    /// order.
    pub fn to_vec<T: Copy>(&self, buf: &Vec<T>) -> (r: Vec<T>)
        requires
            self.wf1(buf@.len() as int),
        ensures
            r@ == self.seq1(buf@),
    {
        let n = self.state.lens[0];
        let mut out: Vec<T> = Vec::new();
        let mut i: usize = 0;
        while i < n
            invariant
                self.wf1(buf@.len() as int),
                n == self.len_of(0),
                i <= n,
                out@ == self.seq1(buf@).take(i as int),
            decreases n - i,
        {
            out.push(self.get(buf, i));
            proof {
                assert(self.seq1(buf@).take(i + 1) == self.seq1(buf@).take(i as int).push(
                    self.seq1(buf@)[i as int],
                ));
            }
            i += 1;
        }
        proof {
            assert(self.seq1(buf@).take(n as int) == self.seq1(buf@));
        }
        out
    }
}

/// Whether two sequences agree element by element under the element
/// type's own equality.
pub open spec fn seqs_agree<T: PartialEq>(x: Seq<T>, y: Seq<T>) -> bool {
    x.len() == y.len() && forall|i: int| 0 <= i < x.len() ==> (#[trigger] x[i]).eq_spec(&y[i])
}

/// Element-wise equality of two views, possibly over different buffers
/// and with different strides: it agrees with comparing the materialized
/// sequences, exactly as comparing against a plain contiguous sequence
/// would.
pub fn eq_in<T: Copy + PartialEq>(a: &Strided, abuf: &Vec<T>, b: &Strided, bbuf: &Vec<T>) -> (r:
    bool)
    requires
        a.wf1(abuf@.len() as int),
        b.wf1(bbuf@.len() as int),
    ensures
        T::obeys_eq_spec() ==> (r <==> seqs_agree(a.seq1(abuf@), b.seq1(bbuf@))),
{
    let n = a.len();
    if n != b.len() {
        return false;
    }
    let mut i: usize = 0;
    while i < n
        invariant
            a.wf1(abuf@.len() as int),
            b.wf1(bbuf@.len() as int),
            n == a.len_of(0),
            n == b.len_of(0),
            i <= n,
            T::obeys_eq_spec() ==> forall|t: int|
                0 <= t < i ==> (#[trigger] a.seq1(abuf@)[t]).eq_spec(&b.seq1(bbuf@)[t]),
        decreases n - i,
    {
        let av = a.get(abuf, i);
        let bv = b.get(bbuf, i);
        if !(av == bv) {
            return false;
        }
        i += 1;
    }
    true
}

/// Deinterleave/interleave inverse law: for any view and any phase count,
/// element `t` of the view is element `t / n` of phase `t % n`, so reading
/// the phases back in round-robin order — interleaving them — reproduces
/// the original sequence exactly, whether or not `n` divides its length.
pub proof fn lemma_deinterleave_interleave<T>(v: Strided, parts: Seq<Strided>, n: int, buf: Seq<T>)
    requires
        n >= 1,
        v.deint_post(n, parts),
    ensures
        forall|t: int|
            0 <= t < v.len_of(0) ==> #[trigger] v.seq1(buf)[t] == parts[t % n].seq1(buf)[t / n],
{
    let slen = v.len_of(0);
    assert forall|t: int| 0 <= t < slen implies #[trigger] v.seq1(buf)[t] == parts[t % n].seq1(
        buf,
    )[t / n] by {
        lemma_fundamental_div_mod(t, n);
        lemma_fundamental_div_mod(slen, n);
        lemma_div_pos_is_pos(t, n);
        let k = t % n;
        let j = t / n;
        assert(0 <= k < n);
        assert(j >= 0);
        // `j` lies inside phase `k`.
        assert(j < deint_len_spec(slen, n, k)) by {
            let q = slen / n;
            let rm = slen % n;
            if j >= q + 1 {
                assert(t >= n * (q + 1)) by (nonlinear_arith)
                    requires
                        t == n * j + k,
                        j >= q + 1,
                        k >= 0,
                        n >= 1,
                ;
                assert(n * (q + 1) > slen) by (nonlinear_arith)
                    requires
                        slen == n * q + rm,
                        rm < n,
                ;
            }
            if j == q && k >= rm {
                assert(t >= slen) by (nonlinear_arith)
                    requires
                        t == n * j + k,
                        j == q,
                        k >= rm,
                        slen == n * q + rm,
                ;
            }
        }
        assert(deint_index_spec(n, k, j) == t) by (nonlinear_arith)
            requires
                t == n * j + k,
        ;
        assert(parts[k].pos1(j) == v.pos1(t));
    }
}

/// Chunk/remainder completeness: for any view and chunk size, the full
/// chunks laid end to end, followed by the remainder, account for every
/// element of the view exactly once and in order, and the remainder holds
/// exactly `len % n` elements.
pub proof fn lemma_chunks_concat<T>(v: Strided, c: Strided, rem: Strided, n: int, buf: Seq<T>)
    requires
        n >= 1,
        c.dim() == 2,
        c.len_of(0) == v.len_of(0) / n,
        c.len_of(1) == n,
        forall|i: int, j: int|
            0 <= i < c.len_of(0) && 0 <= j < n ==> #[trigger] c.pos2(i, j) == v.pos1(
                chunk_index_spec(n, i, j),
            ),
        rem.dim() == 1,
        rem.len_of(0) == v.len_of(0) % n,
        forall|k: int|
            0 <= k < rem.len_of(0) ==> #[trigger] rem.pos1(k) == v.pos1(
                v.len_of(0) - v.len_of(0) % n + k,
            ),
    ensures
        rem.len_of(0) == v.len_of(0) % n,
        c.len_of(0) * n + rem.len_of(0) == v.len_of(0),
        forall|t: int|
            0 <= t < c.len_of(0) * n ==> #[trigger] v.seq1(buf)[t] == c.grid2(buf)[t / n][t % n],
        forall|k: int|
            0 <= k < rem.len_of(0) ==> #[trigger] rem.seq1(buf)[k] == v.seq1(buf)[c.len_of(0) * n
                + k],
{
    let slen = v.len_of(0);
    lemma_fundamental_div_mod(slen, n);
    assert(c.len_of(0) * n == n * (slen / n)) by (nonlinear_arith)
        requires
            c.len_of(0) == slen / n,
    ;
    assert(c.len_of(0) * n == n * c.len_of(0)) by (nonlinear_arith);
    assert forall|t: int| 0 <= t < c.len_of(0) * n implies #[trigger] v.seq1(buf)[t] == c.grid2(
        buf,
    )[t / n][t % n] by {
        lemma_fundamental_div_mod(t, n);
        lemma_div_pos_is_pos(t, n);
        let i = t / n;
        let j = t % n;
        assert(i >= 0 && 0 <= j < n);
        assert(i < c.len_of(0)) by (nonlinear_arith)
            requires
                t == n * i + j,
                j >= 0,
                n >= 1,
                t < c.len_of(0) * n,
                c.len_of(0) * n == n * c.len_of(0),
        ;
        assert(chunk_index_spec(n, i, j) == t) by (nonlinear_arith)
            requires
                t == n * i + j,
        ;
        assert(c.pos2(i, j) == v.pos1(t));
        assert(t < slen) by (nonlinear_arith)
            requires
                t < c.len_of(0) * n,
                c.len_of(0) * n == n * (slen / n),
                slen == n * (slen / n) + slen % n,
                slen % n >= 0,
        ;
    }
    assert forall|k: int| 0 <= k < rem.len_of(0) implies #[trigger] rem.seq1(buf)[k] == v.seq1(
        buf,
    )[c.len_of(0) * n + k] by {
        assert(rem.pos1(k) == v.pos1(slen - slen % n + k));
    }
}

/// Transpose involution: transposing the same axis pair twice yields a
/// view of exactly the original grid of values, whatever the buffer holds.
pub proof fn lemma_transpose_involution<T>(g: Strided, t: Strided, b: Strided, buf: Seq<T>)
    requires
        g.dim() == 2,
        t.len_of(0) == g.len_of(1),
        t.len_of(1) == g.len_of(0),
        forall|i: int, j: int|
            0 <= i < g.len_of(1) && 0 <= j < g.len_of(0) ==> #[trigger] t.pos2(i, j) == g.pos2(
                j,
                i,
            ),
        b.len_of(0) == t.len_of(1),
        b.len_of(1) == t.len_of(0),
        forall|i: int, j: int|
            0 <= i < t.len_of(1) && 0 <= j < t.len_of(0) ==> #[trigger] b.pos2(i, j) == t.pos2(
                j,
                i,
            ),
    ensures
        b.grid2(buf) == g.grid2(buf),
{
    assert forall|i: int| 0 <= i < g.len_of(0) implies #[trigger] b.grid2(buf)[i] == g.grid2(
        buf,
    )[i] by {
        assert forall|j: int| 0 <= j < g.len_of(1) implies #[trigger] b.grid2(buf)[i][j] == g.grid2(
            buf,
        )[i][j] by {
            assert(b.pos2(i, j) == t.pos2(j, i));
            assert(t.pos2(j, i) == g.pos2(i, j));
        }
        assert(b.grid2(buf)[i] =~= g.grid2(buf)[i]);
    }
    assert(b.grid2(buf) =~= g.grid2(buf));
}

} // verus!

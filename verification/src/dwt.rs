//! The wavelet transform engine: elementary lifting-step kernels, the
//! one-dimensional whole-sequence transforms built from them, and the laws
//! that make forward and inverse exact mirrors of each other.
//!
//! A transformed sequence stores low coefficients in its first half and
//! high coefficients in its second half, after deinterleaving even and odd
//! input samples; an odd trailing element passes through unchanged.

use crate::strided::Strided;
use vstd::prelude::*;

verus! {

/// Rust's truncating integer division: rounds toward zero, unlike the
/// Euclidean `/` of specifications.
pub open spec fn div_trunc(x: int, d: int) -> int {
    if x >= 0 {
        x / d
    } else {
        -((-x) / d)
    }
}

/// Truncating division moves its argument toward zero and never past it.
pub proof fn lemma_div_trunc_bounds(x: int, d: int)
    requires
        d >= 1,
    ensures
        x >= 0 ==> 0 <= div_trunc(x, d) <= x,
        x < 0 ==> x <= div_trunc(x, d) <= 0,
{
    if x >= 0 {
        vstd::arithmetic::div_mod::lemma_div_pos_is_pos(x, d);
        vstd::arithmetic::div_mod::lemma_div_is_ordered_by_denominator(x, 1, d);
        vstd::arithmetic::div_mod::lemma_div_basics_2(x);
    } else {
        vstd::arithmetic::div_mod::lemma_div_pos_is_pos(-x, d);
        vstd::arithmetic::div_mod::lemma_div_is_ordered_by_denominator(-x, 1, d);
        vstd::arithmetic::div_mod::lemma_div_basics_2(-x);
    }
}

/// Truncating division of a machine integer by a positive divisor, as
/// Rust's `/` computes it.
pub fn div_trunc_i16(x: i16, d: i16) -> (r: i16)
    requires
        d >= 1,
    ensures
        r as int == div_trunc(x as int, d as int),
{
    let r = match x.checked_div(d) {
        Some(v) => v,
        None => 0,
    };
    proof {
        let xi = x as int;
        let di = d as int;
        if xi < 0 {
            assert((xi * -1) == -xi);
            assert(((xi * -1) / di) * -1 == -((-xi) / di));
            vstd::arithmetic::div_mod::lemma_div_pos_is_pos(-xi, di);
            assert(-((-xi) / di) >= i16::MIN as int) by {
                vstd::arithmetic::div_mod::lemma_div_is_ordered_by_denominator(-xi, 1, di);
                vstd::arithmetic::div_mod::lemma_div_basics_2(-xi);
            }
        } else if xi > 0 {
            vstd::arithmetic::div_mod::lemma_div_pos_is_pos(xi, di);
            assert(xi / di <= i16::MAX as int) by {
                vstd::arithmetic::div_mod::lemma_div_is_ordered_by_denominator(xi, 1, di);
                vstd::arithmetic::div_mod::lemma_div_basics_2(xi);
            }
        }
    }
    r
}

/// Clamps a wide intermediate into an inclusive range.
pub fn clamp_i16(x: i16, lo: i16, hi: i16) -> (r: i16)
    requires
        lo <= hi,
    ensures
        r as int == clamp_spec(x as int, lo as int, hi as int),
{
    if x < lo {
        lo
    } else if x > hi {
        hi
    } else {
        x
    }
}

/// The value of clamping `x` into `[lo, hi]`.
pub open spec fn clamp_spec(x: int, lo: int, hi: int) -> int {
    if x < lo {
        lo
    } else if x > hi {
        hi
    } else {
        x
    }
}

/// An elementary reversible lifting step: one pair of same-typed samples
/// in, one low/high coefficient pair out, and back.
pub trait Dwt0<T> {
    /// What the forward step returns.
    spec fn dwt0_spec(&self, a: T, b: T) -> (T, T);

    /// What the inverse step returns.
    spec fn idwt0_spec(&self, l: T, h: T) -> (T, T);

    /// Forward step: `(a, b)` to `(low, high)`.
    fn dwt0(&self, a: T, b: T) -> (r: (T, T))
        ensures
            r == self.dwt0_spec(a, b),
    ;

    /// Inverse step: `(low, high)` back to `(a, b)`.
    fn idwt0(&self, l: T, h: T) -> (r: (T, T))
        ensures
            r == self.idwt0_spec(l, h),
    ;
}

/// The kernel's inverse step undoes its forward step exactly, on every
/// sample pair.
pub open spec fn pair_roundtrip<T, A: Dwt0<T>>(a: A) -> bool {
    forall|x: T, y: T|
        #![trigger a.dwt0_spec(x, y)]
        a.idwt0_spec(a.dwt0_spec(x, y).0, a.dwt0_spec(x, y).1) == (x, y)
}

/// A whole-sequence transform over a strided view: the input is copied to
/// the scratch view, then the transformed coefficients are written back to
/// the signal view.
pub trait Dwt1<T: Copy> {
    /// The signal lengths the transform accepts; unrestricted unless an
    /// implementation narrows it.
    open spec fn valid_len(&self, n: int) -> bool {
        true
    }

    /// What the forward transform leaves in the signal view.
    spec fn dwt1_spec(&self, s: Seq<T>) -> Seq<T>;

    /// What the inverse transform leaves in the signal view.
    spec fn idwt1_spec(&self, s: Seq<T>) -> Seq<T>;

    /// Both transforms preserve sequence length.
    proof fn lemma_dwt1_spec_len(&self, s: Seq<T>)
        ensures
            self.dwt1_spec(s).len() == s.len(),
            self.idwt1_spec(s).len() == s.len(),
    ;

    /// Forward transform of the signal view in place, using the scratch
    /// view as temporary storage. Touches no buffer cell outside the two
    /// views.
    fn dwt1(&self, sig: &Strided, sbuf: &mut Vec<T>, tmp: &Strided, tbuf: &mut Vec<T>)
        requires
            sig.wf1(old(sbuf)@.len() as int),
            sig.inj1(),
            tmp.wf1(old(tbuf)@.len() as int),
            tmp.inj1(),
            sig.len_of(0) == tmp.len_of(0),
            self.valid_len(sig.len_of(0)),
        ensures
            final(sbuf)@.len() == old(sbuf)@.len(),
            final(tbuf)@.len() == old(tbuf)@.len(),
            sig.seq1(final(sbuf)@) == self.dwt1_spec(sig.seq1(old(sbuf)@)),
            forall|p: int|
                0 <= p < old(sbuf)@.len() && !sig.covers1(p) ==> final(sbuf)@[p] == old(sbuf)@[p],
            forall|p: int|
                0 <= p < old(tbuf)@.len() && !tmp.covers1(p) ==> final(tbuf)@[p] == old(tbuf)@[p],
    ;

    /// Inverse transform of the signal view in place; the exact mirror of
    /// `dwt1`.
    fn idwt1(&self, sig: &Strided, sbuf: &mut Vec<T>, tmp: &Strided, tbuf: &mut Vec<T>)
        requires
            sig.wf1(old(sbuf)@.len() as int),
            sig.inj1(),
            tmp.wf1(old(tbuf)@.len() as int),
            tmp.inj1(),
            sig.len_of(0) == tmp.len_of(0),
            self.valid_len(sig.len_of(0)),
        ensures
            final(sbuf)@.len() == old(sbuf)@.len(),
            final(tbuf)@.len() == old(tbuf)@.len(),
            sig.seq1(final(sbuf)@) == self.idwt1_spec(sig.seq1(old(sbuf)@)),
            forall|p: int|
                0 <= p < old(sbuf)@.len() && !sig.covers1(p) ==> final(sbuf)@[p] == old(sbuf)@[p],
            forall|p: int|
                0 <= p < old(tbuf)@.len() && !tmp.covers1(p) ==> final(tbuf)@[p] == old(tbuf)@[p],
    ;

    /// Forward transform of a whole buffer, scratch alongside.
    fn dwt1_slice(&self, sig: &mut Vec<T>, tmp: &mut Vec<T>)
        requires
            old(sig)@.len() == old(tmp)@.len(),
            old(sig)@.len() <= isize::MAX as int + 1,
            self.valid_len(old(sig)@.len() as int),
        ensures
            final(sig)@ == self.dwt1_spec(old(sig)@),
            final(tmp)@.len() == old(tmp)@.len(),
    {
        let n = sig.len();
        let sv = Strided::contiguous(n);
        let tv = Strided::contiguous(n);
        self.dwt1(&sv, sig, &tv, tmp);
        proof {
            assert(sv.seq1(old(sig)@) =~= old(sig)@);
            assert(sv.seq1(final(sig)@) =~= final(sig)@);
        }
    }

    /// Inverse transform of a whole buffer, scratch alongside.
    fn idwt1_slice(&self, sig: &mut Vec<T>, tmp: &mut Vec<T>)
        requires
            old(sig)@.len() == old(tmp)@.len(),
            old(sig)@.len() <= isize::MAX as int + 1,
            self.valid_len(old(sig)@.len() as int),
        ensures
            final(sig)@ == self.idwt1_spec(old(sig)@),
            final(tmp)@.len() == old(tmp)@.len(),
    {
        let n = sig.len();
        let sv = Strided::contiguous(n);
        let tv = Strided::contiguous(n);
        self.idwt1(&sv, sig, &tv, tmp);
        proof {
            assert(sv.seq1(old(sig)@) =~= old(sig)@);
            assert(sv.seq1(final(sig)@) =~= final(sig)@);
        }
    }
}

/// The transform's inverse undoes its forward pass exactly, on every
/// even-length sequence.
pub open spec fn seq_roundtrip1<T: Copy, A: Dwt1<T>>(a: A) -> bool {
    forall|s: Seq<T>|
        s.len() % 2 == 0 ==> #[trigger] a.idwt1_spec(a.dwt1_spec(s)) == s
}

/// Value at index `t` after lifting a pair kernel over a whole sequence,
/// forward: low coefficients of consecutive sample pairs fill the first
/// half, high coefficients the second, and an odd trailing element stays.
pub open spec fn lift0_fwd_at<T, A: Dwt0<T>>(a: A, s: Seq<T>, t: int) -> T {
    let m = (s.len() / 2) as int;
    if 0 <= t < m {
        a.dwt0_spec(s[2 * t], s[2 * t + 1]).0
    } else if m <= t < 2 * m {
        a.dwt0_spec(s[2 * (t - m)], s[2 * (t - m) + 1]).1
    } else {
        s[t]
    }
}

/// The whole forward transform of a pair kernel lifted over a sequence.
pub open spec fn lift0_fwd<T, A: Dwt0<T>>(a: A, s: Seq<T>) -> Seq<T> {
    Seq::new(s.len(), |t: int| lift0_fwd_at(a, s, t))
}

/// Value at index `t` after lifting a pair kernel over a whole sequence,
/// inverse: each sample pair is rebuilt from its low and high halves.
pub open spec fn lift0_inv_at<T, A: Dwt0<T>>(a: A, s: Seq<T>, t: int) -> T {
    let m = (s.len() / 2) as int;
    if 0 <= t < 2 * m {
        if t % 2 == 0 {
            a.idwt0_spec(s[t / 2], s[m + t / 2]).0
        } else {
            a.idwt0_spec(s[t / 2], s[m + t / 2]).1
        }
    } else {
        s[t]
    }
}

/// The whole inverse transform of a pair kernel lifted over a sequence.
pub open spec fn lift0_inv<T, A: Dwt0<T>>(a: A, s: Seq<T>) -> Seq<T> {
    Seq::new(s.len(), |t: int| lift0_inv_at(a, s, t))
}

/// Copies the elements of one view into another of the same length.
pub(crate) fn copy_view<T: Copy>(src: &Strided, sbuf: &Vec<T>, dst: &Strided, dbuf: &mut Vec<T>)
    requires
        src.wf1(sbuf@.len() as int),
        dst.wf1(old(dbuf)@.len() as int),
        dst.inj1(),
        src.len_of(0) == dst.len_of(0),
    ensures
        final(dbuf)@.len() == old(dbuf)@.len(),
        dst.seq1(final(dbuf)@) == src.seq1(sbuf@),
        forall|p: int|
            0 <= p < old(dbuf)@.len() && !dst.covers1(p) ==> final(dbuf)@[p] == old(dbuf)@[p],
{
    let n = src.len();
    let mut i: usize = 0;
    while i < n
        invariant
            src.wf1(sbuf@.len() as int),
            dst.wf1(dbuf@.len() as int),
            dst.inj1(),
            n == src.len_of(0),
            n == dst.len_of(0),
            i <= n,
            dbuf@.len() == old(dbuf)@.len(),
            forall|t: int|
                0 <= t < n ==> dbuf@[#[trigger] dst.pos1(t)] == (if t < i {
                    src.seq1(sbuf@)[t]
                } else {
                    old(dbuf)@[dst.pos1(t)]
                }),
            forall|p: int|
                0 <= p < old(dbuf)@.len() && !dst.covers1(p) ==> dbuf@[p] == old(dbuf)@[p],
        decreases n - i,
    {
        let v = src.get(sbuf, i);
        dst.store(dbuf, i, v);
        i += 1;
    }
    proof {
        assert(dst.seq1(final(dbuf)@) =~= src.seq1(sbuf@));
    }
}

/// Lifts any pair kernel to a whole-sequence transform: deinterleave the
/// scratch copy into even and odd phases, apply the kernel to each pair,
/// and write low results to the first half and high results to the second.
impl<T: Copy, A: Dwt0<T>> Dwt1<T> for A {
    open spec fn dwt1_spec(&self, s: Seq<T>) -> Seq<T> {
        lift0_fwd(*self, s)
    }

    open spec fn idwt1_spec(&self, s: Seq<T>) -> Seq<T> {
        lift0_inv(*self, s)
    }

    proof fn lemma_dwt1_spec_len(&self, s: Seq<T>) {
    }

    fn dwt1(&self, sig: &Strided, sbuf: &mut Vec<T>, tmp: &Strided, tbuf: &mut Vec<T>) {
        let ghost s0 = sig.seq1(old(sbuf)@);
        let n = sig.len();
        let m = n / 2;
        copy_view(sig, sbuf, tmp, tbuf);
        let parts = tmp.deinterleave_array(2);
        let src1 = parts[0];
        let src2 = parts[1];
        let (dst1, dst2) = sig.split_at_mut(m);
        proof {
            assert(tmp.seq1(tbuf@) == s0);
            assert forall|t: int| 0 <= t < src1.len_of(0) implies 0 <= #[trigger] src1.pos1(t)
                < tbuf@.len() by {
                assert(src1.pos1(t) == tmp.pos1(crate::strided::deint_index_spec(2, 0, t)));
            }
            assert forall|t: int| 0 <= t < src2.len_of(0) implies 0 <= #[trigger] src2.pos1(t)
                < tbuf@.len() by {
                assert(src2.pos1(t) == tmp.pos1(crate::strided::deint_index_spec(2, 1, t)));
            }
            assert(src1.len_of(0) >= m && src2.len_of(0) >= m) by {
                vstd::arithmetic::div_mod::lemma_fundamental_div_mod(n as int, 2);
            }
            assert forall|t: int| 0 <= t < dst1.len_of(0) implies 0 <= #[trigger] dst1.pos1(t)
                < sbuf@.len() by {
                assert(dst1.pos1(t) == sig.pos1(t));
            }
            assert forall|t: int| 0 <= t < dst2.len_of(0) implies 0 <= #[trigger] dst2.pos1(t)
                < sbuf@.len() by {
                assert(dst2.pos1(t) == sig.pos1(m + t));
            }
        }
        let mut j: usize = 0;
        while j < m
            invariant
                sig.wf1(sbuf@.len() as int),
                sig.inj1(),
                tmp.wf1(tbuf@.len() as int),
                n == sig.len_of(0),
                n == tmp.len_of(0),
                m == n as int / 2,
                j <= m,
                sbuf@.len() == old(sbuf)@.len(),
                tbuf@.len() == old(tbuf)@.len(),
                s0 == sig.seq1(old(sbuf)@),
                tmp.seq1(tbuf@) == s0,
                src1.wf1(tbuf@.len() as int),
                src2.wf1(tbuf@.len() as int),
                src1.len_of(0) >= m,
                src2.len_of(0) >= m,
                forall|t: int|
                    0 <= t < src1.len_of(0) ==> #[trigger] src1.pos1(t) == tmp.pos1(2 * t),
                forall|t: int|
                    0 <= t < src2.len_of(0) ==> #[trigger] src2.pos1(t) == tmp.pos1(2 * t + 1),
                dst1.len_of(0) == m && dst2.len_of(0) == n - m,
                dst1.wf1(sbuf@.len() as int),
                dst2.wf1(sbuf@.len() as int),
                forall|t: int| 0 <= t < m ==> #[trigger] dst1.pos1(t) == sig.pos1(t),
                forall|t: int| 0 <= t < n - m ==> #[trigger] dst2.pos1(t) == sig.pos1(m + t),
                forall|t: int|
                    0 <= t < n ==> sbuf@[#[trigger] sig.pos1(t)] == (if t < j || (m <= t < m + j) {
                        lift0_fwd_at(*self, s0, t)
                    } else {
                        s0[t]
                    }),
                forall|p: int|
                    0 <= p < old(sbuf)@.len() && !sig.covers1(p) ==> sbuf@[p] == old(sbuf)@[p],
                forall|p: int|
                    0 <= p < old(tbuf)@.len() && !tmp.covers1(p) ==> tbuf@[p] == old(tbuf)@[p],
            decreases m - j,
        {
            proof {
                assert(tmp.seq1(tbuf@)[2 * j] == s0[2 * j]);
                assert(tmp.seq1(tbuf@)[2 * j + 1] == s0[2 * j + 1]);
            }
            let av = src1.get(tbuf, j);
            let bv = src2.get(tbuf, j);
            proof {
                assert(av == tbuf@[tmp.pos1(2 * j)]);
                assert(av == tmp.seq1(tbuf@)[2 * j]);
                assert(bv == tmp.seq1(tbuf@)[2 * j + 1]);
            }
            let lh = self.dwt0(av, bv);
            let ghost sbuf_pre = sbuf@;
            dst1.store(sbuf, j, lh.0);
            dst2.store(sbuf, j, lh.1);
            proof {
                assert forall|t: int| 0 <= t < n implies sbuf@[#[trigger] sig.pos1(t)] == (if t < j
                    + 1 || (m <= t < m + j + 1) {
                    lift0_fwd_at(*self, s0, t)
                } else {
                    s0[t]
                }) by {
                    if t == j {
                        assert(sig.pos1(j as int) != sig.pos1(m + j));
                        assert(sbuf@[sig.pos1(t)] == lh.0);
                        assert(lift0_fwd_at(*self, s0, t) == self.dwt0_spec(
                            s0[2 * t],
                            s0[2 * t + 1],
                        ).0);
                    } else if t == m + j {
                        assert(sbuf@[sig.pos1(t)] == lh.1);
                        assert(lift0_fwd_at(*self, s0, t) == self.dwt0_spec(
                            s0[2 * (t - m)],
                            s0[2 * (t - m) + 1],
                        ).1);
                    } else {
                        assert(sig.pos1(t) != sig.pos1(j as int));
                        assert(sig.pos1(t) != sig.pos1(m + j));
                        assert(sbuf@[sig.pos1(t)] == sbuf_pre[sig.pos1(t)]);
                    }
                }
                assert forall|p: int|
                    0 <= p < old(sbuf)@.len() && !sig.covers1(p) implies sbuf@[p] == old(
                    sbuf,
                )@[p] by {
                    assert(p != sig.pos1(j as int));
                    assert(p != sig.pos1(m + j));
                }
            }
            j += 1;
        }
        proof {
            assert forall|t: int| 0 <= t < n implies sig.seq1(sbuf@)[t] == lift0_fwd_at(
                *self,
                s0,
                t,
            ) by {
                if t < m || (m <= t < 2 * (m as int)) {
                } else {
                    assert(sbuf@[sig.pos1(t)] == s0[t]);
                }
            }
            assert(sig.seq1(final(sbuf)@) =~= lift0_fwd(*self, s0));
        }
    }

    fn idwt1(&self, sig: &Strided, sbuf: &mut Vec<T>, tmp: &Strided, tbuf: &mut Vec<T>) {
        let ghost s0 = sig.seq1(old(sbuf)@);
        let n = sig.len();
        let m = n / 2;
        copy_view(sig, sbuf, tmp, tbuf);
        let (src1, src2) = tmp.split_at(m);
        let dsts = sig.deinterleave_array_mut(2);
        let dst1 = dsts[0];
        let dst2 = dsts[1];
        proof {
            assert(tmp.seq1(tbuf@) == s0);
            assert forall|t: int| 0 <= t < src1.len_of(0) implies 0 <= #[trigger] src1.pos1(t)
                < tbuf@.len() by {
                assert(src1.pos1(t) == tmp.pos1(t));
            }
            assert forall|t: int| 0 <= t < src2.len_of(0) implies 0 <= #[trigger] src2.pos1(t)
                < tbuf@.len() by {
                assert(src2.pos1(t) == tmp.pos1(m + t));
            }
            assert(dst1.len_of(0) >= m && dst2.len_of(0) == m) by {
                vstd::arithmetic::div_mod::lemma_fundamental_div_mod(n as int, 2);
            }
            assert forall|t: int| 0 <= t < dst1.len_of(0) implies 0 <= #[trigger] dst1.pos1(t)
                < sbuf@.len() by {
                assert(dst1.pos1(t) == sig.pos1(crate::strided::deint_index_spec(2, 0, t)));
            }
            assert forall|t: int| 0 <= t < dst2.len_of(0) implies 0 <= #[trigger] dst2.pos1(t)
                < sbuf@.len() by {
                assert(dst2.pos1(t) == sig.pos1(crate::strided::deint_index_spec(2, 1, t)));
            }
        }
        let mut j: usize = 0;
        while j < m
            invariant
                sig.wf1(sbuf@.len() as int),
                sig.inj1(),
                tmp.wf1(tbuf@.len() as int),
                n == sig.len_of(0),
                n == tmp.len_of(0),
                m == n as int / 2,
                j <= m,
                sbuf@.len() == old(sbuf)@.len(),
                tbuf@.len() == old(tbuf)@.len(),
                s0 == sig.seq1(old(sbuf)@),
                tmp.seq1(tbuf@) == s0,
                src1.wf1(tbuf@.len() as int),
                src2.wf1(tbuf@.len() as int),
                src1.len_of(0) == m,
                src2.len_of(0) == n - m,
                forall|t: int| 0 <= t < m ==> #[trigger] src1.pos1(t) == tmp.pos1(t),
                forall|t: int| 0 <= t < n - m ==> #[trigger] src2.pos1(t) == tmp.pos1(m + t),
                dst1.len_of(0) >= m,
                dst2.len_of(0) == m,
                dst1.wf1(sbuf@.len() as int),
                dst2.wf1(sbuf@.len() as int),
                forall|t: int|
                    0 <= t < dst1.len_of(0) ==> #[trigger] dst1.pos1(t) == sig.pos1(2 * t),
                forall|t: int|
                    0 <= t < dst2.len_of(0) ==> #[trigger] dst2.pos1(t) == sig.pos1(2 * t + 1),
                forall|t: int|
                    0 <= t < n ==> sbuf@[#[trigger] sig.pos1(t)] == (if t < 2 * j {
                        lift0_inv_at(*self, s0, t)
                    } else {
                        s0[t]
                    }),
                forall|p: int|
                    0 <= p < old(sbuf)@.len() && !sig.covers1(p) ==> sbuf@[p] == old(sbuf)@[p],
                forall|p: int|
                    0 <= p < old(tbuf)@.len() && !tmp.covers1(p) ==> tbuf@[p] == old(tbuf)@[p],
            decreases m - j,
        {
            proof {
                assert(tmp.seq1(tbuf@)[j as int] == s0[j as int]);
                assert(tmp.seq1(tbuf@)[m + j] == s0[m + j]);
            }
            let lv = src1.get(tbuf, j);
            let hv = src2.get(tbuf, j);
            proof {
                assert(lv == tmp.seq1(tbuf@)[j as int]);
                assert(hv == tmp.seq1(tbuf@)[m + j]);
            }
            let ab = self.idwt0(lv, hv);
            let ghost sbuf_pre = sbuf@;
            dst1.store(sbuf, j, ab.0);
            dst2.store(sbuf, j, ab.1);
            proof {
                assert forall|t: int| 0 <= t < n implies sbuf@[#[trigger] sig.pos1(t)] == (if t < 2
                    * (j + 1) {
                    lift0_inv_at(*self, s0, t)
                } else {
                    s0[t]
                }) by {
                    if t == 2 * j {
                        assert(sig.pos1(2 * j) != sig.pos1(2 * j + 1));
                        assert(sbuf@[sig.pos1(t)] == ab.0);
                        assert(t % 2 == 0 && t / 2 == j) by (nonlinear_arith)
                            requires
                                t == 2 * j,
                                j >= 0,
                        ;
                        assert(lift0_inv_at(*self, s0, t) == self.idwt0_spec(s0[t / 2], s0[m + t
                            / 2]).0);
                    } else if t == 2 * j + 1 {
                        assert(sbuf@[sig.pos1(t)] == ab.1);
                        assert(t % 2 == 1 && t / 2 == j) by (nonlinear_arith)
                            requires
                                t == 2 * j + 1,
                                j >= 0,
                        ;
                        assert(lift0_inv_at(*self, s0, t) == self.idwt0_spec(s0[t / 2], s0[m + t
                            / 2]).1);
                    } else {
                        assert(sig.pos1(t) != sig.pos1(2 * j));
                        assert(sig.pos1(t) != sig.pos1(2 * j + 1));
                        assert(sbuf@[sig.pos1(t)] == sbuf_pre[sig.pos1(t)]);
                    }
                }
                assert forall|p: int|
                    0 <= p < old(sbuf)@.len() && !sig.covers1(p) implies sbuf@[p] == old(
                    sbuf,
                )@[p] by {
                    assert(p != sig.pos1(2 * j));
                    assert(p != sig.pos1(2 * j + 1));
                }
            }
            j += 1;
        }
        proof {
            assert forall|t: int| 0 <= t < n implies sig.seq1(sbuf@)[t] == lift0_inv_at(
                *self,
                s0,
                t,
            ) by {
                if t < 2 * (m as int) {
                } else {
                    assert(sbuf@[sig.pos1(t)] == s0[t]);
                }
            }
            assert(sig.seq1(final(sbuf)@) =~= lift0_inv(*self, s0));
        }
    }
}

/// Round-trip law for lifted kernels: whenever the pair kernel inverts its
/// own forward step exactly, the lifted whole-sequence transform inverts
/// its forward pass exactly on every even-length sequence.
pub proof fn lemma_lift0_roundtrip<T: Copy, A: Dwt0<T>>(a: A)
    requires
        pair_roundtrip(a),
    ensures
        seq_roundtrip1(a),
{
    assert forall|s: Seq<T>| s.len() % 2 == 0 implies #[trigger] a.idwt1_spec(a.dwt1_spec(s))
        == s by {
        let f = lift0_fwd(a, s);
        let m = (s.len() / 2) as int;
        vstd::arithmetic::div_mod::lemma_fundamental_div_mod(s.len() as int, 2);
        assert(s.len() == 2 * m);
        assert forall|t: int| 0 <= t < s.len() implies lift0_inv(a, f)[t] == s[t] by {
            vstd::arithmetic::div_mod::lemma_fundamental_div_mod(t, 2);
            vstd::arithmetic::div_mod::lemma_div_pos_is_pos(t, 2);
            let i = t / 2;
            assert(t == 2 * i + t % 2);
            assert(i < m) by (nonlinear_arith)
                requires
                    t == 2 * i + t % 2,
                    t < 2 * m,
                    0 <= t % 2,
            ;
            assert(f[i] == a.dwt0_spec(s[2 * i], s[2 * i + 1]).0);
            assert(f[m + i] == a.dwt0_spec(s[2 * i], s[2 * i + 1]).1);
            assert(a.idwt0_spec(f[i], f[m + i]) == (s[2 * i], s[2 * i + 1]));
        }
        assert(a.idwt1_spec(a.dwt1_spec(s)) =~= s);
    }
}

} // verus!

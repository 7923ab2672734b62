//! The Daubechies-5/3 biorthogonal wavelet as a reversible integer lifting
//! pair (predict then update), with edge replication at the right boundary,
//! and its lossy variant that passes the high band through a dead-zone
//! compander before narrowing.

use crate::dwt::clamp_spec;
use crate::dwt::div_trunc;
use crate::dwt::div_trunc_i16;
use crate::dwt::seq_roundtrip1;
use crate::dwt::Dwt1;
use crate::strided::Strided;
use vstd::prelude::*;

verus! {

/// The reversible Daubechies-5/3 kernel. The high coefficient at `i`
/// predicts the odd sample from its two even neighbors (the right neighbor
/// replicated at the edge); the low coefficient then folds the previous
/// and current high coefficients back into the even sample.
pub struct Daub53;

/// The even neighbor used to predict pair `i`: the next even sample, or
/// the current one when the sequence ends first.
pub open spec fn daub_c16(s: Seq<i16>, i: int) -> i16 {
    if 2 * i + 2 < s.len() {
        s[2 * i + 2]
    } else {
        s[2 * i]
    }
}

/// High coefficient `i` of the forward transform.
pub open spec fn daub_h16(s: Seq<i16>, i: int) -> i16 {
    s[2 * i + 1].wrapping_sub(div_trunc(s[2 * i].wrapping_add(daub_c16(s, i)) as int, 2) as i16)
}

/// The high coefficient preceding pair `i`, taken as zero before the
/// first pair.
pub open spec fn daub_hprev16(s: Seq<i16>, i: int) -> i16 {
    if i == 0 {
        0i16
    } else {
        daub_h16(s, i - 1)
    }
}

/// Low coefficient `i` of the forward transform.
pub open spec fn daub_l16(s: Seq<i16>, i: int) -> i16 {
    s[2 * i].wrapping_add(
        div_trunc(daub_hprev16(s, i).wrapping_add(daub_h16(s, i)) as int, 4) as i16,
    )
}

/// The whole forward transform: low coefficients in the first half, high
/// coefficients in the second, an odd trailing element unchanged.
pub open spec fn daub_fwd16(s: Seq<i16>) -> Seq<i16> {
    let m = (s.len() / 2) as int;
    Seq::new(
        s.len(),
        |t: int|
            if 0 <= t < m {
                daub_l16(s, t)
            } else if m <= t < 2 * m {
                daub_h16(s, t - m)
            } else {
                s[t]
            },
    )
}

/// Even sample `i` reconstructed by the inverse transform.
pub open spec fn daub_a16(s: Seq<i16>, i: int) -> i16 {
    let m = (s.len() / 2) as int;
    let hp = if i == 0 {
        0i16
    } else {
        s[m + i - 1]
    };
    s[i].wrapping_sub(div_trunc(hp.wrapping_add(s[m + i]) as int, 4) as i16)
}

/// The reconstructed even neighbor the inverse uses to undo prediction of
/// pair `i`: the next one, or the current one at the edge.
pub open spec fn daub_ca16(s: Seq<i16>, i: int) -> i16 {
    let m = (s.len() / 2) as int;
    if i + 1 < m {
        daub_a16(s, i + 1)
    } else {
        daub_a16(s, i)
    }
}

/// Odd sample `i` reconstructed by the inverse transform.
pub open spec fn daub_b16(s: Seq<i16>, i: int) -> i16 {
    let m = (s.len() / 2) as int;
    s[m + i].wrapping_add(
        div_trunc(daub_a16(s, i).wrapping_add(daub_ca16(s, i)) as int, 2) as i16,
    )
}

/// The whole inverse transform.
pub open spec fn daub_inv16(s: Seq<i16>) -> Seq<i16> {
    let m = (s.len() / 2) as int;
    Seq::new(
        s.len(),
        |t: int|
            if 0 <= t < 2 * m {
                if t % 2 == 0 {
                    daub_a16(s, t / 2)
                } else {
                    daub_b16(s, t / 2)
                }
            } else {
                s[t]
            },
    )
}

impl Dwt1<i16> for Daub53 {
    open spec fn dwt1_spec(&self, s: Seq<i16>) -> Seq<i16> {
        daub_fwd16(s)
    }

    open spec fn idwt1_spec(&self, s: Seq<i16>) -> Seq<i16> {
        daub_inv16(s)
    }

    proof fn lemma_dwt1_spec_len(&self, s: Seq<i16>) {
    }

    fn dwt1(&self, sig: &Strided, sbuf: &mut Vec<i16>, tmp: &Strided, tbuf: &mut Vec<i16>) {
        let ghost s0 = sig.seq1(old(sbuf)@);
        let n = sig.len();
        let m = n / 2;
        crate::dwt::copy_view(sig, sbuf, tmp, tbuf);
        let (dst1, dst2) = sig.split_at_mut(m);
        proof {
            assert(tmp.seq1(tbuf@) == s0);
            assert forall|t: int| 0 <= t < dst1.len_of(0) implies 0 <= #[trigger] dst1.pos1(t)
                < sbuf@.len() by {
                assert(dst1.pos1(t) == sig.pos1(t));
            }
            assert forall|t: int| 0 <= t < dst2.len_of(0) implies 0 <= #[trigger] dst2.pos1(t)
                < sbuf@.len() by {
                assert(dst2.pos1(t) == sig.pos1(m + t));
            }
        }
        let mut h0: i16 = 0;
        let mut j: usize = 0;
        while j < m
            invariant
                sig.wf1(sbuf@.len() as int),
                sig.inj1(),
                tmp.wf1(tbuf@.len() as int),
                n == sig.len_of(0),
                n == tmp.len_of(0),
                m == n as int / 2,
                j <= m,
                2 * m <= n,
                sbuf@.len() == old(sbuf)@.len(),
                tbuf@.len() == old(tbuf)@.len(),
                s0 == sig.seq1(old(sbuf)@),
                s0.len() == n,
                tmp.seq1(tbuf@) == s0,
                dst1.len_of(0) == m && dst2.len_of(0) == n - m,
                dst1.wf1(sbuf@.len() as int),
                dst2.wf1(sbuf@.len() as int),
                forall|t: int| 0 <= t < m ==> #[trigger] dst1.pos1(t) == sig.pos1(t),
                forall|t: int| 0 <= t < n - m ==> #[trigger] dst2.pos1(t) == sig.pos1(m + t),
                h0 == daub_hprev16(s0, j as int),
                forall|t: int|
                    0 <= t < n ==> sbuf@[#[trigger] sig.pos1(t)] == (if t < j {
                        daub_l16(s0, t)
                    } else if m <= t < m + j {
                        daub_h16(s0, t - m)
                    } else {
                        s0[t]
                    }),
                forall|p: int|
                    0 <= p < old(sbuf)@.len() && !sig.covers1(p) ==> sbuf@[p] == old(sbuf)@[p],
                forall|p: int|
                    0 <= p < old(tbuf)@.len() && !tmp.covers1(p) ==> tbuf@[p] == old(tbuf)@[p],
            decreases m - j,
        {
            proof {
                assert(2 * j + 1 < n) by (nonlinear_arith)
                    requires
                        j < m,
                        m == n as int / 2,
                        2 * m <= n,
                ;
                assert(tmp.seq1(tbuf@)[2 * j] == s0[2 * j]);
                assert(tmp.seq1(tbuf@)[2 * j + 1] == s0[2 * j + 1]);
            }
            let av = tmp.get(tbuf, 2 * j);
            let bv = tmp.get(tbuf, 2 * j + 1);
            let cv = match tmp.checked_get(tbuf, 2 * j + 2) {
                Some(v) => v,
                None => av,
            };
            proof {
                assert(cv == daub_c16(s0, j as int));
            }
            let hv = bv.wrapping_sub(div_trunc_i16(av.wrapping_add(cv), 2));
            let lv = av.wrapping_add(div_trunc_i16(h0.wrapping_add(hv), 4));
            proof {
                assert(hv == daub_h16(s0, j as int));
                assert(lv == daub_l16(s0, j as int));
            }
            let ghost sbuf_pre = sbuf@;
            dst1.store(sbuf, j, lv);
            dst2.store(sbuf, j, hv);
            proof {
                assert forall|t: int| 0 <= t < n implies sbuf@[#[trigger] sig.pos1(t)] == (if t < j
                    + 1 {
                    daub_l16(s0, t)
                } else if m <= t < m + j + 1 {
                    daub_h16(s0, t - m)
                } else {
                    s0[t]
                }) by {
                    if t == j {
                        assert(sig.pos1(j as int) != sig.pos1(m + j));
                        assert(sbuf@[sig.pos1(t)] == lv);
                    } else if t == m + j {
                        assert(sbuf@[sig.pos1(t)] == hv);
                    } else {
                        assert(sig.pos1(t) != sig.pos1(j as int));
                        assert(sig.pos1(t) != sig.pos1(m + j));
                        assert(sbuf@[sig.pos1(t)] == sbuf_pre[sig.pos1(t)]);
                    }
                }
                assert forall|p: int|
                    0 <= p < old(sbuf)@.len() && !sig.covers1(p) implies sbuf@[p] == old(
                    sbuf,
                )@[p] by {
                    assert(p != sig.pos1(j as int));
                    assert(p != sig.pos1(m + j));
                }
            }
            h0 = hv;
            j += 1;
        }
        proof {
            assert forall|t: int| 0 <= t < n implies sig.seq1(sbuf@)[t] == daub_fwd16(s0)[t] by {
                if t >= 2 * (m as int) {
                    assert(sbuf@[sig.pos1(t)] == s0[t]);
                }
            }
            assert(sig.seq1(final(sbuf)@) =~= daub_fwd16(s0));
        }
    }

    fn idwt1(&self, sig: &Strided, sbuf: &mut Vec<i16>, tmp: &Strided, tbuf: &mut Vec<i16>) {
        let ghost s0 = sig.seq1(old(sbuf)@);
        let n = sig.len();
        let m = n / 2;
        crate::dwt::copy_view(sig, sbuf, tmp, tbuf);
        let dsts = sig.deinterleave_array_mut(2);
        let dst1 = dsts[0];
        let dst2 = dsts[1];
        proof {
            assert(tmp.seq1(tbuf@) == s0);
            vstd::arithmetic::div_mod::lemma_fundamental_div_mod(n as int, 2);
            assert(dst1.len_of(0) >= m && dst2.len_of(0) == m);
            assert forall|t: int| 0 <= t < dst1.len_of(0) implies 0 <= #[trigger] dst1.pos1(t)
                < sbuf@.len() by {
                assert(dst1.pos1(t) == sig.pos1(crate::strided::deint_index_spec(2, 0, t)));
            }
            assert forall|t: int| 0 <= t < dst2.len_of(0) implies 0 <= #[trigger] dst2.pos1(t)
                < sbuf@.len() by {
                assert(dst2.pos1(t) == sig.pos1(crate::strided::deint_index_spec(2, 1, t)));
            }
        }
        let mut aprev: i16 = 0;
        let mut idx: usize = m;
        while idx > 0
            invariant
                sig.wf1(sbuf@.len() as int),
                sig.inj1(),
                tmp.wf1(tbuf@.len() as int),
                n == sig.len_of(0),
                n == tmp.len_of(0),
                m == n as int / 2,
                idx <= m,
                2 * m <= n,
                sbuf@.len() == old(sbuf)@.len(),
                tbuf@.len() == old(tbuf)@.len(),
                s0 == sig.seq1(old(sbuf)@),
                s0.len() == n,
                tmp.seq1(tbuf@) == s0,
                dst1.len_of(0) >= m,
                dst2.len_of(0) == m,
                dst1.wf1(sbuf@.len() as int),
                dst2.wf1(sbuf@.len() as int),
                forall|t: int|
                    0 <= t < dst1.len_of(0) ==> #[trigger] dst1.pos1(t) == sig.pos1(2 * t),
                forall|t: int|
                    0 <= t < dst2.len_of(0) ==> #[trigger] dst2.pos1(t) == sig.pos1(2 * t + 1),
                idx < m ==> aprev == daub_a16(s0, idx as int),
                forall|t: int|
                    0 <= t < n ==> sbuf@[#[trigger] sig.pos1(t)] == (if 2 * idx <= t < 2 * m {
                        if t % 2 == 0 {
                            daub_a16(s0, t / 2)
                        } else {
                            daub_b16(s0, t / 2)
                        }
                    } else {
                        s0[t]
                    }),
                forall|p: int|
                    0 <= p < old(sbuf)@.len() && !sig.covers1(p) ==> sbuf@[p] == old(sbuf)@[p],
                forall|p: int|
                    0 <= p < old(tbuf)@.len() && !tmp.covers1(p) ==> tbuf@[p] == old(tbuf)@[p],
            decreases idx,
        {
            let i = idx - 1;
            proof {
                assert(m + i < n);
                assert(tmp.seq1(tbuf@)[i as int] == s0[i as int]);
                assert(tmp.seq1(tbuf@)[m + i] == s0[m + i]);
            }
            let lv = tmp.get(tbuf, i);
            let hv = tmp.get(tbuf, m + i);
            let h0v: i16 = if i == 0 {
                0
            } else {
                proof {
                    assert(tmp.seq1(tbuf@)[m + i - 1] == s0[m + i - 1]);
                }
                tmp.get(tbuf, m + i - 1)
            };
            let av = lv.wrapping_sub(div_trunc_i16(h0v.wrapping_add(hv), 4));
            let cuse: i16 = if i + 1 < m {
                aprev
            } else {
                av
            };
            let bv = hv.wrapping_add(div_trunc_i16(av.wrapping_add(cuse), 2));
            proof {
                assert(av == daub_a16(s0, i as int));
                assert(cuse == daub_ca16(s0, i as int));
                assert(bv == daub_b16(s0, i as int));
            }
            let ghost sbuf_pre = sbuf@;
            dst1.store(sbuf, i, av);
            dst2.store(sbuf, i, bv);
            proof {
                assert forall|t: int| 0 <= t < n implies sbuf@[#[trigger] sig.pos1(t)] == (if 2 * (
                idx - 1) <= t < 2 * m {
                    if t % 2 == 0 {
                        daub_a16(s0, t / 2)
                    } else {
                        daub_b16(s0, t / 2)
                    }
                } else {
                    s0[t]
                }) by {
                    if t == 2 * i {
                        assert(sig.pos1(2 * i) != sig.pos1(2 * i + 1));
                        assert(sbuf@[sig.pos1(t)] == av);
                        assert(t % 2 == 0 && t / 2 == i) by (nonlinear_arith)
                            requires
                                t == 2 * i,
                                i >= 0,
                        ;
                    } else if t == 2 * i + 1 {
                        assert(sbuf@[sig.pos1(t)] == bv);
                        assert(t % 2 == 1 && t / 2 == i) by (nonlinear_arith)
                            requires
                                t == 2 * i + 1,
                                i >= 0,
                        ;
                    } else {
                        assert(sig.pos1(t) != sig.pos1(2 * i));
                        assert(sig.pos1(t) != sig.pos1(2 * i + 1));
                        assert(sbuf@[sig.pos1(t)] == sbuf_pre[sig.pos1(t)]);
                    }
                }
                assert forall|p: int|
                    0 <= p < old(sbuf)@.len() && !sig.covers1(p) implies sbuf@[p] == old(
                    sbuf,
                )@[p] by {
                    assert(p != sig.pos1(2 * i));
                    assert(p != sig.pos1(2 * i + 1));
                }
            }
            aprev = av;
            idx = i;
        }
        proof {
            assert forall|t: int| 0 <= t < n implies sig.seq1(sbuf@)[t] == daub_inv16(s0)[t] by {
                if t >= 2 * (m as int) {
                    assert(sbuf@[sig.pos1(t)] == s0[t]);
                }
            }
            assert(sig.seq1(final(sbuf)@) =~= daub_inv16(s0));
        }
    }
}

/// The even neighbor used to predict pair `i` at 8 bits.
pub open spec fn daub_c8(s: Seq<i8>, i: int) -> i8 {
    if 2 * i + 2 < s.len() {
        s[2 * i + 2]
    } else {
        s[2 * i]
    }
}

/// High coefficient `i` of the 8-bit forward transform; the prediction is
/// computed at 16 bits, where it cannot overflow, and narrowed back.
pub open spec fn daub_h8(s: Seq<i8>, i: int) -> i8 {
    s[2 * i + 1].wrapping_sub(div_trunc(s[2 * i] + daub_c8(s, i), 2) as i8)
}

/// The high coefficient preceding pair `i`, zero before the first pair.
pub open spec fn daub_hprev8(s: Seq<i8>, i: int) -> int {
    if i == 0 {
        0int
    } else {
        daub_h8(s, i - 1) as int
    }
}

/// Low coefficient `i` of the 8-bit forward transform.
pub open spec fn daub_l8(s: Seq<i8>, i: int) -> i8 {
    s[2 * i].wrapping_add(div_trunc(daub_hprev8(s, i) + daub_h8(s, i), 4) as i8)
}

/// The whole 8-bit forward transform.
pub open spec fn daub_fwd8(s: Seq<i8>) -> Seq<i8> {
    let m = (s.len() / 2) as int;
    Seq::new(
        s.len(),
        |t: int|
            if 0 <= t < m {
                daub_l8(s, t)
            } else if m <= t < 2 * m {
                daub_h8(s, t - m)
            } else {
                s[t]
            },
    )
}

/// Even sample `i` reconstructed by the 8-bit inverse transform.
pub open spec fn daub_a8(s: Seq<i8>, i: int) -> i8 {
    let m = (s.len() / 2) as int;
    let hp: int = if i == 0 {
        0int
    } else {
        s[m + i - 1] as int
    };
    s[i].wrapping_sub(div_trunc(hp + s[m + i], 4) as i8)
}

/// The reconstructed even neighbor used to undo prediction of pair `i`.
pub open spec fn daub_ca8(s: Seq<i8>, i: int) -> i8 {
    let m = (s.len() / 2) as int;
    if i + 1 < m {
        daub_a8(s, i + 1)
    } else {
        daub_a8(s, i)
    }
}

/// Odd sample `i` reconstructed by the 8-bit inverse transform.
pub open spec fn daub_b8(s: Seq<i8>, i: int) -> i8 {
    let m = (s.len() / 2) as int;
    s[m + i].wrapping_add(div_trunc(daub_a8(s, i) + daub_ca8(s, i), 2) as i8)
}

/// The whole 8-bit inverse transform.
pub open spec fn daub_inv8(s: Seq<i8>) -> Seq<i8> {
    let m = (s.len() / 2) as int;
    Seq::new(
        s.len(),
        |t: int|
            if 0 <= t < 2 * m {
                if t % 2 == 0 {
                    daub_a8(s, t / 2)
                } else {
                    daub_b8(s, t / 2)
                }
            } else {
                s[t]
            },
    )
}

impl Dwt1<i8> for Daub53 {
    open spec fn dwt1_spec(&self, s: Seq<i8>) -> Seq<i8> {
        daub_fwd8(s)
    }

    open spec fn idwt1_spec(&self, s: Seq<i8>) -> Seq<i8> {
        daub_inv8(s)
    }

    proof fn lemma_dwt1_spec_len(&self, s: Seq<i8>) {
    }

    fn dwt1(&self, sig: &Strided, sbuf: &mut Vec<i8>, tmp: &Strided, tbuf: &mut Vec<i8>) {
        let ghost s0 = sig.seq1(old(sbuf)@);
        let n = sig.len();
        let m = n / 2;
        crate::dwt::copy_view(sig, sbuf, tmp, tbuf);
        let (dst1, dst2) = sig.split_at_mut(m);
        proof {
            assert(tmp.seq1(tbuf@) == s0);
            assert forall|t: int| 0 <= t < dst1.len_of(0) implies 0 <= #[trigger] dst1.pos1(t)
                < sbuf@.len() by {
                assert(dst1.pos1(t) == sig.pos1(t));
            }
            assert forall|t: int| 0 <= t < dst2.len_of(0) implies 0 <= #[trigger] dst2.pos1(t)
                < sbuf@.len() by {
                assert(dst2.pos1(t) == sig.pos1(m + t));
            }
        }
        let mut h0: i16 = 0;
        let mut j: usize = 0;
        while j < m
            invariant
                sig.wf1(sbuf@.len() as int),
                sig.inj1(),
                tmp.wf1(tbuf@.len() as int),
                n == sig.len_of(0),
                n == tmp.len_of(0),
                m == n as int / 2,
                j <= m,
                2 * m <= n,
                sbuf@.len() == old(sbuf)@.len(),
                tbuf@.len() == old(tbuf)@.len(),
                s0 == sig.seq1(old(sbuf)@),
                s0.len() == n,
                tmp.seq1(tbuf@) == s0,
                dst1.len_of(0) == m && dst2.len_of(0) == n - m,
                dst1.wf1(sbuf@.len() as int),
                dst2.wf1(sbuf@.len() as int),
                forall|t: int| 0 <= t < m ==> #[trigger] dst1.pos1(t) == sig.pos1(t),
                forall|t: int| 0 <= t < n - m ==> #[trigger] dst2.pos1(t) == sig.pos1(m + t),
                h0 as int == daub_hprev8(s0, j as int),
                forall|t: int|
                    0 <= t < n ==> sbuf@[#[trigger] sig.pos1(t)] == (if t < j {
                        daub_l8(s0, t)
                    } else if m <= t < m + j {
                        daub_h8(s0, t - m)
                    } else {
                        s0[t]
                    }),
                forall|p: int|
                    0 <= p < old(sbuf)@.len() && !sig.covers1(p) ==> sbuf@[p] == old(sbuf)@[p],
                forall|p: int|
                    0 <= p < old(tbuf)@.len() && !tmp.covers1(p) ==> tbuf@[p] == old(tbuf)@[p],
            decreases m - j,
        {
            proof {
                assert(2 * j + 1 < n) by (nonlinear_arith)
                    requires
                        j < m,
                        m == n as int / 2,
                        2 * m <= n,
                ;
                assert(tmp.seq1(tbuf@)[2 * j] == s0[2 * j]);
                assert(tmp.seq1(tbuf@)[2 * j + 1] == s0[2 * j + 1]);
            }
            let av = tmp.get(tbuf, 2 * j);
            let bv = tmp.get(tbuf, 2 * j + 1);
            let cv = match tmp.checked_get(tbuf, 2 * j + 2) {
                Some(v) => v,
                None => av,
            };
            proof {
                assert(cv == daub_c8(s0, j as int));
                crate::dwt::lemma_div_trunc_bounds(av as int + cv as int, 2);
            }
            let pd = div_trunc_i16((av as i16) + (cv as i16), 2);
            let hv = bv.wrapping_sub(pd as i8);
            proof {
                assert(hv == daub_h8(s0, j as int));
                crate::dwt::lemma_div_trunc_bounds(h0 as int + hv as int, 4);
            }
            let ud = div_trunc_i16(h0 + (hv as i16), 4);
            let lv = av.wrapping_add(ud as i8);
            proof {
                assert(lv == daub_l8(s0, j as int));
            }
            let ghost sbuf_pre = sbuf@;
            dst1.store(sbuf, j, lv);
            dst2.store(sbuf, j, hv);
            proof {
                assert forall|t: int| 0 <= t < n implies sbuf@[#[trigger] sig.pos1(t)] == (if t < j
                    + 1 {
                    daub_l8(s0, t)
                } else if m <= t < m + j + 1 {
                    daub_h8(s0, t - m)
                } else {
                    s0[t]
                }) by {
                    if t == j {
                        assert(sig.pos1(j as int) != sig.pos1(m + j));
                        assert(sbuf@[sig.pos1(t)] == lv);
                    } else if t == m + j {
                        assert(sbuf@[sig.pos1(t)] == hv);
                    } else {
                        assert(sig.pos1(t) != sig.pos1(j as int));
                        assert(sig.pos1(t) != sig.pos1(m + j));
                        assert(sbuf@[sig.pos1(t)] == sbuf_pre[sig.pos1(t)]);
                    }
                }
                assert forall|p: int|
                    0 <= p < old(sbuf)@.len() && !sig.covers1(p) implies sbuf@[p] == old(
                    sbuf,
                )@[p] by {
                    assert(p != sig.pos1(j as int));
                    assert(p != sig.pos1(m + j));
                }
            }
            h0 = hv as i16;
            j += 1;
        }
        proof {
            assert forall|t: int| 0 <= t < n implies sig.seq1(sbuf@)[t] == daub_fwd8(s0)[t] by {
                if t >= 2 * (m as int) {
                    assert(sbuf@[sig.pos1(t)] == s0[t]);
                }
            }
            assert(sig.seq1(final(sbuf)@) =~= daub_fwd8(s0));
        }
    }

    fn idwt1(&self, sig: &Strided, sbuf: &mut Vec<i8>, tmp: &Strided, tbuf: &mut Vec<i8>) {
        let ghost s0 = sig.seq1(old(sbuf)@);
        let n = sig.len();
        let m = n / 2;
        crate::dwt::copy_view(sig, sbuf, tmp, tbuf);
        let dsts = sig.deinterleave_array_mut(2);
        let dst1 = dsts[0];
        let dst2 = dsts[1];
        proof {
            assert(tmp.seq1(tbuf@) == s0);
            vstd::arithmetic::div_mod::lemma_fundamental_div_mod(n as int, 2);
            assert(dst1.len_of(0) >= m && dst2.len_of(0) == m);
            assert forall|t: int| 0 <= t < dst1.len_of(0) implies 0 <= #[trigger] dst1.pos1(t)
                < sbuf@.len() by {
                assert(dst1.pos1(t) == sig.pos1(crate::strided::deint_index_spec(2, 0, t)));
            }
            assert forall|t: int| 0 <= t < dst2.len_of(0) implies 0 <= #[trigger] dst2.pos1(t)
                < sbuf@.len() by {
                assert(dst2.pos1(t) == sig.pos1(crate::strided::deint_index_spec(2, 1, t)));
            }
        }
        let mut aprev: i8 = 0;
        let mut idx: usize = m;
        while idx > 0
            invariant
                sig.wf1(sbuf@.len() as int),
                sig.inj1(),
                tmp.wf1(tbuf@.len() as int),
                n == sig.len_of(0),
                n == tmp.len_of(0),
                m == n as int / 2,
                idx <= m,
                2 * m <= n,
                sbuf@.len() == old(sbuf)@.len(),
                tbuf@.len() == old(tbuf)@.len(),
                s0 == sig.seq1(old(sbuf)@),
                s0.len() == n,
                tmp.seq1(tbuf@) == s0,
                dst1.len_of(0) >= m,
                dst2.len_of(0) == m,
                dst1.wf1(sbuf@.len() as int),
                dst2.wf1(sbuf@.len() as int),
                forall|t: int|
                    0 <= t < dst1.len_of(0) ==> #[trigger] dst1.pos1(t) == sig.pos1(2 * t),
                forall|t: int|
                    0 <= t < dst2.len_of(0) ==> #[trigger] dst2.pos1(t) == sig.pos1(2 * t + 1),
                idx < m ==> aprev == daub_a8(s0, idx as int),
                forall|t: int|
                    0 <= t < n ==> sbuf@[#[trigger] sig.pos1(t)] == (if 2 * idx <= t < 2 * m {
                        if t % 2 == 0 {
                            daub_a8(s0, t / 2)
                        } else {
                            daub_b8(s0, t / 2)
                        }
                    } else {
                        s0[t]
                    }),
                forall|p: int|
                    0 <= p < old(sbuf)@.len() && !sig.covers1(p) ==> sbuf@[p] == old(sbuf)@[p],
                forall|p: int|
                    0 <= p < old(tbuf)@.len() && !tmp.covers1(p) ==> tbuf@[p] == old(tbuf)@[p],
            decreases idx,
        {
            let i = idx - 1;
            proof {
                assert(m + i < n);
                assert(tmp.seq1(tbuf@)[i as int] == s0[i as int]);
                assert(tmp.seq1(tbuf@)[m + i] == s0[m + i]);
            }
            let lv = tmp.get(tbuf, i);
            let hv = tmp.get(tbuf, m + i);
            let h0v: i8 = if i == 0 {
                0
            } else {
                proof {
                    assert(tmp.seq1(tbuf@)[m + i - 1] == s0[m + i - 1]);
                }
                tmp.get(tbuf, m + i - 1)
            };
            proof {
                crate::dwt::lemma_div_trunc_bounds(h0v as int + hv as int, 4);
            }
            let ud = div_trunc_i16((h0v as i16) + (hv as i16), 4);
            let av = lv.wrapping_sub(ud as i8);
            let cuse: i8 = if i + 1 < m {
                aprev
            } else {
                av
            };
            proof {
                assert(av == daub_a8(s0, i as int));
                assert(cuse == daub_ca8(s0, i as int));
                crate::dwt::lemma_div_trunc_bounds(av as int + cuse as int, 2);
            }
            let pd = div_trunc_i16((av as i16) + (cuse as i16), 2);
            let bv = hv.wrapping_add(pd as i8);
            proof {
                assert(bv == daub_b8(s0, i as int));
            }
            let ghost sbuf_pre = sbuf@;
            dst1.store(sbuf, i, av);
            dst2.store(sbuf, i, bv);
            proof {
                assert forall|t: int| 0 <= t < n implies sbuf@[#[trigger] sig.pos1(t)] == (if 2 * (
                idx - 1) <= t < 2 * m {
                    if t % 2 == 0 {
                        daub_a8(s0, t / 2)
                    } else {
                        daub_b8(s0, t / 2)
                    }
                } else {
                    s0[t]
                }) by {
                    if t == 2 * i {
                        assert(sig.pos1(2 * i) != sig.pos1(2 * i + 1));
                        assert(sbuf@[sig.pos1(t)] == av);
                        assert(t % 2 == 0 && t / 2 == i) by (nonlinear_arith)
                            requires
                                t == 2 * i,
                                i >= 0,
                        ;
                    } else if t == 2 * i + 1 {
                        assert(sbuf@[sig.pos1(t)] == bv);
                        assert(t % 2 == 1 && t / 2 == i) by (nonlinear_arith)
                            requires
                                t == 2 * i + 1,
                                i >= 0,
                        ;
                    } else {
                        assert(sig.pos1(t) != sig.pos1(2 * i));
                        assert(sig.pos1(t) != sig.pos1(2 * i + 1));
                        assert(sbuf@[sig.pos1(t)] == sbuf_pre[sig.pos1(t)]);
                    }
                }
                assert forall|p: int|
                    0 <= p < old(sbuf)@.len() && !sig.covers1(p) implies sbuf@[p] == old(
                    sbuf,
                )@[p] by {
                    assert(p != sig.pos1(2 * i));
                    assert(p != sig.pos1(2 * i + 1));
                }
            }
            aprev = av;
            idx = i;
        }
        proof {
            assert forall|t: int| 0 <= t < n implies sig.seq1(sbuf@)[t] == daub_inv8(s0)[t] by {
                if t >= 2 * (m as int) {
                    assert(sbuf@[sig.pos1(t)] == s0[t]);
                }
            }
            assert(sig.seq1(final(sbuf)@) =~= daub_inv8(s0));
        }
    }
}

/// Round-trip law for the Daubechies-5/3 transform at 8 bits.
pub proof fn lemma_daub_roundtrip_i8()
    ensures
        seq_roundtrip1::<i8, Daub53>(Daub53),
{
    assert forall|s: Seq<i8>| s.len() % 2 == 0 implies #[trigger] Daub53.idwt1_spec(
        Daub53.dwt1_spec(s),
    ) == s by {
        let f = daub_fwd8(s);
        let m = (s.len() / 2) as int;
        vstd::arithmetic::div_mod::lemma_fundamental_div_mod(s.len() as int, 2);
        assert(s.len() == 2 * m);
        assert(f.len() == s.len());
        assert forall|i: int| 0 <= i < m implies daub_a8(f, i) == s[2 * i] by {
            assert(f[i] == daub_l8(s, i));
            assert(f[m + i] == daub_h8(s, i));
            if i > 0 {
                assert(f[m + i - 1] == daub_h8(s, i - 1));
            }
        }
        assert forall|t: int| 0 <= t < s.len() implies daub_inv8(f)[t] == s[t] by {
            vstd::arithmetic::div_mod::lemma_fundamental_div_mod(t, 2);
            vstd::arithmetic::div_mod::lemma_div_pos_is_pos(t, 2);
            let i = t / 2;
            assert(t == 2 * i + t % 2);
            assert(i < m) by (nonlinear_arith)
                requires
                    t == 2 * i + t % 2,
                    t < 2 * m,
                    0 <= t % 2,
            ;
            assert(daub_a8(f, i) == s[2 * i]);
            if t % 2 == 1 {
                assert(daub_ca8(f, i) == daub_c8(s, i)) by {
                    if i + 1 < m {
                        assert(daub_a8(f, i + 1) == s[2 * (i + 1)]);
                        assert(2 * i + 2 < s.len());
                    } else {
                        assert(2 * i + 2 >= s.len());
                    }
                }
                assert(f[m + i] == daub_h8(s, i));
                assert(daub_b8(f, i) == s[2 * i + 1]);
            }
        }
        assert(Daub53.idwt1_spec(Daub53.dwt1_spec(s)) =~= s);
    }
}

/// Round-trip law for the Daubechies-5/3 transform at 16 bits: on every
/// even-length sequence the inverse transform reconstructs the input
/// exactly, despite the integer rounding inside each lifting step.
pub proof fn lemma_daub_roundtrip_i16()
    ensures
        seq_roundtrip1::<i16, Daub53>(Daub53),
{
    assert forall|s: Seq<i16>| s.len() % 2 == 0 implies #[trigger] Daub53.idwt1_spec(
        Daub53.dwt1_spec(s),
    ) == s by {
        let f = daub_fwd16(s);
        let m = (s.len() / 2) as int;
        vstd::arithmetic::div_mod::lemma_fundamental_div_mod(s.len() as int, 2);
        assert(s.len() == 2 * m);
        assert(f.len() == s.len());
        assert forall|i: int| 0 <= i < m implies daub_a16(f, i) == s[2 * i] by {
            assert(f[i] == daub_l16(s, i));
            assert(f[m + i] == daub_h16(s, i));
            if i > 0 {
                assert(f[m + i - 1] == daub_h16(s, i - 1));
            }
        }
        assert forall|t: int| 0 <= t < s.len() implies daub_inv16(f)[t] == s[t] by {
            vstd::arithmetic::div_mod::lemma_fundamental_div_mod(t, 2);
            vstd::arithmetic::div_mod::lemma_div_pos_is_pos(t, 2);
            let i = t / 2;
            assert(t == 2 * i + t % 2);
            assert(i < m) by (nonlinear_arith)
                requires
                    t == 2 * i + t % 2,
                    t < 2 * m,
                    0 <= t % 2,
            ;
            assert(daub_a16(f, i) == s[2 * i]);
            if t % 2 == 1 {
                assert(daub_ca16(f, i) == daub_c16(s, i)) by {
                    if i + 1 < m {
                        assert(daub_a16(f, i + 1) == s[2 * (i + 1)]);
                        assert(2 * i + 2 < s.len());
                    } else {
                        assert(2 * i + 2 >= s.len());
                    }
                }
                assert(f[m + i] == daub_h16(s, i));
                assert(daub_b16(f, i) == s[2 * i + 1]);
            }
        }
        assert(Daub53.idwt1_spec(Daub53.dwt1_spec(s)) =~= s);
    }
}

/// The lossy Daubechies-5/3 kernel at 8 bits: the same lifting pair,
/// computed wide, but the high band passes through the dead-zone compander
/// (threshold 64, ratio 3) and both bands clamp into 8 bits, deliberately
/// discarding information.
pub struct LossyDaub53;

/// High coefficient `i` of the lossy forward transform, before companding.
pub open spec fn lossy_h(s: Seq<i8>, i: int) -> int {
    s[2 * i + 1] - div_trunc(s[2 * i] + daub_c8(s, i), 2)
}

/// The pre-companding high coefficient preceding pair `i`.
pub open spec fn lossy_hprev(s: Seq<i8>, i: int) -> int {
    if i == 0 {
        0int
    } else {
        lossy_h(s, i - 1)
    }
}

/// Low coefficient `i` of the lossy forward transform, before clamping.
pub open spec fn lossy_l(s: Seq<i8>, i: int) -> int {
    s[2 * i] + div_trunc(lossy_hprev(s, i) + lossy_h(s, i), 4)
}

/// The whole lossy forward transform: clamped low coefficients first,
/// companded and clamped high coefficients second.
pub open spec fn lossy_fwd(s: Seq<i8>) -> Seq<i8> {
    let m = (s.len() / 2) as int;
    Seq::new(
        s.len(),
        |t: int|
            if 0 <= t < m {
                clamp_spec(lossy_l(s, t), -128, 127) as i8
            } else if m <= t < 2 * m {
                clamp_spec(scale_down_spec(lossy_h(s, t - m), 64, 3), -128, 127) as i8
            } else {
                s[t]
            },
    )
}

/// High coefficient `i` decoded back through the compander.
pub open spec fn lossy_hdec(s: Seq<i8>, i: int) -> int {
    let m = (s.len() / 2) as int;
    scale_up_spec(s[m + i] as int, 64, 3)
}

/// The decoded high coefficient preceding pair `i`, zero before the first.
pub open spec fn lossy_h0dec(s: Seq<i8>, i: int) -> int {
    let m = (s.len() / 2) as int;
    if i == 0 {
        0int
    } else {
        scale_up_spec(s[m + i - 1] as int, 64, 3)
    }
}

/// Even sample `i` reconstructed by the lossy inverse, before clamping.
pub open spec fn lossy_a(s: Seq<i8>, i: int) -> int {
    s[i] - div_trunc(lossy_hdec(s, i) + lossy_h0dec(s, i), 4)
}

/// The unclamped reconstructed even neighbor used to undo prediction.
pub open spec fn lossy_ca(s: Seq<i8>, i: int) -> int {
    let m = (s.len() / 2) as int;
    if i + 1 < m {
        lossy_a(s, i + 1)
    } else {
        lossy_a(s, i)
    }
}

/// Odd sample `i` reconstructed by the lossy inverse, before clamping.
pub open spec fn lossy_b(s: Seq<i8>, i: int) -> int {
    lossy_hdec(s, i) + div_trunc(lossy_a(s, i) + lossy_ca(s, i), 2)
}

/// Element `t` of the lossy inverse transform within the paired region.
pub open spec fn lossy_inv_at(s: Seq<i8>, t: int) -> i8 {
    if t % 2 == 0 {
        clamp_spec(lossy_a(s, t / 2), -128, 127) as i8
    } else {
        clamp_spec(lossy_b(s, t / 2), -128, 127) as i8
    }
}

/// The whole lossy inverse transform, clamped into 8 bits.
pub open spec fn lossy_inv(s: Seq<i8>) -> Seq<i8> {
    let m = (s.len() / 2) as int;
    Seq::new(
        s.len(),
        |t: int|
            if 0 <= t < 2 * m {
                lossy_inv_at(s, t)
            } else {
                s[t]
            },
    )
}

/// Every pre-companding high coefficient fits comfortably wide.
proof fn lemma_lossy_h_bounds(s: Seq<i8>, i: int)
    requires
        0 <= 2 * i + 1 < s.len(),
    ensures
        -255 <= lossy_h(s, i) <= 255,
{
    crate::dwt::lemma_div_trunc_bounds(s[2 * i] + daub_c8(s, i), 2);
}

impl Dwt1<i8> for LossyDaub53 {
    open spec fn dwt1_spec(&self, s: Seq<i8>) -> Seq<i8> {
        lossy_fwd(s)
    }

    open spec fn idwt1_spec(&self, s: Seq<i8>) -> Seq<i8> {
        lossy_inv(s)
    }

    proof fn lemma_dwt1_spec_len(&self, s: Seq<i8>) {
    }

    fn dwt1(&self, sig: &Strided, sbuf: &mut Vec<i8>, tmp: &Strided, tbuf: &mut Vec<i8>) {
        let ghost s0 = sig.seq1(old(sbuf)@);
        let n = sig.len();
        let m = n / 2;
        crate::dwt::copy_view(sig, sbuf, tmp, tbuf);
        let (dst1, dst2) = sig.split_at_mut(m);
        proof {
            assert(tmp.seq1(tbuf@) == s0);
            assert forall|t: int| 0 <= t < dst1.len_of(0) implies 0 <= #[trigger] dst1.pos1(t)
                < sbuf@.len() by {
                assert(dst1.pos1(t) == sig.pos1(t));
            }
            assert forall|t: int| 0 <= t < dst2.len_of(0) implies 0 <= #[trigger] dst2.pos1(t)
                < sbuf@.len() by {
                assert(dst2.pos1(t) == sig.pos1(m + t));
            }
        }
        let mut h0: i16 = 0;
        let mut j: usize = 0;
        while j < m
            invariant
                sig.wf1(sbuf@.len() as int),
                sig.inj1(),
                tmp.wf1(tbuf@.len() as int),
                n == sig.len_of(0),
                n == tmp.len_of(0),
                m == n as int / 2,
                j <= m,
                2 * m <= n,
                sbuf@.len() == old(sbuf)@.len(),
                tbuf@.len() == old(tbuf)@.len(),
                s0 == sig.seq1(old(sbuf)@),
                s0.len() == n,
                tmp.seq1(tbuf@) == s0,
                dst1.len_of(0) == m && dst2.len_of(0) == n - m,
                dst1.wf1(sbuf@.len() as int),
                dst2.wf1(sbuf@.len() as int),
                forall|t: int| 0 <= t < m ==> #[trigger] dst1.pos1(t) == sig.pos1(t),
                forall|t: int| 0 <= t < n - m ==> #[trigger] dst2.pos1(t) == sig.pos1(m + t),
                h0 as int == lossy_hprev(s0, j as int),
                -255 <= h0 <= 255,
                forall|t: int|
                    0 <= t < n ==> sbuf@[#[trigger] sig.pos1(t)] == (if t < j {
                        clamp_spec(lossy_l(s0, t), -128, 127) as i8
                    } else if m <= t < m + j {
                        clamp_spec(scale_down_spec(lossy_h(s0, t - m), 64, 3), -128, 127) as i8
                    } else {
                        s0[t]
                    }),
                forall|p: int|
                    0 <= p < old(sbuf)@.len() && !sig.covers1(p) ==> sbuf@[p] == old(sbuf)@[p],
                forall|p: int|
                    0 <= p < old(tbuf)@.len() && !tmp.covers1(p) ==> tbuf@[p] == old(tbuf)@[p],
            decreases m - j,
        {
            proof {
                assert(2 * j + 1 < n) by (nonlinear_arith)
                    requires
                        j < m,
                        m == n as int / 2,
                        2 * m <= n,
                ;
                assert(tmp.seq1(tbuf@)[2 * j] == s0[2 * j]);
                assert(tmp.seq1(tbuf@)[2 * j + 1] == s0[2 * j + 1]);
            }
            let av = tmp.get(tbuf, 2 * j);
            let bv = tmp.get(tbuf, 2 * j + 1);
            let cv = match tmp.checked_get(tbuf, 2 * j + 2) {
                Some(v) => v,
                None => av,
            };
            proof {
                assert(cv == daub_c8(s0, j as int));
                crate::dwt::lemma_div_trunc_bounds(av as int + cv as int, 2);
            }
            let hv16: i16 = (bv as i16) - div_trunc_i16((av as i16) + (cv as i16), 2);
            proof {
                assert(hv16 as int == lossy_h(s0, j as int));
                crate::dwt::lemma_div_trunc_bounds(h0 as int + hv16 as int, 4);
            }
            let lv16: i16 = (av as i16) + div_trunc_i16(h0 + hv16, 4);
            let henc = crate::dwt::clamp_i16(encode(hv16), -128, 127) as i8;
            let lcl = crate::dwt::clamp_i16(lv16, -128, 127) as i8;
            proof {
                assert(lv16 as int == lossy_l(s0, j as int));
                assert(henc as int == clamp_spec(
                    scale_down_spec(lossy_h(s0, j as int), 64, 3),
                    -128,
                    127,
                ));
                assert(lcl as int == clamp_spec(lossy_l(s0, j as int), -128, 127));
            }
            let ghost sbuf_pre = sbuf@;
            dst1.store(sbuf, j, lcl);
            dst2.store(sbuf, j, henc);
            proof {
                assert forall|t: int| 0 <= t < n implies sbuf@[#[trigger] sig.pos1(t)] == (if t < j
                    + 1 {
                    clamp_spec(lossy_l(s0, t), -128, 127) as i8
                } else if m <= t < m + j + 1 {
                    clamp_spec(scale_down_spec(lossy_h(s0, t - m), 64, 3), -128, 127) as i8
                } else {
                    s0[t]
                }) by {
                    if t == j {
                        assert(sig.pos1(j as int) != sig.pos1(m + j));
                        assert(sbuf@[sig.pos1(t)] == lcl);
                    } else if t == m + j {
                        assert(sbuf@[sig.pos1(t)] == henc);
                    } else {
                        assert(sig.pos1(t) != sig.pos1(j as int));
                        assert(sig.pos1(t) != sig.pos1(m + j));
                        assert(sbuf@[sig.pos1(t)] == sbuf_pre[sig.pos1(t)]);
                    }
                }
                assert forall|p: int|
                    0 <= p < old(sbuf)@.len() && !sig.covers1(p) implies sbuf@[p] == old(
                    sbuf,
                )@[p] by {
                    assert(p != sig.pos1(j as int));
                    assert(p != sig.pos1(m + j));
                }
            }
            h0 = hv16;
            j += 1;
        }
        proof {
            assert forall|t: int| 0 <= t < n implies sig.seq1(sbuf@)[t] == lossy_fwd(s0)[t] by {
                if t >= 2 * (m as int) {
                    assert(sbuf@[sig.pos1(t)] == s0[t]);
                }
            }
            assert(sig.seq1(final(sbuf)@) =~= lossy_fwd(s0));
        }
    }

    #[verifier::rlimit(100)]
    #[verifier::spinoff_prover]
    fn idwt1(&self, sig: &Strided, sbuf: &mut Vec<i8>, tmp: &Strided, tbuf: &mut Vec<i8>) {
        let ghost s0 = sig.seq1(old(sbuf)@);
        let n = sig.len();
        let m = n / 2;
        crate::dwt::copy_view(sig, sbuf, tmp, tbuf);
        let dsts = sig.deinterleave_array_mut(2);
        let dst1 = dsts[0];
        let dst2 = dsts[1];
        proof {
            assert(tmp.seq1(tbuf@) == s0);
            vstd::arithmetic::div_mod::lemma_fundamental_div_mod(n as int, 2);
            assert(dst1.len_of(0) >= m && dst2.len_of(0) == m);
            assert forall|t: int| 0 <= t < dst1.len_of(0) implies 0 <= #[trigger] dst1.pos1(t)
                < sbuf@.len() by {
                assert(dst1.pos1(t) == sig.pos1(crate::strided::deint_index_spec(2, 0, t)));
            }
            assert forall|t: int| 0 <= t < dst2.len_of(0) implies 0 <= #[trigger] dst2.pos1(t)
                < sbuf@.len() by {
                assert(dst2.pos1(t) == sig.pos1(crate::strided::deint_index_spec(2, 1, t)));
            }
        }
        let mut aprev: i16 = 0;
        let mut idx: usize = m;
        while idx > 0
            invariant
                sig.wf1(sbuf@.len() as int),
                sig.inj1(),
                tmp.wf1(tbuf@.len() as int),
                n == sig.len_of(0),
                n == tmp.len_of(0),
                m == n as int / 2,
                idx <= m,
                2 * m <= n,
                sbuf@.len() == old(sbuf)@.len(),
                tbuf@.len() == old(tbuf)@.len(),
                s0 == sig.seq1(old(sbuf)@),
                s0.len() == n,
                tmp.seq1(tbuf@) == s0,
                dst1.len_of(0) >= m,
                dst2.len_of(0) == m,
                dst1.wf1(sbuf@.len() as int),
                dst2.wf1(sbuf@.len() as int),
                forall|t: int|
                    0 <= t < dst1.len_of(0) ==> #[trigger] dst1.pos1(t) == sig.pos1(2 * t),
                forall|t: int|
                    0 <= t < dst2.len_of(0) ==> #[trigger] dst2.pos1(t) == sig.pos1(2 * t + 1),
                idx < m ==> aprev as int == lossy_a(s0, idx as int),
                -254 <= aprev <= 255,
                forall|t: int|
                    0 <= t < n ==> sbuf@[#[trigger] sig.pos1(t)] == (if 2 * idx <= t < 2 * m {
                        lossy_inv_at(s0, t)
                    } else {
                        s0[t]
                    }),
                forall|p: int|
                    0 <= p < old(sbuf)@.len() && !sig.covers1(p) ==> sbuf@[p] == old(sbuf)@[p],
                forall|p: int|
                    0 <= p < old(tbuf)@.len() && !tmp.covers1(p) ==> tbuf@[p] == old(tbuf)@[p],
            decreases idx,
        {
            let i = idx - 1;
            proof {
                assert(m + i < n);
                assert(tmp.seq1(tbuf@)[i as int] == s0[i as int]);
                assert(tmp.seq1(tbuf@)[m + i] == s0[m + i]);
            }
            let lv = tmp.get(tbuf, i);
            let hv = tmp.get(tbuf, m + i);
            let h0v: i8 = if i == 0 {
                0
            } else {
                proof {
                    assert(tmp.seq1(tbuf@)[m + i - 1] == s0[m + i - 1]);
                }
                tmp.get(tbuf, m + i - 1)
            };
            let hdec: i16 = decode(hv as i16);
            let h0dec: i16 = if i == 0 {
                0
            } else {
                decode(h0v as i16)
            };
            proof {
                assert(hdec as int == lossy_hdec(s0, i as int));
                assert(h0dec as int == lossy_h0dec(s0, i as int));
                assert(-256 <= hdec <= 253 && -256 <= h0dec <= 253);
                crate::dwt::lemma_div_trunc_bounds(hdec as int + h0dec as int, 4);
            }
            let av16: i16 = (lv as i16) - div_trunc_i16(hdec + h0dec, 4);
            let cuse: i16 = if i + 1 < m {
                aprev
            } else {
                av16
            };
            proof {
                assert(av16 as int == lossy_a(s0, i as int));
                assert(cuse as int == lossy_ca(s0, i as int));
                crate::dwt::lemma_div_trunc_bounds(av16 as int + cuse as int, 2);
            }
            let bv16: i16 = hdec + div_trunc_i16(av16 + cuse, 2);
            let acl = crate::dwt::clamp_i16(av16, -128, 127) as i8;
            let bcl = crate::dwt::clamp_i16(bv16, -128, 127) as i8;
            proof {
                assert(bv16 as int == lossy_b(s0, i as int));
                assert(acl as int == clamp_spec(lossy_a(s0, i as int), -128, 127));
                assert(bcl as int == clamp_spec(lossy_b(s0, i as int), -128, 127));
            }
            let ghost sbuf_pre = sbuf@;
            dst1.store(sbuf, i, acl);
            dst2.store(sbuf, i, bcl);
            proof {
                assert forall|t: int| 0 <= t < n implies sbuf@[#[trigger] sig.pos1(t)] == (if 2 * (
                idx - 1) <= t < 2 * m {
                    lossy_inv_at(s0, t)
                } else {
                    s0[t]
                }) by {
                    if t == 2 * i {
                        assert(sig.pos1(2 * i) != sig.pos1(2 * i + 1));
                        assert(sbuf@[sig.pos1(t)] == acl);
                        assert(t % 2 == 0 && t / 2 == i) by (nonlinear_arith)
                            requires
                                t == 2 * i,
                                i >= 0,
                        ;
                    } else if t == 2 * i + 1 {
                        assert(sbuf@[sig.pos1(t)] == bcl);
                        assert(t % 2 == 1 && t / 2 == i) by (nonlinear_arith)
                            requires
                                t == 2 * i + 1,
                                i >= 0,
                        ;
                    } else {
                        assert(sig.pos1(t) != sig.pos1(2 * i));
                        assert(sig.pos1(t) != sig.pos1(2 * i + 1));
                        assert(sbuf@[sig.pos1(t)] == sbuf_pre[sig.pos1(t)]);
                    }
                }
                assert forall|p: int|
                    0 <= p < old(sbuf)@.len() && !sig.covers1(p) implies sbuf@[p] == old(
                    sbuf,
                )@[p] by {
                    assert(p != sig.pos1(2 * i));
                    assert(p != sig.pos1(2 * i + 1));
                }
            }
            aprev = av16;
            idx = i;
        }
        proof {
            assert forall|t: int| 0 <= t < n implies sig.seq1(sbuf@)[t] == lossy_inv(s0)[t] by {
                if t >= 2 * (m as int) {
                    assert(sbuf@[sig.pos1(t)] == s0[t]);
                }
            }
            assert(sig.seq1(final(sbuf)@) =~= lossy_inv(s0));
        }
    }
}

/// Dead-zone compander, encode direction: values within `[-t, t]` pass
/// unchanged; values outside have their distance to the dead zone divided
/// by `n` (truncating), compressing dynamic range before narrowing.
pub open spec fn scale_down_spec(x: int, t: int, n: int) -> int {
    if x < -t {
        div_trunc(x + t, n) - t
    } else if x > t {
        div_trunc(x - t, n) + t
    } else {
        x
    }
}

/// Dead-zone compander, decode direction: the mirror of `scale_down_spec`,
/// multiplying the distance to the dead zone back up.
pub open spec fn scale_up_spec(x: int, t: int, n: int) -> int {
    if x < -t {
        (x + t) * n - t
    } else if x > t {
        (x - t) * n + t
    } else {
        x
    }
}

/// Encode direction of the dead-zone compander with threshold `t` and
/// ratio `n`.
pub fn scale_down(x: i16, t: i16, n: i16) -> (r: i16)
    requires
        t >= 0,
        n >= 1,
    ensures
        r as int == scale_down_spec(x as int, t as int, n as int),
{
    if x < -t {
        proof {
            crate::dwt::lemma_div_trunc_bounds(x as int + t as int, n as int);
        }
        div_trunc_i16(x + t, n) - t
    } else if x > t {
        proof {
            crate::dwt::lemma_div_trunc_bounds(x as int - t as int, n as int);
        }
        div_trunc_i16(x - t, n) + t
    } else {
        x
    }
}

/// Decode direction of the dead-zone compander with threshold `t` and
/// ratio `n`. The expanded value must fit the machine word.
pub fn scale_up(x: i16, t: i16, n: i16) -> (r: i16)
    requires
        t >= 0,
        n >= 1,
        x < -t ==> (x + t) * n - t >= i16::MIN as int,
        x > t ==> (x - t) * n + t <= i16::MAX as int,
    ensures
        r as int == scale_up_spec(x as int, t as int, n as int),
{
    if x < -t {
        proof {
            assert((x + t) * n <= x + t) by (nonlinear_arith)
                requires
                    x + t < 0,
                    n >= 1,
            ;
        }
        (x + t) * n - t
    } else if x > t {
        proof {
            assert((x - t) * n >= x - t) by (nonlinear_arith)
                requires
                    x - t > 0,
                    n >= 1,
            ;
        }
        (x - t) * n + t
    } else {
        x
    }
}

/// The fixed compander the lossy kernel stores its high band through:
/// threshold 64, ratio 3.
pub fn encode(x: i16) -> (r: i16)
    ensures
        r as int == scale_down_spec(x as int, 64, 3),
{
    scale_down(x, 64, 3)
}

/// The inverse of `encode`. Defined for inputs whose expansion fits the
/// machine word, which every encoded value satisfies.
pub fn decode(x: i16) -> (r: i16)
    requires
        x < -64 ==> (x + 64) * 3 - 64 >= i16::MIN as int,
        x > 64 ==> (x - 64) * 3 + 64 <= i16::MAX as int,
    ensures
        r as int == scale_up_spec(x as int, 64, 3),
{
    scale_up(x, 64, 3)
}

/// A compander variant that maps the whole dead zone to zero: values
/// within `[-t, t]` contract to nothing, values outside keep only their
/// scaled distance to the zone.
pub fn contract(x: i16, t: i16, n: i16) -> (r: i16)
    requires
        t >= 0,
        n >= 1,
    ensures
        x < -t ==> r as int == div_trunc(x as int + t as int, n as int),
        x > t ==> r as int == div_trunc(x as int - t as int, n as int),
        -t <= x <= t ==> r == 0,
{
    if x < -t {
        proof {
            crate::dwt::lemma_div_trunc_bounds(x as int + t as int, n as int);
        }
        div_trunc_i16(x + t, n)
    } else if x > t {
        proof {
            crate::dwt::lemma_div_trunc_bounds(x as int - t as int, n as int);
        }
        div_trunc_i16(x - t, n)
    } else {
        0
    }
}

/// The mirror of `contract`: a nonzero scaled distance is expanded and
/// pushed back out past the dead zone.
pub fn expand(x: i16, t: i16, n: i16) -> (r: i16)
    requires
        t >= 0,
        n >= 1,
        x < 0 ==> x * n - t >= i16::MIN as int,
        x > 0 ==> x * n + t <= i16::MAX as int,
    ensures
        x < 0 ==> r as int == x * n - t,
        x > 0 ==> r as int == x * n + t,
        x == 0 ==> r == 0,
{
    if x < 0 {
        proof {
            assert(x * n <= x) by (nonlinear_arith)
                requires
                    x < 0,
                    n >= 1,
            ;
            assert(x * n < 0) by (nonlinear_arith)
                requires
                    x < 0,
                    n >= 1,
            ;
        }
        x * n - t
    } else if x > 0 {
        proof {
            assert(x * n >= x) by (nonlinear_arith)
                requires
                    x > 0,
                    n >= 1,
            ;
            assert(x * n > 0) by (nonlinear_arith)
                requires
                    x > 0,
                    n >= 1,
            ;
        }
        x * n + t
    } else {
        0
    }
}

/// Lossy-path error bound: decoding an encoded value lands within `n - 1`
/// of the input — the information the truncating division discards, and
/// well within the documented `t * (n - 1) / n` envelope whenever the
/// threshold is at least the ratio. Never unbounded.
pub proof fn lemma_compander_bound(x: int, t: int, n: int)
    requires
        t >= 0,
        n >= 1,
    ensures
        -(n - 1) <= scale_up_spec(scale_down_spec(x, t, n), t, n) - x <= n - 1,
{
    if x > t {
        let a = x - t;
        vstd::arithmetic::div_mod::lemma_fundamental_div_mod(a, n);
        vstd::arithmetic::div_mod::lemma_div_pos_is_pos(a, n);
        let q = a / n;
        assert(div_trunc(a, n) == q);
        let y = q + t;
        assert(scale_down_spec(x, t, n) == y);
        if y > t {
            assert(scale_up_spec(y, t, n) == q * n + t);
            assert(q * n == n * q) by (nonlinear_arith);
        } else {
            assert(q == 0);
            assert(scale_up_spec(y, t, n) == t);
            assert(n * q == 0) by (nonlinear_arith)
                requires
                    q == 0,
            ;
        }
    } else if x < -t {
        let a = -x - t;
        vstd::arithmetic::div_mod::lemma_fundamental_div_mod(a, n);
        vstd::arithmetic::div_mod::lemma_div_pos_is_pos(a, n);
        let q = a / n;
        assert(x + t == -a);
        assert(div_trunc(x + t, n) == -q);
        let y = -q - t;
        assert(scale_down_spec(x, t, n) == y);
        if y < -t {
            assert(scale_up_spec(y, t, n) == (-q) * n - t);
            assert((-q) * n == -(n * q)) by (nonlinear_arith);
        } else {
            assert(q == 0);
            assert(scale_up_spec(y, t, n) == y);
            assert(n * q == 0) by (nonlinear_arith)
                requires
                    q == 0,
            ;
        }
    }
}

} // verus!

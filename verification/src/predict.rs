//! A refinement decorator over any one-dimensional transform: after the
//! base forward pass, each high coefficient is nudged by a fixed quadratic
//! combination of its two nearest low-pass neighbors (with boundary
//! clamping), and the inverse subtracts the identical nudge before undoing
//! the base transform — so the decoration is exactly invertible whenever
//! the base transform is.

use crate::dwt::div_trunc;
use crate::dwt::div_trunc_i16;
use crate::dwt::seq_roundtrip1;
use crate::dwt::Dwt1;
use crate::strided::Strided;
use vstd::prelude::*;

verus! {

/// Wraps a one-dimensional transform with the neighbor-based high-band
/// refinement. Defined for empty signals and signals of at least four
/// elements, so that every high coefficient has two in-range low-pass
/// neighbors to clamp to.
pub struct Predict<A>(pub A);

/// The nudge applied to high coefficient `i`: a fixed quadratic
/// combination of the low-pass neighbors at `i - 1` and `i + 1`, the index
/// clamped into the low half at the ends.
pub open spec fn predict_adj16(g: Seq<i16>, i: int) -> i16 {
    let m = (g.len() / 2) as int;
    let prev = g[if i >= 1 {
        i - 1
    } else {
        0
    }];
    let next = g[if i <= m - 2 {
        i + 1
    } else {
        m - 1
    }];
    div_trunc((2i16).wrapping_add(prev).wrapping_sub(next) as int, 4) as i16
}

/// The high half of `g` nudged forward; the rest untouched.
pub open spec fn predict_apply16(g: Seq<i16>) -> Seq<i16> {
    let m = (g.len() / 2) as int;
    Seq::new(
        g.len(),
        |t: int|
            if m <= t < 2 * m {
                g[t].wrapping_add(predict_adj16(g, t - m))
            } else {
                g[t]
            },
    )
}

/// The high half of `g` nudged backward; the exact mirror of
/// `predict_apply16`.
pub open spec fn predict_unapply16(g: Seq<i16>) -> Seq<i16> {
    let m = (g.len() / 2) as int;
    Seq::new(
        g.len(),
        |t: int|
            if m <= t < 2 * m {
                g[t].wrapping_sub(predict_adj16(g, t - m))
            } else {
                g[t]
            },
    )
}

impl<A: Dwt1<i16>> Dwt1<i16> for Predict<A> {
    open spec fn valid_len(&self, n: int) -> bool {
        (n == 0 || n >= 4) && self.0.valid_len(n)
    }

    open spec fn dwt1_spec(&self, s: Seq<i16>) -> Seq<i16> {
        predict_apply16(self.0.dwt1_spec(s))
    }

    open spec fn idwt1_spec(&self, s: Seq<i16>) -> Seq<i16> {
        self.0.idwt1_spec(predict_unapply16(s))
    }

    proof fn lemma_dwt1_spec_len(&self, s: Seq<i16>) {
        self.0.lemma_dwt1_spec_len(s);
        self.0.lemma_dwt1_spec_len(predict_unapply16(s));
    }

    fn dwt1(&self, sig: &Strided, sbuf: &mut Vec<i16>, tmp: &Strided, tbuf: &mut Vec<i16>) {
        let ghost s0 = sig.seq1(old(sbuf)@);
        self.0.dwt1(sig, sbuf, tmp, tbuf);
        let ghost g = self.0.dwt1_spec(s0);
        proof {
            self.0.lemma_dwt1_spec_len(s0);
        }
        let n = sig.len();
        let m = n / 2;
        let mut j: usize = 0;
        while j < m
            invariant
                sig.wf1(sbuf@.len() as int),
                sig.inj1(),
                n == sig.len_of(0),
                m == n as int / 2,
                n == 0 || n >= 4,
                j <= m,
                2 * m <= n,
                sbuf@.len() == old(sbuf)@.len(),
                g.len() == n,
                forall|t: int|
                    0 <= t < n ==> sbuf@[#[trigger] sig.pos1(t)] == (if m <= t < m + j {
                        g[t].wrapping_add(predict_adj16(g, t - m))
                    } else {
                        g[t]
                    }),
                forall|p: int|
                    0 <= p < old(sbuf)@.len() && !sig.covers1(p) ==> sbuf@[p] == old(sbuf)@[p],
            decreases m - j,
        {
            let pi: usize = if j >= 1 {
                j - 1
            } else {
                0
            };
            let ni: usize = if j + 2 <= m {
                j + 1
            } else {
                m - 1
            };
            proof {
                assert(pi < m && ni < m);
                assert(sbuf@[sig.pos1(pi as int)] == g[pi as int]);
                assert(sbuf@[sig.pos1(ni as int)] == g[ni as int]);
                assert(sbuf@[sig.pos1(m + j)] == g[m + j]);
            }
            let prev = sig.get(sbuf, pi);
            let next = sig.get(sbuf, ni);
            let hv = sig.get(sbuf, m + j);
            let adj = div_trunc_i16((2i16).wrapping_add(prev).wrapping_sub(next), 4);
            proof {
                assert(adj == predict_adj16(g, j as int));
            }
            let ghost sbuf_pre = sbuf@;
            sig.store(sbuf, m + j, hv.wrapping_add(adj));
            proof {
                assert forall|t: int| 0 <= t < n implies sbuf@[#[trigger] sig.pos1(t)] == (if m <= t
                    < m + j + 1 {
                    g[t].wrapping_add(predict_adj16(g, t - m))
                } else {
                    g[t]
                }) by {
                    if t != m + j {
                        assert(sig.pos1(t) != sig.pos1(m + j));
                        assert(sbuf@[sig.pos1(t)] == sbuf_pre[sig.pos1(t)]);
                    }
                }
                assert forall|p: int|
                    0 <= p < old(sbuf)@.len() && !sig.covers1(p) implies sbuf@[p] == old(
                    sbuf,
                )@[p] by {
                    assert(p != sig.pos1(m + j));
                }
            }
            j += 1;
        }
        proof {
            assert forall|t: int| 0 <= t < n implies sig.seq1(sbuf@)[t] == predict_apply16(g)[t] by {
                assert(sbuf@[sig.pos1(t)] == (if m as int <= t < m + m {
                    g[t].wrapping_add(predict_adj16(g, t - m))
                } else {
                    g[t]
                }));
            }
            assert(sig.seq1(final(sbuf)@) =~= predict_apply16(g));
        }
    }

    fn idwt1(&self, sig: &Strided, sbuf: &mut Vec<i16>, tmp: &Strided, tbuf: &mut Vec<i16>) {
        let ghost s0 = sig.seq1(old(sbuf)@);
        let n = sig.len();
        let m = n / 2;
        let mut j: usize = 0;
        while j < m
            invariant
                sig.wf1(sbuf@.len() as int),
                sig.inj1(),
                n == sig.len_of(0),
                m == n as int / 2,
                n == 0 || n >= 4,
                j <= m,
                2 * m <= n,
                sbuf@.len() == old(sbuf)@.len(),
                s0 == sig.seq1(old(sbuf)@),
                s0.len() == n,
                forall|t: int|
                    0 <= t < n ==> sbuf@[#[trigger] sig.pos1(t)] == (if m <= t < m + j {
                        s0[t].wrapping_sub(predict_adj16(s0, t - m))
                    } else {
                        s0[t]
                    }),
                forall|p: int|
                    0 <= p < old(sbuf)@.len() && !sig.covers1(p) ==> sbuf@[p] == old(sbuf)@[p],
            decreases m - j,
        {
            let pi: usize = if j >= 1 {
                j - 1
            } else {
                0
            };
            let ni: usize = if j + 2 <= m {
                j + 1
            } else {
                m - 1
            };
            proof {
                assert(pi < m && ni < m);
                assert(sbuf@[sig.pos1(pi as int)] == s0[pi as int]);
                assert(sbuf@[sig.pos1(ni as int)] == s0[ni as int]);
                assert(sbuf@[sig.pos1(m + j)] == s0[m + j]);
            }
            let prev = sig.get(sbuf, pi);
            let next = sig.get(sbuf, ni);
            let hv = sig.get(sbuf, m + j);
            let adj = div_trunc_i16((2i16).wrapping_add(prev).wrapping_sub(next), 4);
            proof {
                assert(adj == predict_adj16(s0, j as int));
            }
            let ghost sbuf_pre = sbuf@;
            sig.store(sbuf, m + j, hv.wrapping_sub(adj));
            proof {
                assert forall|t: int| 0 <= t < n implies sbuf@[#[trigger] sig.pos1(t)] == (if m <= t
                    < m + j + 1 {
                    s0[t].wrapping_sub(predict_adj16(s0, t - m))
                } else {
                    s0[t]
                }) by {
                    if t != m + j {
                        assert(sig.pos1(t) != sig.pos1(m + j));
                        assert(sbuf@[sig.pos1(t)] == sbuf_pre[sig.pos1(t)]);
                    }
                }
                assert forall|p: int|
                    0 <= p < old(sbuf)@.len() && !sig.covers1(p) implies sbuf@[p] == old(
                    sbuf,
                )@[p] by {
                    assert(p != sig.pos1(m + j));
                }
            }
            j += 1;
        }
        proof {
            assert forall|t: int| 0 <= t < n implies sig.seq1(sbuf@)[t] == predict_unapply16(
                s0,
            )[t] by {
                assert(sbuf@[sig.pos1(t)] == (if m as int <= t < m + m {
                    s0[t].wrapping_sub(predict_adj16(s0, t - m))
                } else {
                    s0[t]
                }));
            }
            assert(sig.seq1(sbuf@) =~= predict_unapply16(s0));
        }
        self.0.idwt1(sig, sbuf, tmp, tbuf);
        proof {
            assert(sig.seq1(final(sbuf)@) == self.0.idwt1_spec(predict_unapply16(s0)));
        }
    }
}

/// The nudge applied to high coefficient `i` at 8 bits; computed wide,
/// where it cannot overflow, and narrowed back.
pub open spec fn predict_adj8(g: Seq<i8>, i: int) -> i8 {
    let m = (g.len() / 2) as int;
    let prev = g[if i >= 1 {
        i - 1
    } else {
        0
    }];
    let next = g[if i <= m - 2 {
        i + 1
    } else {
        m - 1
    }];
    div_trunc(2 + prev - next, 4) as i8
}

/// The high half of `g` nudged forward at 8 bits.
pub open spec fn predict_apply8(g: Seq<i8>) -> Seq<i8> {
    let m = (g.len() / 2) as int;
    Seq::new(
        g.len(),
        |t: int|
            if m <= t < 2 * m {
                g[t].wrapping_add(predict_adj8(g, t - m))
            } else {
                g[t]
            },
    )
}

/// The high half of `g` nudged backward at 8 bits.
pub open spec fn predict_unapply8(g: Seq<i8>) -> Seq<i8> {
    let m = (g.len() / 2) as int;
    Seq::new(
        g.len(),
        |t: int|
            if m <= t < 2 * m {
                g[t].wrapping_sub(predict_adj8(g, t - m))
            } else {
                g[t]
            },
    )
}

impl<A: Dwt1<i8>> Dwt1<i8> for Predict<A> {
    open spec fn valid_len(&self, n: int) -> bool {
        (n == 0 || n >= 4) && self.0.valid_len(n)
    }

    open spec fn dwt1_spec(&self, s: Seq<i8>) -> Seq<i8> {
        predict_apply8(self.0.dwt1_spec(s))
    }

    open spec fn idwt1_spec(&self, s: Seq<i8>) -> Seq<i8> {
        self.0.idwt1_spec(predict_unapply8(s))
    }

    proof fn lemma_dwt1_spec_len(&self, s: Seq<i8>) {
        self.0.lemma_dwt1_spec_len(s);
        self.0.lemma_dwt1_spec_len(predict_unapply8(s));
    }

    fn dwt1(&self, sig: &Strided, sbuf: &mut Vec<i8>, tmp: &Strided, tbuf: &mut Vec<i8>) {
        let ghost s0 = sig.seq1(old(sbuf)@);
        self.0.dwt1(sig, sbuf, tmp, tbuf);
        let ghost g = self.0.dwt1_spec(s0);
        proof {
            self.0.lemma_dwt1_spec_len(s0);
        }
        let n = sig.len();
        let m = n / 2;
        let mut j: usize = 0;
        while j < m
            invariant
                sig.wf1(sbuf@.len() as int),
                sig.inj1(),
                n == sig.len_of(0),
                m == n as int / 2,
                n == 0 || n >= 4,
                j <= m,
                2 * m <= n,
                sbuf@.len() == old(sbuf)@.len(),
                g.len() == n,
                forall|t: int|
                    0 <= t < n ==> sbuf@[#[trigger] sig.pos1(t)] == (if m <= t < m + j {
                        g[t].wrapping_add(predict_adj8(g, t - m))
                    } else {
                        g[t]
                    }),
                forall|p: int|
                    0 <= p < old(sbuf)@.len() && !sig.covers1(p) ==> sbuf@[p] == old(sbuf)@[p],
            decreases m - j,
        {
            let pi: usize = if j >= 1 {
                j - 1
            } else {
                0
            };
            let ni: usize = if j + 2 <= m {
                j + 1
            } else {
                m - 1
            };
            proof {
                assert(pi < m && ni < m);
                assert(sbuf@[sig.pos1(pi as int)] == g[pi as int]);
                assert(sbuf@[sig.pos1(ni as int)] == g[ni as int]);
                assert(sbuf@[sig.pos1(m + j)] == g[m + j]);
            }
            let prev = sig.get(sbuf, pi);
            let next = sig.get(sbuf, ni);
            let hv = sig.get(sbuf, m + j);
            let adj = div_trunc_i16(2i16 + (prev as i16) - (next as i16), 4);
            proof {
                crate::dwt::lemma_div_trunc_bounds(2 + prev as int - next as int, 4);
                assert(adj as i8 == predict_adj8(g, j as int));
            }
            let ghost sbuf_pre = sbuf@;
            sig.store(sbuf, m + j, hv.wrapping_add(adj as i8));
            proof {
                assert forall|t: int| 0 <= t < n implies sbuf@[#[trigger] sig.pos1(t)] == (if m <= t
                    < m + j + 1 {
                    g[t].wrapping_add(predict_adj8(g, t - m))
                } else {
                    g[t]
                }) by {
                    if t != m + j {
                        assert(sig.pos1(t) != sig.pos1(m + j));
                        assert(sbuf@[sig.pos1(t)] == sbuf_pre[sig.pos1(t)]);
                    }
                }
                assert forall|p: int|
                    0 <= p < old(sbuf)@.len() && !sig.covers1(p) implies sbuf@[p] == old(
                    sbuf,
                )@[p] by {
                    assert(p != sig.pos1(m + j));
                }
            }
            j += 1;
        }
        proof {
            assert forall|t: int| 0 <= t < n implies sig.seq1(sbuf@)[t] == predict_apply8(g)[t] by {
                assert(sbuf@[sig.pos1(t)] == (if m as int <= t < m + m {
                    g[t].wrapping_add(predict_adj8(g, t - m))
                } else {
                    g[t]
                }));
            }
            assert(sig.seq1(final(sbuf)@) =~= predict_apply8(g));
        }
    }

    fn idwt1(&self, sig: &Strided, sbuf: &mut Vec<i8>, tmp: &Strided, tbuf: &mut Vec<i8>) {
        let ghost s0 = sig.seq1(old(sbuf)@);
        let n = sig.len();
        let m = n / 2;
        let mut j: usize = 0;
        while j < m
            invariant
                sig.wf1(sbuf@.len() as int),
                sig.inj1(),
                n == sig.len_of(0),
                m == n as int / 2,
                n == 0 || n >= 4,
                j <= m,
                2 * m <= n,
                sbuf@.len() == old(sbuf)@.len(),
                s0 == sig.seq1(old(sbuf)@),
                s0.len() == n,
                forall|t: int|
                    0 <= t < n ==> sbuf@[#[trigger] sig.pos1(t)] == (if m <= t < m + j {
                        s0[t].wrapping_sub(predict_adj8(s0, t - m))
                    } else {
                        s0[t]
                    }),
                forall|p: int|
                    0 <= p < old(sbuf)@.len() && !sig.covers1(p) ==> sbuf@[p] == old(sbuf)@[p],
            decreases m - j,
        {
            let pi: usize = if j >= 1 {
                j - 1
            } else {
                0
            };
            let ni: usize = if j + 2 <= m {
                j + 1
            } else {
                m - 1
            };
            proof {
                assert(pi < m && ni < m);
                assert(sbuf@[sig.pos1(pi as int)] == s0[pi as int]);
                assert(sbuf@[sig.pos1(ni as int)] == s0[ni as int]);
                assert(sbuf@[sig.pos1(m + j)] == s0[m + j]);
            }
            let prev = sig.get(sbuf, pi);
            let next = sig.get(sbuf, ni);
            let hv = sig.get(sbuf, m + j);
            let adj = div_trunc_i16(2i16 + (prev as i16) - (next as i16), 4);
            proof {
                crate::dwt::lemma_div_trunc_bounds(2 + prev as int - next as int, 4);
                assert(adj as i8 == predict_adj8(s0, j as int));
            }
            let ghost sbuf_pre = sbuf@;
            sig.store(sbuf, m + j, hv.wrapping_sub(adj as i8));
            proof {
                assert forall|t: int| 0 <= t < n implies sbuf@[#[trigger] sig.pos1(t)] == (if m <= t
                    < m + j + 1 {
                    s0[t].wrapping_sub(predict_adj8(s0, t - m))
                } else {
                    s0[t]
                }) by {
                    if t != m + j {
                        assert(sig.pos1(t) != sig.pos1(m + j));
                        assert(sbuf@[sig.pos1(t)] == sbuf_pre[sig.pos1(t)]);
                    }
                }
                assert forall|p: int|
                    0 <= p < old(sbuf)@.len() && !sig.covers1(p) implies sbuf@[p] == old(
                    sbuf,
                )@[p] by {
                    assert(p != sig.pos1(m + j));
                }
            }
            j += 1;
        }
        proof {
            assert forall|t: int| 0 <= t < n implies sig.seq1(sbuf@)[t] == predict_unapply8(
                s0,
            )[t] by {
                assert(sbuf@[sig.pos1(t)] == (if m as int <= t < m + m {
                    s0[t].wrapping_sub(predict_adj8(s0, t - m))
                } else {
                    s0[t]
                }));
            }
            assert(sig.seq1(sbuf@) =~= predict_unapply8(s0));
        }
        self.0.idwt1(sig, sbuf, tmp, tbuf);
        proof {
            assert(sig.seq1(final(sbuf)@) == self.0.idwt1_spec(predict_unapply8(s0)));
        }
    }
}

/// Round-trip law for the refinement decorator at 8 bits.
pub proof fn lemma_predict_roundtrip_i8<A: Dwt1<i8>>(a: A)
    requires
        seq_roundtrip1::<i8, A>(a),
    ensures
        seq_roundtrip1::<i8, Predict<A>>(Predict(a)),
{
    let p = Predict(a);
    assert forall|s: Seq<i8>| s.len() % 2 == 0 implies #[trigger] p.idwt1_spec(p.dwt1_spec(s))
        == s by {
        let g = a.dwt1_spec(s);
        a.lemma_dwt1_spec_len(s);
        let f = predict_apply8(g);
        let m = (g.len() / 2) as int;
        assert forall|t: int| 0 <= t < g.len() implies predict_unapply8(f)[t] == g[t] by {
            if m <= t < 2 * m {
                assert(predict_adj8(f, t - m) == predict_adj8(g, t - m)) by {
                    let i = t - m;
                    let pi = if i >= 1 {
                        i - 1
                    } else {
                        0
                    };
                    let ni = if i <= m - 2 {
                        i + 1
                    } else {
                        m - 1
                    };
                    assert(f[pi] == g[pi]);
                    assert(f[ni] == g[ni]);
                }
            }
        }
        assert(predict_unapply8(f) =~= g);
        assert(a.idwt1_spec(g) == s);
    }
}

/// Round-trip law for the refinement decorator: whatever one-dimensional
/// transform it wraps, if that transform inverts itself exactly on
/// even-length sequences, so does its decorated form — the nudge is
/// recomputed from the untouched low half and subtracted exactly.
pub proof fn lemma_predict_roundtrip_i16<A: Dwt1<i16>>(a: A)
    requires
        seq_roundtrip1::<i16, A>(a),
    ensures
        seq_roundtrip1::<i16, Predict<A>>(Predict(a)),
{
    let p = Predict(a);
    assert forall|s: Seq<i16>| s.len() % 2 == 0 implies #[trigger] p.idwt1_spec(p.dwt1_spec(s))
        == s by {
        let g = a.dwt1_spec(s);
        a.lemma_dwt1_spec_len(s);
        let f = predict_apply16(g);
        let m = (g.len() / 2) as int;
        assert forall|t: int| 0 <= t < g.len() implies predict_unapply16(f)[t] == g[t] by {
            if m <= t < 2 * m {
                assert(predict_adj16(f, t - m) == predict_adj16(g, t - m)) by {
                    let i = t - m;
                    let pi = if i >= 1 {
                        i - 1
                    } else {
                        0
                    };
                    let ni = if i <= m - 2 {
                        i + 1
                    } else {
                        m - 1
                    };
                    assert(f[pi] == g[pi]);
                    assert(f[ni] == g[ni]);
                }
            }
        }
        assert(predict_unapply16(f) =~= g);
        assert(a.idwt1_spec(g) == s);
    }
}

} // verus!

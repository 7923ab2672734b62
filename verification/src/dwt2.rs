//! The two-dimensional separable transform: a one-dimensional transform
//! applied to every row, then to every column. The inverse runs the two
//! passes in the opposite order, so the whole grid round-trips whenever
//! the underlying one-dimensional transform does.

use crate::dwt::seq_roundtrip1;
use crate::dwt::Dwt1;
use crate::strided::Strided;
use vstd::prelude::*;

verus! {

/// The width every row of a uniform grid shares.
pub open spec fn grid_width<T>(g: Seq<Seq<T>>) -> int {
    if g.len() == 0 {
        0
    } else {
        g[0].len() as int
    }
}

/// Whether every row of the grid has width `w`.
pub open spec fn grid_uniform<T>(g: Seq<Seq<T>>, w: int) -> bool {
    forall|y: int| 0 <= y < g.len() ==> (#[trigger] g[y]).len() == w
}

/// Column `x` of a grid, read top to bottom.
pub open spec fn grid_col<T>(g: Seq<Seq<T>>, x: int) -> Seq<T> {
    Seq::new(g.len(), |y: int| g[y][x])
}

/// A separable whole-grid transform over two-axis strided views.
pub trait Dwt2<T: Copy> {
    /// The grid shapes the transform accepts.
    spec fn valid2(&self, h: int, w: int) -> bool;

    /// What the forward transform leaves in the image view.
    spec fn dwt2_spec(&self, g: Seq<Seq<T>>) -> Seq<Seq<T>>;

    /// What the inverse transform leaves in the image view.
    spec fn idwt2_spec(&self, g: Seq<Seq<T>>) -> Seq<Seq<T>>;

    /// Both grid transforms preserve the grid's shape.
    proof fn lemma_dwt2_shape(&self, g: Seq<Seq<T>>, h: int, w: int)
        requires
            g.len() == h,
            grid_uniform(g, w),
            w >= 0,
        ensures
            self.dwt2_spec(g).len() == h,
            forall|y: int| 0 <= y < h ==> (#[trigger] self.dwt2_spec(g)[y]).len() == w,
            self.idwt2_spec(g).len() == h,
            forall|y: int| 0 <= y < h ==> (#[trigger] self.idwt2_spec(g)[y]).len() == w,
    ;

    /// Forward transform of the image view in place: every row, then every
    /// column. Touches no buffer cell outside the two views.
    fn dwt2(&self, img: &Strided, ibuf: &mut Vec<T>, tmp: &Strided, tbuf: &mut Vec<T>)
        requires
            img.wf2(old(ibuf)@.len() as int),
            img.inj2(),
            tmp.wf2(old(tbuf)@.len() as int),
            tmp.inj2(),
            img.len_of(0) == tmp.len_of(0),
            img.len_of(1) == tmp.len_of(1),
            self.valid2(img.len_of(0), img.len_of(1)),
        ensures
            final(ibuf)@.len() == old(ibuf)@.len(),
            final(tbuf)@.len() == old(tbuf)@.len(),
            img.grid2(final(ibuf)@) == self.dwt2_spec(img.grid2(old(ibuf)@)),
            forall|p: int|
                0 <= p < old(ibuf)@.len() && !img.covers2(p) ==> final(ibuf)@[p] == old(ibuf)@[p],
            forall|p: int|
                0 <= p < old(tbuf)@.len() && !tmp.covers2(p) ==> final(tbuf)@[p] == old(tbuf)@[p],
    ;

    /// Inverse transform of the image view in place: every column, then
    /// every row — the passes of `dwt2` in the opposite order.
    fn idwt2(&self, img: &Strided, ibuf: &mut Vec<T>, tmp: &Strided, tbuf: &mut Vec<T>)
        requires
            img.wf2(old(ibuf)@.len() as int),
            img.inj2(),
            tmp.wf2(old(tbuf)@.len() as int),
            tmp.inj2(),
            img.len_of(0) == tmp.len_of(0),
            img.len_of(1) == tmp.len_of(1),
            self.valid2(img.len_of(0), img.len_of(1)),
        ensures
            final(ibuf)@.len() == old(ibuf)@.len(),
            final(tbuf)@.len() == old(tbuf)@.len(),
            img.grid2(final(ibuf)@) == self.idwt2_spec(img.grid2(old(ibuf)@)),
            forall|p: int|
                0 <= p < old(ibuf)@.len() && !img.covers2(p) ==> final(ibuf)@[p] == old(ibuf)@[p],
            forall|p: int|
                0 <= p < old(tbuf)@.len() && !tmp.covers2(p) ==> final(tbuf)@[p] == old(tbuf)@[p],
    ;
}

/// The grid after a forward pass over every row.
pub open spec fn rows_fwd<T: Copy, A: Dwt1<T>>(a: A, g: Seq<Seq<T>>) -> Seq<Seq<T>> {
    Seq::new(g.len(), |y: int| a.dwt1_spec(g[y]))
}

/// The grid after a forward pass over every column.
pub open spec fn cols_fwd<T: Copy, A: Dwt1<T>>(a: A, g: Seq<Seq<T>>, w: int) -> Seq<Seq<T>> {
    Seq::new(g.len(), |y: int| Seq::new(w as nat, |x: int| a.dwt1_spec(grid_col(g, x))[y]))
}

/// The grid after an inverse pass over every row.
pub open spec fn rows_inv<T: Copy, A: Dwt1<T>>(a: A, g: Seq<Seq<T>>) -> Seq<Seq<T>> {
    Seq::new(g.len(), |y: int| a.idwt1_spec(g[y]))
}

/// The grid after an inverse pass over every column.
pub open spec fn cols_inv<T: Copy, A: Dwt1<T>>(a: A, g: Seq<Seq<T>>, w: int) -> Seq<Seq<T>> {
    Seq::new(g.len(), |y: int| Seq::new(w as nat, |x: int| a.idwt1_spec(grid_col(g, x))[y]))
}

impl<T: Copy, A: Dwt1<T>> Dwt2<T> for A {
    open spec fn valid2(&self, h: int, w: int) -> bool {
        self.valid_len(w) && self.valid_len(h)
    }

    open spec fn dwt2_spec(&self, g: Seq<Seq<T>>) -> Seq<Seq<T>> {
        cols_fwd(*self, rows_fwd(*self, g), grid_width(g))
    }

    open spec fn idwt2_spec(&self, g: Seq<Seq<T>>) -> Seq<Seq<T>> {
        rows_inv(*self, cols_inv(*self, g, grid_width(g)))
    }

    proof fn lemma_dwt2_shape(&self, g: Seq<Seq<T>>, h: int, w: int) {
        if h > 0 {
            assert(grid_width(g) == w);
            assert forall|y: int| 0 <= y < h implies (#[trigger] self.dwt2_spec(g)[y]).len()
                == w by {}
            assert forall|y: int| 0 <= y < h implies (#[trigger] self.idwt2_spec(g)[y]).len()
                == w by {
                self.lemma_dwt1_spec_len(cols_inv(*self, g, grid_width(g))[y]);
            }
        }
    }

    fn dwt2(&self, img: &Strided, ibuf: &mut Vec<T>, tmp: &Strided, tbuf: &mut Vec<T>) {
        let ghost g0 = img.grid2(old(ibuf)@);
        let h = img.len();
        let w = self::row_len(img);
        row_pass_fwd(self, img, ibuf, tmp, tbuf);
        let ghost r = rows_fwd(*self, g0);
        col_pass_fwd(self, img, ibuf, tmp, tbuf);
        proof {
            let gw = grid_width(g0);
            assert(img.grid2(final(ibuf)@) =~~= cols_fwd(*self, r, gw)) by {
                if g0.len() > 0 {
                    assert(g0[0].len() == img.len_of(1));
                }
                assert forall|y: int| 0 <= y < img.len_of(0) implies #[trigger] img.grid2(
                    final(ibuf)@,
                )[y] =~= cols_fwd(*self, r, gw)[y] by {
                    assert(gw == img.len_of(1));
                }
            }
        }
    }

    fn idwt2(&self, img: &Strided, ibuf: &mut Vec<T>, tmp: &Strided, tbuf: &mut Vec<T>) {
        let ghost g0 = img.grid2(old(ibuf)@);
        col_pass_inv(self, img, ibuf, tmp, tbuf);
        let ghost c = cols_inv(*self, g0, img.len_of(1));
        let ghost mid = ibuf@;
        row_pass_inv(self, img, ibuf, tmp, tbuf);
        proof {
            let gw = grid_width(g0);
            let w = img.len_of(1);
            assert(img.grid2(mid) =~~= c) by {
                assert forall|y: int| 0 <= y < img.len_of(0) implies #[trigger] img.grid2(
                    mid,
                )[y] =~= c[y] by {
                    assert forall|x: int| 0 <= x < w implies img.grid2(mid)[y][x] == c[y][x] by {
                        assert(mid[img.pos2(y, x)] == cols_inv(*self, g0, w)[y][x]);
                    }
                }
            }
            assert(img.grid2(final(ibuf)@) == rows_inv(*self, c));
            if g0.len() == 0 {
                assert(img.grid2(final(ibuf)@) =~~= rows_inv(*self, cols_inv(*self, g0, gw)));
            } else {
                assert(g0[0].len() == w);
                assert(gw == w);
            }
        }
    }
}

/// Width of a two-axis view, as an executable value.
fn row_len(v: &Strided) -> (r: usize)
    ensures
        r == v.len_of(1),
{
    v.state().lens[1]
}

/// Applies the forward one-dimensional transform to every row of the
/// image view.
fn row_pass_fwd<T: Copy, A: Dwt1<T>>(
    a: &A,
    img: &Strided,
    ibuf: &mut Vec<T>,
    tmp: &Strided,
    tbuf: &mut Vec<T>,
)
    requires
        img.wf2(old(ibuf)@.len() as int),
        img.inj2(),
        tmp.wf2(old(tbuf)@.len() as int),
        tmp.inj2(),
        img.len_of(0) == tmp.len_of(0),
        img.len_of(1) == tmp.len_of(1),
        a.valid_len(img.len_of(1)),
    ensures
        final(ibuf)@.len() == old(ibuf)@.len(),
        final(tbuf)@.len() == old(tbuf)@.len(),
        img.grid2(final(ibuf)@) == rows_fwd(*a, img.grid2(old(ibuf)@)),
        forall|p: int|
            0 <= p < old(ibuf)@.len() && !img.covers2(p) ==> final(ibuf)@[p] == old(ibuf)@[p],
        forall|p: int|
            0 <= p < old(tbuf)@.len() && !tmp.covers2(p) ==> final(tbuf)@[p] == old(tbuf)@[p],
{
    let ghost g0 = img.grid2(old(ibuf)@);
    let h = img.len();
    let mut y: usize = 0;
    while y < h
        invariant
            img.wf2(ibuf@.len() as int),
            img.inj2(),
            tmp.wf2(tbuf@.len() as int),
            tmp.inj2(),
            img.len_of(0) == tmp.len_of(0),
            img.len_of(1) == tmp.len_of(1),
            a.valid_len(img.len_of(1)),
            h == img.len_of(0),
            y <= h,
            ibuf@.len() == old(ibuf)@.len(),
            tbuf@.len() == old(tbuf)@.len(),
            g0 == img.grid2(old(ibuf)@),
            forall|yy: int, x: int|
                0 <= yy < h && 0 <= x < img.len_of(1) ==> ibuf@[#[trigger] img.pos2(yy, x)] == (
                if yy < y {
                    rows_fwd(*a, g0)[yy][x]
                } else {
                    g0[yy][x]
                }),
            forall|p: int|
                0 <= p < old(ibuf)@.len() && !img.covers2(p) ==> ibuf@[p] == old(ibuf)@[p],
            forall|p: int|
                0 <= p < old(tbuf)@.len() && !tmp.covers2(p) ==> tbuf@[p] == old(tbuf)@[p],
        decreases h - y,
    {
        let rowv = img.into_get(y);
        let trow = tmp.into_get(y);
        proof {
            lemma_row_view(*img, ibuf@.len() as int, rowv, y as int);
            lemma_row_view(*tmp, tbuf@.len() as int, trow, y as int);
        }
        let ghost pre_i = ibuf@;
        let ghost pre_t = tbuf@;
        a.dwt1(&rowv, ibuf, &trow, tbuf);
        proof {
            assert(rowv.seq1(pre_i) =~= g0[y as int]) by {
                assert forall|x: int| 0 <= x < img.len_of(1) implies rowv.seq1(pre_i)[x]
                    == g0[y as int][x] by {
                    assert(rowv.pos1(x) == img.pos2(y as int, x));
                    assert(pre_i[img.pos2(y as int, x)] == g0[y as int][x]);
                }
            }
            assert forall|yy: int, x: int|
                0 <= yy < h && 0 <= x < img.len_of(1) implies ibuf@[#[trigger] img.pos2(yy, x)]
                == (if yy < y + 1 {
                rows_fwd(*a, g0)[yy][x]
            } else {
                g0[yy][x]
            }) by {
                if yy == y {
                    assert(rowv.seq1(ibuf@)[x] == a.dwt1_spec(rowv.seq1(pre_i))[x]);
                    assert(rowv.pos1(x) == img.pos2(y as int, x));
                } else {
                    assert(!rowv.covers1(img.pos2(yy, x))) by {
                        assert forall|t: int| 0 <= t < rowv.len_of(0) implies rowv.pos1(t)
                            != img.pos2(yy, x) by {
                            assert(rowv.pos1(t) == img.pos2(y as int, t));
                        }
                    }
                }
            }
            assert forall|p: int|
                0 <= p < old(ibuf)@.len() && !img.covers2(p) implies ibuf@[p] == old(ibuf)@[p] by {
                assert(!rowv.covers1(p)) by {
                    assert forall|t: int| 0 <= t < rowv.len_of(0) implies rowv.pos1(t) != p by {
                        assert(rowv.pos1(t) == img.pos2(y as int, t));
                        assert(img.covers2(img.pos2(y as int, t)));
                    }
                }
            }
            assert forall|p: int|
                0 <= p < old(tbuf)@.len() && !tmp.covers2(p) implies tbuf@[p] == old(tbuf)@[p] by {
                assert(!trow.covers1(p)) by {
                    assert forall|t: int| 0 <= t < trow.len_of(0) implies trow.pos1(t) != p by {
                        assert(trow.pos1(t) == tmp.pos2(y as int, t));
                        assert(tmp.covers2(tmp.pos2(y as int, t)));
                    }
                }
            }
        }
        y += 1;
    }
    proof {
        assert forall|yy: int| 0 <= yy < h implies #[trigger] img.grid2(final(ibuf)@)[yy]
            =~= rows_fwd(*a, g0)[yy] by {
            a.lemma_dwt1_spec_len(g0[yy]);
        }
        assert(img.grid2(final(ibuf)@) =~= rows_fwd(*a, g0));
    }
}

/// A row of a two-axis view is a well-formed, self-disjoint one-axis view.
proof fn lemma_row_view(img: Strided, n: int, rowv: Strided, y: int)
    requires
        img.wf2(n),
        img.inj2(),
        0 <= y < img.len_of(0),
        rowv.dim() == 1,
        rowv.len_of(0) == img.len_of(1),
        forall|x: int| 0 <= x < img.len_of(1) ==> #[trigger] rowv.pos1(x) == img.pos2(y, x),
    ensures
        rowv.wf1(n),
        rowv.inj1(),
{
    assert forall|x: int| 0 <= x < rowv.len_of(0) implies 0 <= #[trigger] rowv.pos1(x) < n by {
        assert(rowv.pos1(x) == img.pos2(y, x));
    }
    assert forall|x1: int, x2: int|
        0 <= x1 < rowv.len_of(0) && 0 <= x2 < rowv.len_of(0) && x1 != x2 implies #[trigger] rowv.pos1(
        x1,
    ) != #[trigger] rowv.pos1(x2) by {
        assert(rowv.pos1(x1) == img.pos2(y, x1));
        assert(rowv.pos1(x2) == img.pos2(y, x2));
    }
}

/// A column of a two-axis view is a well-formed, self-disjoint one-axis
/// view.
proof fn lemma_col_view(img: Strided, n: int, colv: Strided, x: int)
    requires
        img.wf2(n),
        img.inj2(),
        0 <= x < img.len_of(1),
        colv.dim() == 1,
        colv.len_of(0) == img.len_of(0),
        forall|yy: int| 0 <= yy < img.len_of(0) ==> #[trigger] colv.pos1(yy) == img.pos2(yy, x),
    ensures
        colv.wf1(n),
        colv.inj1(),
{
    assert forall|yy: int| 0 <= yy < colv.len_of(0) implies 0 <= #[trigger] colv.pos1(yy) < n by {
        assert(colv.pos1(yy) == img.pos2(yy, x));
    }
    assert forall|y1: int, y2: int|
        0 <= y1 < colv.len_of(0) && 0 <= y2 < colv.len_of(0) && y1 != y2 implies #[trigger] colv.pos1(
        y1,
    ) != #[trigger] colv.pos1(y2) by {
        assert(colv.pos1(y1) == img.pos2(y1, x));
        assert(colv.pos1(y2) == img.pos2(y2, x));
    }
}

/// Applies the forward one-dimensional transform to every column of the
/// image view.
fn col_pass_fwd<T: Copy, A: Dwt1<T>>(
    a: &A,
    img: &Strided,
    ibuf: &mut Vec<T>,
    tmp: &Strided,
    tbuf: &mut Vec<T>,
)
    requires
        img.wf2(old(ibuf)@.len() as int),
        img.inj2(),
        tmp.wf2(old(tbuf)@.len() as int),
        tmp.inj2(),
        img.len_of(0) == tmp.len_of(0),
        img.len_of(1) == tmp.len_of(1),
        a.valid_len(img.len_of(0)),
    ensures
        final(ibuf)@.len() == old(ibuf)@.len(),
        final(tbuf)@.len() == old(tbuf)@.len(),
        forall|yy: int, x: int|
            0 <= yy < img.len_of(0) && 0 <= x < img.len_of(1) ==> final(ibuf)@[#[trigger] img.pos2(
                yy,
                x,
            )] == cols_fwd(*a, img.grid2(old(ibuf)@), img.len_of(1))[yy][x],
        forall|p: int|
            0 <= p < old(ibuf)@.len() && !img.covers2(p) ==> final(ibuf)@[p] == old(ibuf)@[p],
        forall|p: int|
            0 <= p < old(tbuf)@.len() && !tmp.covers2(p) ==> final(tbuf)@[p] == old(tbuf)@[p],
{
    let ghost r0 = img.grid2(old(ibuf)@);
    let h = img.len();
    let w = row_len(img);
    let timg = img.as_transpose01();
    let ttmp = tmp.as_transpose01();
    let mut x: usize = 0;
    while x < w
        invariant
            img.wf2(ibuf@.len() as int),
            img.inj2(),
            tmp.wf2(tbuf@.len() as int),
            tmp.inj2(),
            img.len_of(0) == tmp.len_of(0),
            img.len_of(1) == tmp.len_of(1),
            a.valid_len(img.len_of(0)),
            h == img.len_of(0),
            w == img.len_of(1),
            x <= w,
            timg.dim() == 2 && timg.len_of(0) == w && timg.len_of(1) == h,
            forall|i: int, j: int|
                0 <= i < w && 0 <= j < h ==> #[trigger] timg.pos2(i, j) == img.pos2(j, i),
            ttmp.dim() == 2 && ttmp.len_of(0) == w && ttmp.len_of(1) == h,
            forall|i: int, j: int|
                0 <= i < w && 0 <= j < h ==> #[trigger] ttmp.pos2(i, j) == tmp.pos2(j, i),
            ibuf@.len() == old(ibuf)@.len(),
            tbuf@.len() == old(tbuf)@.len(),
            r0 == img.grid2(old(ibuf)@),
            forall|yy: int, xx: int|
                0 <= yy < h && 0 <= xx < w ==> ibuf@[#[trigger] img.pos2(yy, xx)] == (if xx < x {
                    cols_fwd(*a, r0, w as int)[yy][xx]
                } else {
                    r0[yy][xx]
                }),
            forall|p: int|
                0 <= p < old(ibuf)@.len() && !img.covers2(p) ==> ibuf@[p] == old(ibuf)@[p],
            forall|p: int|
                0 <= p < old(tbuf)@.len() && !tmp.covers2(p) ==> tbuf@[p] == old(tbuf)@[p],
        decreases w - x,
    {
        proof {
            assert forall|i: int, j: int|
                0 <= i < timg.len_of(0) && 0 <= j < timg.len_of(1) implies 0 <= #[trigger] timg.pos2(
                i,
                j,
            ) <= isize::MAX as int by {
                assert(timg.pos2(i, j) == img.pos2(j, i));
            }
            assert forall|i: int, j: int|
                0 <= i < ttmp.len_of(0) && 0 <= j < ttmp.len_of(1) implies 0 <= #[trigger] ttmp.pos2(
                i,
                j,
            ) <= isize::MAX as int by {
                assert(ttmp.pos2(i, j) == tmp.pos2(j, i));
            }
        }
        let colv = timg.into_get(x);
        let tcol = ttmp.into_get(x);
        proof {
            assert forall|yy: int| 0 <= yy < img.len_of(0) implies #[trigger] colv.pos1(yy)
                == img.pos2(yy, x as int) by {
                assert(colv.pos1(yy) == timg.pos2(x as int, yy));
            }
            assert forall|yy: int| 0 <= yy < tmp.len_of(0) implies #[trigger] tcol.pos1(yy)
                == tmp.pos2(yy, x as int) by {
                assert(tcol.pos1(yy) == ttmp.pos2(x as int, yy));
            }
            lemma_col_view(*img, ibuf@.len() as int, colv, x as int);
            lemma_col_view(*tmp, tbuf@.len() as int, tcol, x as int);
        }
        let ghost pre_i = ibuf@;
        a.dwt1(&colv, ibuf, &tcol, tbuf);
        proof {
            assert(colv.seq1(pre_i) =~= grid_col(r0, x as int)) by {
                assert forall|yy: int| 0 <= yy < h implies colv.seq1(pre_i)[yy] == grid_col(
                    r0,
                    x as int,
                )[yy] by {
                    assert(colv.pos1(yy) == img.pos2(yy, x as int));
                    assert(pre_i[img.pos2(yy, x as int)] == r0[yy][x as int]);
                }
            }
            assert forall|yy: int, xx: int|
                0 <= yy < h && 0 <= xx < w implies ibuf@[#[trigger] img.pos2(yy, xx)] == (if xx < x
                + 1 {
                cols_fwd(*a, r0, w as int)[yy][xx]
            } else {
                r0[yy][xx]
            }) by {
                if xx == x {
                    assert(colv.seq1(ibuf@)[yy] == a.dwt1_spec(colv.seq1(pre_i))[yy]);
                    assert(colv.pos1(yy) == img.pos2(yy, x as int));
                } else {
                    assert(!colv.covers1(img.pos2(yy, xx))) by {
                        assert forall|t: int| 0 <= t < colv.len_of(0) implies colv.pos1(t)
                            != img.pos2(yy, xx) by {
                            assert(colv.pos1(t) == img.pos2(t, x as int));
                        }
                    }
                }
            }
            assert forall|p: int|
                0 <= p < old(ibuf)@.len() && !img.covers2(p) implies ibuf@[p] == old(ibuf)@[p] by {
                assert(!colv.covers1(p)) by {
                    assert forall|t: int| 0 <= t < colv.len_of(0) implies colv.pos1(t) != p by {
                        assert(colv.pos1(t) == img.pos2(t, x as int));
                        assert(img.covers2(img.pos2(t, x as int)));
                    }
                }
            }
            assert forall|p: int|
                0 <= p < old(tbuf)@.len() && !tmp.covers2(p) implies tbuf@[p] == old(tbuf)@[p] by {
                assert(!tcol.covers1(p)) by {
                    assert forall|t: int| 0 <= t < tcol.len_of(0) implies tcol.pos1(t) != p by {
                        assert(tcol.pos1(t) == tmp.pos2(t, x as int));
                        assert(tmp.covers2(tmp.pos2(t, x as int)));
                    }
                }
            }
        }
        x += 1;
    }
}

/// Applies the inverse one-dimensional transform to every column of the
/// image view.
fn col_pass_inv<T: Copy, A: Dwt1<T>>(
    a: &A,
    img: &Strided,
    ibuf: &mut Vec<T>,
    tmp: &Strided,
    tbuf: &mut Vec<T>,
)
    requires
        img.wf2(old(ibuf)@.len() as int),
        img.inj2(),
        tmp.wf2(old(tbuf)@.len() as int),
        tmp.inj2(),
        img.len_of(0) == tmp.len_of(0),
        img.len_of(1) == tmp.len_of(1),
        a.valid_len(img.len_of(0)),
    ensures
        final(ibuf)@.len() == old(ibuf)@.len(),
        final(tbuf)@.len() == old(tbuf)@.len(),
        forall|yy: int, x: int|
            0 <= yy < img.len_of(0) && 0 <= x < img.len_of(1) ==> final(ibuf)@[#[trigger] img.pos2(
                yy,
                x,
            )] == cols_inv(*a, img.grid2(old(ibuf)@), img.len_of(1))[yy][x],
        forall|p: int|
            0 <= p < old(ibuf)@.len() && !img.covers2(p) ==> final(ibuf)@[p] == old(ibuf)@[p],
        forall|p: int|
            0 <= p < old(tbuf)@.len() && !tmp.covers2(p) ==> final(tbuf)@[p] == old(tbuf)@[p],
{
    let ghost r0 = img.grid2(old(ibuf)@);
    let h = img.len();
    let w = row_len(img);
    let timg = img.as_transpose01();
    let ttmp = tmp.as_transpose01();
    let mut x: usize = 0;
    while x < w
        invariant
            img.wf2(ibuf@.len() as int),
            img.inj2(),
            tmp.wf2(tbuf@.len() as int),
            tmp.inj2(),
            img.len_of(0) == tmp.len_of(0),
            img.len_of(1) == tmp.len_of(1),
            a.valid_len(img.len_of(0)),
            h == img.len_of(0),
            w == img.len_of(1),
            x <= w,
            timg.dim() == 2 && timg.len_of(0) == w && timg.len_of(1) == h,
            forall|i: int, j: int|
                0 <= i < w && 0 <= j < h ==> #[trigger] timg.pos2(i, j) == img.pos2(j, i),
            ttmp.dim() == 2 && ttmp.len_of(0) == w && ttmp.len_of(1) == h,
            forall|i: int, j: int|
                0 <= i < w && 0 <= j < h ==> #[trigger] ttmp.pos2(i, j) == tmp.pos2(j, i),
            ibuf@.len() == old(ibuf)@.len(),
            tbuf@.len() == old(tbuf)@.len(),
            r0 == img.grid2(old(ibuf)@),
            forall|yy: int, xx: int|
                0 <= yy < h && 0 <= xx < w ==> ibuf@[#[trigger] img.pos2(yy, xx)] == (if xx < x {
                    cols_inv(*a, r0, w as int)[yy][xx]
                } else {
                    r0[yy][xx]
                }),
            forall|p: int|
                0 <= p < old(ibuf)@.len() && !img.covers2(p) ==> ibuf@[p] == old(ibuf)@[p],
            forall|p: int|
                0 <= p < old(tbuf)@.len() && !tmp.covers2(p) ==> tbuf@[p] == old(tbuf)@[p],
        decreases w - x,
    {
        proof {
            assert forall|i: int, j: int|
                0 <= i < timg.len_of(0) && 0 <= j < timg.len_of(1) implies 0 <= #[trigger] timg.pos2(
                i,
                j,
            ) <= isize::MAX as int by {
                assert(timg.pos2(i, j) == img.pos2(j, i));
            }
            assert forall|i: int, j: int|
                0 <= i < ttmp.len_of(0) && 0 <= j < ttmp.len_of(1) implies 0 <= #[trigger] ttmp.pos2(
                i,
                j,
            ) <= isize::MAX as int by {
                assert(ttmp.pos2(i, j) == tmp.pos2(j, i));
            }
        }
        let colv = timg.into_get(x);
        let tcol = ttmp.into_get(x);
        proof {
            assert forall|yy: int| 0 <= yy < img.len_of(0) implies #[trigger] colv.pos1(yy)
                == img.pos2(yy, x as int) by {
                assert(colv.pos1(yy) == timg.pos2(x as int, yy));
            }
            assert forall|yy: int| 0 <= yy < tmp.len_of(0) implies #[trigger] tcol.pos1(yy)
                == tmp.pos2(yy, x as int) by {
                assert(tcol.pos1(yy) == ttmp.pos2(x as int, yy));
            }
            lemma_col_view(*img, ibuf@.len() as int, colv, x as int);
            lemma_col_view(*tmp, tbuf@.len() as int, tcol, x as int);
        }
        let ghost pre_i = ibuf@;
        a.idwt1(&colv, ibuf, &tcol, tbuf);
        proof {
            assert(colv.seq1(pre_i) =~= grid_col(r0, x as int)) by {
                assert forall|yy: int| 0 <= yy < h implies colv.seq1(pre_i)[yy] == grid_col(
                    r0,
                    x as int,
                )[yy] by {
                    assert(colv.pos1(yy) == img.pos2(yy, x as int));
                    assert(pre_i[img.pos2(yy, x as int)] == r0[yy][x as int]);
                }
            }
            assert forall|yy: int, xx: int|
                0 <= yy < h && 0 <= xx < w implies ibuf@[#[trigger] img.pos2(yy, xx)] == (if xx < x
                + 1 {
                cols_inv(*a, r0, w as int)[yy][xx]
            } else {
                r0[yy][xx]
            }) by {
                if xx == x {
                    assert(colv.seq1(ibuf@)[yy] == a.idwt1_spec(colv.seq1(pre_i))[yy]);
                    assert(colv.pos1(yy) == img.pos2(yy, x as int));
                } else {
                    assert(!colv.covers1(img.pos2(yy, xx))) by {
                        assert forall|t: int| 0 <= t < colv.len_of(0) implies colv.pos1(t)
                            != img.pos2(yy, xx) by {
                            assert(colv.pos1(t) == img.pos2(t, x as int));
                        }
                    }
                }
            }
            assert forall|p: int|
                0 <= p < old(ibuf)@.len() && !img.covers2(p) implies ibuf@[p] == old(ibuf)@[p] by {
                assert(!colv.covers1(p)) by {
                    assert forall|t: int| 0 <= t < colv.len_of(0) implies colv.pos1(t) != p by {
                        assert(colv.pos1(t) == img.pos2(t, x as int));
                        assert(img.covers2(img.pos2(t, x as int)));
                    }
                }
            }
            assert forall|p: int|
                0 <= p < old(tbuf)@.len() && !tmp.covers2(p) implies tbuf@[p] == old(tbuf)@[p] by {
                assert(!tcol.covers1(p)) by {
                    assert forall|t: int| 0 <= t < tcol.len_of(0) implies tcol.pos1(t) != p by {
                        assert(tcol.pos1(t) == tmp.pos2(t, x as int));
                        assert(tmp.covers2(tmp.pos2(t, x as int)));
                    }
                }
            }
        }
        x += 1;
    }
}

/// Applies the inverse one-dimensional transform to every row of the
/// image view.
fn row_pass_inv<T: Copy, A: Dwt1<T>>(
    a: &A,
    img: &Strided,
    ibuf: &mut Vec<T>,
    tmp: &Strided,
    tbuf: &mut Vec<T>,
)
    requires
        img.wf2(old(ibuf)@.len() as int),
        img.inj2(),
        tmp.wf2(old(tbuf)@.len() as int),
        tmp.inj2(),
        img.len_of(0) == tmp.len_of(0),
        img.len_of(1) == tmp.len_of(1),
        a.valid_len(img.len_of(1)),
    ensures
        final(ibuf)@.len() == old(ibuf)@.len(),
        final(tbuf)@.len() == old(tbuf)@.len(),
        img.grid2(final(ibuf)@) == rows_inv(*a, img.grid2(old(ibuf)@)),
        forall|p: int|
            0 <= p < old(ibuf)@.len() && !img.covers2(p) ==> final(ibuf)@[p] == old(ibuf)@[p],
        forall|p: int|
            0 <= p < old(tbuf)@.len() && !tmp.covers2(p) ==> final(tbuf)@[p] == old(tbuf)@[p],
{
    let ghost g0 = img.grid2(old(ibuf)@);
    let h = img.len();
    let mut y: usize = 0;
    while y < h
        invariant
            img.wf2(ibuf@.len() as int),
            img.inj2(),
            tmp.wf2(tbuf@.len() as int),
            tmp.inj2(),
            img.len_of(0) == tmp.len_of(0),
            img.len_of(1) == tmp.len_of(1),
            a.valid_len(img.len_of(1)),
            h == img.len_of(0),
            y <= h,
            ibuf@.len() == old(ibuf)@.len(),
            tbuf@.len() == old(tbuf)@.len(),
            g0 == img.grid2(old(ibuf)@),
            forall|yy: int, x: int|
                0 <= yy < h && 0 <= x < img.len_of(1) ==> ibuf@[#[trigger] img.pos2(yy, x)] == (
                if yy < y {
                    rows_inv(*a, g0)[yy][x]
                } else {
                    g0[yy][x]
                }),
            forall|p: int|
                0 <= p < old(ibuf)@.len() && !img.covers2(p) ==> ibuf@[p] == old(ibuf)@[p],
            forall|p: int|
                0 <= p < old(tbuf)@.len() && !tmp.covers2(p) ==> tbuf@[p] == old(tbuf)@[p],
        decreases h - y,
    {
        let rowv = img.into_get(y);
        let trow = tmp.into_get(y);
        proof {
            lemma_row_view(*img, ibuf@.len() as int, rowv, y as int);
            lemma_row_view(*tmp, tbuf@.len() as int, trow, y as int);
        }
        let ghost pre_i = ibuf@;
        a.idwt1(&rowv, ibuf, &trow, tbuf);
        proof {
            assert(rowv.seq1(pre_i) =~= g0[y as int]) by {
                assert forall|x: int| 0 <= x < img.len_of(1) implies rowv.seq1(pre_i)[x]
                    == g0[y as int][x] by {
                    assert(rowv.pos1(x) == img.pos2(y as int, x));
                    assert(pre_i[img.pos2(y as int, x)] == g0[y as int][x]);
                }
            }
            assert forall|yy: int, x: int|
                0 <= yy < h && 0 <= x < img.len_of(1) implies ibuf@[#[trigger] img.pos2(yy, x)]
                == (if yy < y + 1 {
                rows_inv(*a, g0)[yy][x]
            } else {
                g0[yy][x]
            }) by {
                if yy == y {
                    assert(rowv.seq1(ibuf@)[x] == a.idwt1_spec(rowv.seq1(pre_i))[x]);
                    assert(rowv.pos1(x) == img.pos2(y as int, x));
                } else {
                    assert(!rowv.covers1(img.pos2(yy, x))) by {
                        assert forall|t: int| 0 <= t < rowv.len_of(0) implies rowv.pos1(t)
                            != img.pos2(yy, x) by {
                            assert(rowv.pos1(t) == img.pos2(y as int, t));
                        }
                    }
                }
            }
            assert forall|p: int|
                0 <= p < old(ibuf)@.len() && !img.covers2(p) implies ibuf@[p] == old(ibuf)@[p] by {
                assert(!rowv.covers1(p)) by {
                    assert forall|t: int| 0 <= t < rowv.len_of(0) implies rowv.pos1(t) != p by {
                        assert(rowv.pos1(t) == img.pos2(y as int, t));
                        assert(img.covers2(img.pos2(y as int, t)));
                    }
                }
            }
            assert forall|p: int|
                0 <= p < old(tbuf)@.len() && !tmp.covers2(p) implies tbuf@[p] == old(tbuf)@[p] by {
                assert(!trow.covers1(p)) by {
                    assert forall|t: int| 0 <= t < trow.len_of(0) implies trow.pos1(t) != p by {
                        assert(trow.pos1(t) == tmp.pos2(y as int, t));
                        assert(tmp.covers2(tmp.pos2(y as int, t)));
                    }
                }
            }
        }
        y += 1;
    }
    proof {
        assert forall|yy: int| 0 <= yy < h implies #[trigger] img.grid2(final(ibuf)@)[yy]
            =~= rows_inv(*a, g0)[yy] by {
            a.lemma_dwt1_spec_len(g0[yy]);
        }
        assert(img.grid2(final(ibuf)@) =~= rows_inv(*a, g0));
    }
}

/// Round-trip law for the separable two-dimensional transform: whenever
/// the one-dimensional transform round-trips on even-length sequences, the
/// grid transform round-trips on every uniform grid of even height and
/// even width.
pub proof fn lemma_dwt2_roundtrip<T: Copy, A: Dwt1<T>>(a: A, g: Seq<Seq<T>>, w: int)
    requires
        seq_roundtrip1::<T, A>(a),
        grid_uniform(g, w),
        w >= 0,
        w % 2 == 0,
        g.len() % 2 == 0,
        w == grid_width(g),
    ensures
        a.idwt2_spec(a.dwt2_spec(g)) == g,
{
    let h = g.len() as int;
    let r = rows_fwd(a, g);
    let f = cols_fwd(a, r, w);
    assert forall|y: int| 0 <= y < h implies (#[trigger] r[y]).len() == w by {
        a.lemma_dwt1_spec_len(g[y]);
    }
    assert(grid_width(a.dwt2_spec(g)) == w) by {
        if h > 0 {
            assert(f[0].len() == w);
        }
    }
    let c = cols_inv(a, f, w);
    assert forall|y: int, x: int| 0 <= y < h && 0 <= x < w implies #[trigger] c[y][x]
        == r[y][x] by {
        assert(grid_col(f, x) =~= a.dwt1_spec(grid_col(r, x))) by {
            a.lemma_dwt1_spec_len(grid_col(r, x));
            assert forall|yy: int| 0 <= yy < h implies grid_col(f, x)[yy] == a.dwt1_spec(
                grid_col(r, x),
            )[yy] by {
                assert(f[yy][x] == a.dwt1_spec(grid_col(r, x))[yy]);
            }
        }
        assert(a.idwt1_spec(a.dwt1_spec(grid_col(r, x))) == grid_col(r, x));
        assert(c[y][x] == a.idwt1_spec(grid_col(f, x))[y]);
    }
    assert forall|y: int| 0 <= y < h implies #[trigger] a.idwt2_spec(a.dwt2_spec(g))[y]
        == g[y] by {
        assert(c[y] =~= r[y]) by {
            a.lemma_dwt1_spec_len(grid_col(r, 0));
        }
        assert(c[y] == a.dwt1_spec(g[y]));
        assert(a.idwt1_spec(a.dwt1_spec(g[y])) == g[y]);
        assert(a.idwt2_spec(a.dwt2_spec(g))[y] == a.idwt1_spec(c[y]));
    }
    assert(a.idwt2_spec(a.dwt2_spec(g)) =~= g);
}

} // verus!

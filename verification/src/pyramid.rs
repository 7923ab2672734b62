//! Multi-level pyramid decomposition: the two-dimensional transform
//! applied repeatedly, each level restricted to the top-left low-frequency
//! quadrant the previous level produced. The inverse walks the levels in
//! the opposite order, coarsest quadrant first.

use crate::dwt::seq_roundtrip1;
use crate::dwt::Dwt1;
use crate::dwt2::grid_uniform;
use crate::dwt2::Dwt2;
use crate::image::Image;
use vstd::prelude::*;

verus! {

/// The top-left `qh` by `qw` corner of a grid.
pub open spec fn subgrid<T>(g: Seq<Seq<T>>, qh: int, qw: int) -> Seq<Seq<T>> {
    Seq::new(qh as nat, |y: int| Seq::new(qw as nat, |x: int| g[y][x]))
}

/// The grid with its top-left `qh` by `qw` corner replaced by `q`.
pub open spec fn overlay<T>(g: Seq<Seq<T>>, q: Seq<Seq<T>>, qh: int, qw: int) -> Seq<Seq<T>> {
    Seq::new(
        g.len(),
        |y: int|
            if 0 <= y < qh {
                Seq::new(
                    g[y].len(),
                    |x: int|
                        if 0 <= x < qw {
                            q[y][x]
                        } else {
                            g[y][x]
                        },
                )
            } else {
                g[y]
            },
    )
}

/// One forward level: the quadrant transformed in place.
pub open spec fn quad_fwd<T: Copy, A: Dwt2<T>>(a: A, g: Seq<Seq<T>>, qh: int, qw: int) -> Seq<
    Seq<T>,
> {
    overlay(g, a.dwt2_spec(subgrid(g, qh, qw)), qh, qw)
}

/// One inverse level: the quadrant inverse-transformed in place.
pub open spec fn quad_inv<T: Copy, A: Dwt2<T>>(a: A, g: Seq<Seq<T>>, qh: int, qw: int) -> Seq<
    Seq<T>,
> {
    overlay(g, a.idwt2_spec(subgrid(g, qh, qw)), qh, qw)
}

/// A length halved (rounding down) `i` times.
pub open spec fn shr_spec(w: int, i: nat) -> int
    decreases i,
{
    if i == 0 {
        w
    } else {
        shr_spec(w, (i - 1) as nat) / 2
    }
}

/// The grid after `lvl` forward levels: level `k` transforms the quadrant
/// of the dimensions halved `k` times.
pub open spec fn pyramid_fwd_spec<T: Copy, A: Dwt2<T>>(
    a: A,
    g: Seq<Seq<T>>,
    w: int,
    h: int,
    lvl: nat,
) -> Seq<Seq<T>>
    decreases lvl,
{
    if lvl == 0 {
        g
    } else {
        quad_fwd(
            a,
            pyramid_fwd_spec(a, g, w, h, (lvl - 1) as nat),
            shr_spec(h, (lvl - 1) as nat),
            shr_spec(w, (lvl - 1) as nat),
        )
    }
}

/// The grid after `lvl` inverse levels, coarsest quadrant first.
pub open spec fn pyramid_inv_spec<T: Copy, A: Dwt2<T>>(
    a: A,
    g: Seq<Seq<T>>,
    w: int,
    h: int,
    lvl: nat,
) -> Seq<Seq<T>>
    decreases lvl,
{
    if lvl == 0 {
        g
    } else {
        pyramid_inv_spec(
            a,
            quad_inv(a, g, shr_spec(h, (lvl - 1) as nat), shr_spec(w, (lvl - 1) as nat)),
            w,
            h,
            (lvl - 1) as nat,
        )
    }
}

/// Halving never grows a length and never goes negative.
pub proof fn lemma_shr_le(w: int, i: nat)
    requires
        w >= 0,
    ensures
        0 <= shr_spec(w, i) <= w,
    decreases i,
{
    if i > 0 {
        lemma_shr_le(w, (i - 1) as nat);
    }
}

/// A length halved `i` times.
fn shr_to(w: usize, i: usize) -> (r: usize)
    ensures
        r == shr_spec(w as int, i as nat),
{
    let mut r = w;
    let mut k: usize = 0;
    while k < i
        invariant
            k <= i,
            r == shr_spec(w as int, k as nat),
        decreases i - k,
    {
        r = r / 2;
        k += 1;
    }
    r
}

/// The quadrant views of both images, with everything one transform level
/// needs proven about them.
fn level_views<T: Copy>(img: &Image<T>, tmp: &Image<T>, qw: usize, qh: usize) -> (r: (
    crate::strided::Strided,
    crate::strided::Strided,
))
    requires
        img.wf(),
        tmp.wf(),
        qw <= img.width,
        qh <= img.height,
        qw <= tmp.width,
        qh <= tmp.height,
    ensures
        ({
            let (sub, tsub) = r;
            &&& sub.wf2(img.data@.len() as int)
            &&& sub.inj2()
            &&& sub.len_of(0) == qh
            &&& sub.len_of(1) == qw
            &&& forall|y: int, x: int|
                0 <= y < qh && 0 <= x < qw ==> #[trigger] sub.pos2(y, x) == y * img.row_stride + x
            &&& sub.grid2(img.data@) == subgrid(img.grid(), qh as int, qw as int)
            &&& tsub.wf2(tmp.data@.len() as int)
            &&& tsub.inj2()
            &&& tsub.len_of(0) == qh
            &&& tsub.len_of(1) == qw
            &&& forall|y: int, x: int|
                0 <= y < qh && 0 <= x < qw ==> #[trigger] tsub.pos2(y, x) == y * tmp.row_stride
                    + x
        }),
{
    let sub = img.subview(0, 0, qw, qh).m;
    let tsub = tmp.subview(0, 0, qw, qh).m;
    proof {
        lemma_quadrant_view(*img, sub, qw as int, qh as int);
        lemma_quadrant_view(*tmp, tsub, qw as int, qh as int);
        assert forall|y: int| 0 <= y < qh implies #[trigger] sub.grid2(img.data@)[y] =~= subgrid(
            img.grid(),
            qh as int,
            qw as int,
        )[y] by {}
        assert(sub.grid2(img.data@) =~= subgrid(img.grid(), qh as int, qw as int));
    }
    (sub, tsub)
}

/// A top-left quadrant descriptor addresses within the image buffer,
/// distinct cells for distinct indices.
proof fn lemma_quadrant_view<T: Copy>(img: Image<T>, sub: crate::strided::Strided, qw: int, qh: int)
    requires
        img.wf(),
        qw <= img.width,
        qh <= img.height,
        sub.dim() == 2,
        sub.len_of(0) == qh,
        sub.len_of(1) == qw,
        forall|y: int, x: int|
            0 <= y < qh && 0 <= x < qw ==> #[trigger] sub.pos2(y, x) == y * img.row_stride + x,
    ensures
        sub.wf2(img.data@.len() as int),
        sub.inj2(),
{
    assert forall|y: int, x: int| 0 <= y < qh && 0 <= x < qw implies 0 <= #[trigger] sub.pos2(y, x)
        < img.data@.len() by {
        assert(0 <= y * img.row_stride + x < img.height * img.row_stride) by (nonlinear_arith)
            requires
                0 <= y < qh <= img.height,
                0 <= x < qw <= img.width <= img.row_stride,
        ;
    }
    assert forall|y1: int, x1: int, y2: int, x2: int|
        0 <= y1 < sub.len_of(0) && 0 <= x1 < sub.len_of(1) && 0 <= y2 < sub.len_of(0) && 0 <= x2
            < sub.len_of(1) && (y1 != y2 || x1 != x2) implies #[trigger] sub.pos2(y1, x1)
        != #[trigger] sub.pos2(y2, x2) by {
        assert(y1 * img.row_stride + x1 != y2 * img.row_stride + x2) by (nonlinear_arith)
            requires
                0 <= x1 < img.row_stride,
                0 <= x2 < img.row_stride,
                y1 != y2 || x1 != x2,
        ;
    }
}

/// The grid a row-major buffer of the given shape holds.
pub open spec fn grid_of<T>(data: Seq<T>, w: int, h: int, rs: int) -> Seq<Seq<T>> {
    Seq::new(h as nat, |y: int| Seq::new(w as nat, |x: int| data[y * rs + x]))
}

/// After one transform of the quadrant view, the whole image grid is the
/// old grid with the transformed quadrant overlaid.
proof fn lemma_level_overlay<T: Copy>(
    img: Image<T>,
    pre: Seq<T>,
    sub: crate::strided::Strided,
    q: Seq<Seq<T>>,
    qh: int,
    qw: int,
)
    requires
        img.wf(),
        qw <= img.width,
        qh <= img.height,
        sub.dim() == 2,
        sub.len_of(0) == qh,
        sub.len_of(1) == qw,
        forall|y: int, x: int|
            0 <= y < qh && 0 <= x < qw ==> #[trigger] sub.pos2(y, x) == y * img.row_stride + x,
        img.data@.len() == pre.len(),
        q.len() == qh,
        forall|y: int| 0 <= y < qh ==> (#[trigger] q[y]).len() == qw,
        sub.grid2(img.data@) == q,
        forall|p: int| 0 <= p < pre.len() && !sub.covers2(p) ==> img.data@[p] == pre[p],
    ensures
        img.grid() == overlay(
            grid_of(pre, img.width as int, img.height as int, img.row_stride as int),
            q,
            qh,
            qw,
        ),
{
    let g0 = grid_of(pre, img.width as int, img.height as int, img.row_stride as int);
    assert forall|y: int| 0 <= y < img.height implies #[trigger] img.grid()[y] =~= overlay(
        g0,
        q,
        qh,
        qw,
    )[y] by {
        assert forall|x: int| 0 <= x < img.width implies img.grid()[y][x] == overlay(
            g0,
            q,
            qh,
            qw,
        )[y][x] by {
            if 0 <= y < qh && 0 <= x < qw {
                assert(sub.grid2(img.data@)[y][x] == q[y][x]);
                assert(sub.pos2(y, x) == y * img.row_stride + x);
            } else {
                assert(!sub.covers2(y * img.row_stride + x)) by {
                    assert forall|y2: int, x2: int|
                        0 <= y2 < sub.len_of(0) && 0 <= x2 < sub.len_of(1) implies sub.pos2(
                        y2,
                        x2,
                    ) != y * img.row_stride + x by {
                        assert(y2 * img.row_stride + x2 != y * img.row_stride + x)
                            by (nonlinear_arith)
                            requires
                                0 <= x2 < img.row_stride,
                                0 <= x < img.row_stride,
                                y2 != y || x2 != x,
                        ;
                    }
                }
                assert(0 <= y * img.row_stride + x < pre.len()) by (nonlinear_arith)
                    requires
                        0 <= y < img.height,
                        0 <= x < img.width <= img.row_stride,
                        pre.len() == img.height * img.row_stride,
                ;
            }
        }
    }
    assert(img.grid() =~= overlay(g0, q, qh, qw));
}

/// Forward pyramid decomposition: `levels` passes of the two-dimensional
/// transform, each on the quadrant whose sides are the image's halved once
/// more. The scratch image only needs matching dimensions.
pub fn forward_pyramid<T: Copy, A: Dwt2<T>>(
    a: &A,
    img: &mut Image<T>,
    tmp: &mut Image<T>,
    levels: usize,
)
    requires
        old(img).wf(),
        old(tmp).wf(),
        old(tmp).width == old(img).width,
        old(tmp).height == old(img).height,
        forall|i: int|
            0 <= i < levels ==> a.valid2(
                shr_spec(old(img).height as int, i as nat),
                #[trigger] shr_spec(old(img).width as int, i as nat),
            ),
    ensures
        final(img).wf(),
        final(img).width == old(img).width,
        final(img).height == old(img).height,
        final(img).row_stride == old(img).row_stride,
        final(tmp).wf(),
        final(tmp).width == old(tmp).width,
        final(tmp).height == old(tmp).height,
        final(tmp).row_stride == old(tmp).row_stride,
        final(img).grid() == pyramid_fwd_spec(
            *a,
            old(img).grid(),
            old(img).width as int,
            old(img).height as int,
            levels as nat,
        ),
{
    let ghost g0 = img.grid();
    let w = img.width;
    let h = img.height;
    let mut qw = w;
    let mut qh = h;
    let mut i: usize = 0;
    while i < levels
        invariant
            img.wf(),
            tmp.wf(),
            img.width == w,
            img.height == h,
            img.row_stride == old(img).row_stride,
            tmp.width == w,
            tmp.height == h,
            tmp.row_stride == old(tmp).row_stride,
            i <= levels,
            qw == shr_spec(w as int, i as nat),
            qh == shr_spec(h as int, i as nat),
            forall|t: int|
                0 <= t < levels ==> a.valid2(
                    shr_spec(h as int, t as nat),
                    #[trigger] shr_spec(w as int, t as nat),
                ),
            img.grid() == pyramid_fwd_spec(*a, g0, w as int, h as int, i as nat),
        decreases levels - i,
    {
        proof {
            lemma_shr_le(w as int, i as nat);
            lemma_shr_le(h as int, i as nat);
            let ghost ti: int = i as int;
            assert(a.valid2(shr_spec(h as int, ti as nat), shr_spec(w as int, ti as nat)));
            assert(a.valid2(shr_spec(h as int, i as nat), shr_spec(w as int, i as nat)));
        }
        let (sub, tsub) = level_views(img, tmp, qw, qh);
        let ghost pre = img.data@;
        let ghost gpre = img.grid();
        a.dwt2(&sub, &mut img.data, &tsub, &mut tmp.data);
        proof {
            let qhi = qh as int;
            let qwi = qw as int;
            let d = a.dwt2_spec(subgrid(gpre, qhi, qwi));
            assert(sub.grid2(pre) == subgrid(gpre, qhi, qwi));
            assert(sub.grid2(img.data@) == d);
            assert(d.len() == qhi && forall|y: int| 0 <= y < qhi ==> (#[trigger] d[y]).len()
                == qwi) by {
                lemma_subgrid_uniform(gpre, qhi, qwi);
                a.lemma_dwt2_shape(subgrid(gpre, qhi, qwi), qhi, qwi);
            }
            lemma_level_overlay(*img, pre, sub, d, qhi, qwi);
            assert(grid_of(pre, w as int, h as int, img.row_stride as int) =~~= gpre);
            assert(img.grid() == quad_fwd(*a, gpre, qhi, qwi));
        }
        qw = qw / 2;
        qh = qh / 2;
        i += 1;
    }
}

/// Inverse pyramid reconstruction: the same quadrants, coarsest first,
/// each undone by the inverse two-dimensional transform.
pub fn inverse_pyramid<T: Copy, A: Dwt2<T>>(
    a: &A,
    img: &mut Image<T>,
    tmp: &mut Image<T>,
    levels: usize,
)
    requires
        old(img).wf(),
        old(tmp).wf(),
        old(tmp).width == old(img).width,
        old(tmp).height == old(img).height,
        forall|i: int|
            0 <= i < levels ==> a.valid2(
                shr_spec(old(img).height as int, i as nat),
                #[trigger] shr_spec(old(img).width as int, i as nat),
            ),
    ensures
        final(img).wf(),
        final(img).width == old(img).width,
        final(img).height == old(img).height,
        final(img).row_stride == old(img).row_stride,
        final(tmp).wf(),
        final(tmp).width == old(tmp).width,
        final(tmp).height == old(tmp).height,
        final(tmp).row_stride == old(tmp).row_stride,
        final(img).grid() == pyramid_inv_spec(
            *a,
            old(img).grid(),
            old(img).width as int,
            old(img).height as int,
            levels as nat,
        ),
{
    let ghost g0 = img.grid();
    let w = img.width;
    let h = img.height;
    let mut k: usize = levels;
    while k > 0
        invariant
            img.wf(),
            tmp.wf(),
            img.width == w,
            img.height == h,
            img.row_stride == old(img).row_stride,
            tmp.width == w,
            tmp.height == h,
            tmp.row_stride == old(tmp).row_stride,
            k <= levels,
            forall|t: int|
                0 <= t < levels ==> a.valid2(
                    shr_spec(h as int, t as nat),
                    #[trigger] shr_spec(w as int, t as nat),
                ),
            pyramid_inv_spec(*a, img.grid(), w as int, h as int, k as nat) == pyramid_inv_spec(
                *a,
                g0,
                w as int,
                h as int,
                levels as nat,
            ),
        decreases k,
    {
        let qw = shr_to(w, k - 1);
        let qh = shr_to(h, k - 1);
        proof {
            lemma_shr_le(w as int, (k - 1) as nat);
            lemma_shr_le(h as int, (k - 1) as nat);
            let ghost tk: int = k - 1;
            assert(a.valid2(shr_spec(h as int, tk as nat), shr_spec(w as int, tk as nat)));
            assert(a.valid2(shr_spec(h as int, (k - 1) as nat), shr_spec(w as int, (k - 1) as nat)));
        }
        let (sub, tsub) = level_views(img, tmp, qw, qh);
        let ghost pre = img.data@;
        let ghost gpre = img.grid();
        a.idwt2(&sub, &mut img.data, &tsub, &mut tmp.data);
        proof {
            let qhi = qh as int;
            let qwi = qw as int;
            let d = a.idwt2_spec(subgrid(gpre, qhi, qwi));
            assert(sub.grid2(pre) == subgrid(gpre, qhi, qwi));
            assert(sub.grid2(img.data@) == d);
            assert(d.len() == qhi && forall|y: int| 0 <= y < qhi ==> (#[trigger] d[y]).len()
                == qwi) by {
                lemma_subgrid_uniform(gpre, qhi, qwi);
                a.lemma_dwt2_shape(subgrid(gpre, qhi, qwi), qhi, qwi);
            }
            lemma_level_overlay(*img, pre, sub, d, qhi, qwi);
            assert(grid_of(pre, w as int, h as int, img.row_stride as int) =~~= gpre);
            assert(img.grid() == quad_inv(*a, gpre, qhi, qwi));
        }
        k -= 1;
    }
}

/// A top-left corner of any grid is a uniform grid of its own shape.
proof fn lemma_subgrid_uniform<T>(g: Seq<Seq<T>>, qh: int, qw: int)
    requires
        qh >= 0,
        qw >= 0,
    ensures
        subgrid(g, qh, qw).len() == qh,
        grid_uniform(subgrid(g, qh, qw), qw),
{
}

/// Every forward level preserves the grid's shape.
pub proof fn lemma_pyramid_shape<T: Copy, A: Dwt1<T>>(
    a: A,
    g: Seq<Seq<T>>,
    w: int,
    h: int,
    lvl: nat,
)
    requires
        g.len() == h,
        grid_uniform(g, w),
        w >= 0,
        h >= 0,
    ensures
        pyramid_fwd_spec(a, g, w, h, lvl).len() == h,
        grid_uniform(pyramid_fwd_spec(a, g, w, h, lvl), w),
    decreases lvl,
{
    if lvl > 0 {
        let l1 = (lvl - 1) as nat;
        lemma_pyramid_shape(a, g, w, h, l1);
        let p = pyramid_fwd_spec(a, g, w, h, l1);
        let qh = shr_spec(h, l1);
        let qw = shr_spec(w, l1);
        lemma_shr_le(h, l1);
        lemma_shr_le(w, l1);
        lemma_subgrid_uniform(p, qh, qw);
        a.lemma_dwt2_shape(subgrid(p, qh, qw), qh, qw);
        let f = pyramid_fwd_spec(a, g, w, h, lvl);
        assert forall|y: int| 0 <= y < f.len() implies (#[trigger] f[y]).len() == w by {
            if 0 <= y < qh {
                assert(p[y].len() == w);
            }
        }
    }
}

/// Round-trip law for the multi-level pyramid: for any grid and any level
/// count whose every quadrant has even width and height, running the
/// inverse pyramid over the forward pyramid's output reproduces the grid
/// exactly, whenever the underlying one-dimensional transform round-trips.
pub proof fn lemma_pyramid_roundtrip<T: Copy, A: Dwt1<T>>(
    a: A,
    g: Seq<Seq<T>>,
    w: int,
    h: int,
    lvl: nat,
)
    requires
        seq_roundtrip1::<T, A>(a),
        g.len() == h,
        grid_uniform(g, w),
        w >= 0,
        h >= 0,
        forall|i: int|
            0 <= i < lvl ==> #[trigger] shr_spec(w, i as nat) % 2 == 0 && shr_spec(h, i as nat)
                % 2 == 0,
    ensures
        pyramid_inv_spec(a, pyramid_fwd_spec(a, g, w, h, lvl), w, h, lvl) == g,
    decreases lvl,
{
    if lvl > 0 {
        let l1 = (lvl - 1) as nat;
        let p = pyramid_fwd_spec(a, g, w, h, l1);
        let qh = shr_spec(h, l1);
        let qw = shr_spec(w, l1);
        lemma_shr_le(h, l1);
        lemma_shr_le(w, l1);
        lemma_pyramid_shape(a, g, w, h, l1);
        let s = subgrid(p, qh, qw);
        lemma_subgrid_uniform(p, qh, qw);
        let d = a.dwt2_spec(s);
        a.lemma_dwt2_shape(s, qh, qw);
        let f = pyramid_fwd_spec(a, g, w, h, lvl);
        assert(f == quad_fwd(a, p, qh, qw));
        assert(subgrid(f, qh, qw) =~~= d) by {
            assert forall|y: int| 0 <= y < qh implies #[trigger] subgrid(f, qh, qw)[y] =~= d[y] by {
                assert(p[y].len() == w);
                assert forall|x: int| 0 <= x < qw implies subgrid(f, qh, qw)[y][x] == d[y][x] by {
                    assert(f[y][x] == d[y][x]);
                }
            }
        }
        let li: int = l1 as int;
        assert(shr_spec(w, li as nat) % 2 == 0 && shr_spec(h, li as nat) % 2 == 0);
        assert(qw % 2 == 0 && qh % 2 == 0);
        if qh == 0 {
            assert(a.idwt2_spec(subgrid(f, qh, qw)) =~~= s) by {
                a.lemma_dwt2_shape(subgrid(f, qh, qw), qh, qw);
            }
        } else {
            assert(qw == crate::dwt2::grid_width(s)) by {
                assert(s[0].len() == qw);
            }
            crate::dwt2::lemma_dwt2_roundtrip(a, s, qw);
            assert(a.idwt2_spec(a.dwt2_spec(s)) == s);
            assert(a.idwt2_spec(subgrid(f, qh, qw)) == s);
        }
        assert(quad_inv(a, f, qh, qw) =~~= p) by {
            let si = a.idwt2_spec(subgrid(f, qh, qw));
            assert forall|y: int| 0 <= y < h implies #[trigger] quad_inv(a, f, qh, qw)[y]
                =~= p[y] by {
                assert(p[y].len() == w);
                if 0 <= y < qh {
                    assert forall|x: int| 0 <= x < w implies quad_inv(a, f, qh, qw)[y][x]
                        == p[y][x] by {
                        if 0 <= x < qw {
                            assert(si[y][x] == s[y][x]);
                            assert(s[y][x] == p[y][x]);
                        } else {
                            assert(f[y][x] == p[y][x]);
                        }
                    }
                } else {
                    assert(f[y] =~= p[y]);
                }
            }
        }
        assert(pyramid_inv_spec(a, f, w, h, lvl) == pyramid_inv_spec(a, quad_inv(a, f, qh, qw), w, h, l1));
        assert(pyramid_inv_spec(a, quad_inv(a, f, qh, qw), w, h, l1) == pyramid_inv_spec(a, p, w, h, l1));
        lemma_pyramid_roundtrip(a, g, w, h, l1);
    }
}

} // verus!

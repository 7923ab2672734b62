//! An owning two-dimensional buffer with an explicit row stride, and the
//! non-owning grid views taken from it. Rows are contiguous; consecutive
//! rows sit `row_stride` cells apart, leaving room for alignment padding.

use crate::strided::Strided;
use crate::strided::StridedState;
use vstd::prelude::*;

verus! {

/// A non-owning rectangular view into some buffer: a two-axis strided
/// descriptor whose rows are contiguous.
#[derive(Clone, Copy)]
pub struct ImageView {
    pub m: Strided,
}

impl ImageView {
    /// A rectangular view of a buffer of `n` cells.
    pub open spec fn wf(self, n: int) -> bool {
        &&& self.m.wf2(n)
        &&& self.m.inj2()
        &&& self.m.stride_of(1) == 1
    }

    /// The grid of values this view addresses in a buffer.
    pub open spec fn grid<T>(self, buf: Seq<T>) -> Seq<Seq<T>> {
        self.m.grid2(buf)
    }

    pub fn width(&self) -> (r: usize)
        ensures
            r == self.m.len_of(1),
    {
        self.m.state.lens[1]
    }

    pub fn height(&self) -> (r: usize)
        ensures
            r == self.m.len_of(0),
    {
        self.m.state.lens[0]
    }

    /// Total number of cells the view addresses.
    pub fn size(&self) -> (r: usize)
        requires
            self.m.len_of(0) * self.m.len_of(1) <= usize::MAX,
        ensures
            r == self.m.len_of(0) * self.m.len_of(1),
    {
        proof {
            assert(self.m.len_of(0) * self.m.len_of(1) >= 0) by (nonlinear_arith)
                requires
                    self.m.len_of(0) >= 0,
                    self.m.len_of(1) >= 0,
            ;
        }
        self.m.state.lens[0] * self.m.state.lens[1]
    }

    /// Cells between the starts of consecutive rows.
    pub fn stride(&self) -> (r: isize)
        ensures
            r == self.m.stride_of(0),
    {
        self.m.state.strides[0]
    }

    /// The underlying two-axis strided descriptor.
    pub fn as_matrix(&self) -> (r: Strided)
        ensures
            r == self.m,
    {
        self.m
    }

    /// Cell `(x, y)` — column `x` of row `y` — or `None` out of range.
    pub fn checked_get<T: Copy>(&self, buf: &Vec<T>, x: usize, y: usize) -> (r: Option<T>)
        requires
            self.wf(buf@.len() as int),
        ensures
            x < self.m.len_of(1) && y < self.m.len_of(0) ==> r == Some(
                self.grid(buf@)[y as int][x as int],
            ),
            x >= self.m.len_of(1) || y >= self.m.len_of(0) ==> r is None,
    {
        if y < self.m.state.lens[0] && x < self.m.state.lens[1] {
            Some(self.m.get2(buf, y, x))
        } else {
            None
        }
    }

    /// Cell `(x, y)`; the indices must be in range.
    pub fn get<T: Copy>(&self, buf: &Vec<T>, x: usize, y: usize) -> (r: T)
        requires
            self.wf(buf@.len() as int),
            x < self.m.len_of(1),
            y < self.m.len_of(0),
        ensures
            r == self.grid(buf@)[y as int][x as int],
    {
        self.m.get2(buf, y, x)
    }

    /// Row `y` as a one-axis view, or `None` out of range.
    pub fn checked_row(&self, y: usize) -> (r: Option<Strided>)
        requires
            self.m.addr2(),
            self.m.dim() == 2,
        ensures
            y < self.m.len_of(0) ==> {
                let v = r->Some_0;
                &&& r is Some
                &&& v.dim() == 1
                &&& v.len_of(0) == self.m.len_of(1)
                &&& forall|x: int|
                    0 <= x < self.m.len_of(1) ==> #[trigger] v.pos1(x) == self.m.pos2(y as int, x)
            },
            y >= self.m.len_of(0) ==> r is None,
    {
        if y < self.m.state.lens[0] {
            Some(self.m.into_get(y))
        } else {
            None
        }
    }

    /// Row `y` as a one-axis view; `y` must be in range.
    pub fn row(&self, y: usize) -> (r: Strided)
        requires
            self.m.addr2(),
            self.m.dim() == 2,
            y < self.m.len_of(0),
        ensures
            r.dim() == 1,
            r.len_of(0) == self.m.len_of(1),
            forall|x: int|
                0 <= x < self.m.len_of(1) ==> #[trigger] r.pos1(x) == self.m.pos2(y as int, x),
    {
        self.m.into_get(y)
    }

    /// Column `x` as a one-axis view, or `None` out of range.
    pub fn checked_col(&self, x: usize) -> (r: Option<Strided>)
        requires
            self.m.addr2(),
            self.m.dim() == 2,
        ensures
            x < self.m.len_of(1) ==> {
                let v = r->Some_0;
                &&& r is Some
                &&& v.dim() == 1
                &&& v.len_of(0) == self.m.len_of(0)
                &&& forall|y: int|
                    0 <= y < self.m.len_of(0) ==> #[trigger] v.pos1(y) == self.m.pos2(y, x as int)
            },
            x >= self.m.len_of(1) ==> r is None,
    {
        if x < self.m.state.lens[1] {
            let t = self.m.as_transpose01();
            proof {
                assert forall|i: int, j: int|
                    0 <= i < t.len_of(0) && 0 <= j < t.len_of(1) implies 0 <= #[trigger] t.pos2(
                    i,
                    j,
                ) <= isize::MAX as int by {
                    assert(t.pos2(i, j) == self.m.pos2(j, i));
                }
            }
            let v = t.into_get(x);
            proof {
                assert forall|y: int| 0 <= y < self.m.len_of(0) implies #[trigger] v.pos1(y)
                    == self.m.pos2(y, x as int) by {
                    assert(v.pos1(y) == t.pos2(x as int, y));
                }
            }
            Some(v)
        } else {
            None
        }
    }

    /// Column `x` as a one-axis view; `x` must be in range.
    pub fn col(&self, x: usize) -> (r: Strided)
        requires
            self.m.addr2(),
            self.m.dim() == 2,
            x < self.m.len_of(1),
        ensures
            r.dim() == 1,
            r.len_of(0) == self.m.len_of(0),
            forall|y: int|
                0 <= y < self.m.len_of(0) ==> #[trigger] r.pos1(y) == self.m.pos2(y, x as int),
    {
        match self.checked_col(x) {
            Some(v) => v,
            None => {
                proof {
                    assert(false);
                }
                Strided::new()
            },
        }
    }

    /// All rows, top to bottom, as one-axis views.
    pub fn rows(&self) -> (r: Vec<Strided>)
        requires
            self.m.addr2(),
            self.m.dim() == 2,
        ensures
            r@.len() == self.m.len_of(0),
            forall|y: int|
                0 <= y < self.m.len_of(0) ==> {
                    let v = #[trigger] r@[y];
                    &&& v.dim() == 1
                    &&& v.len_of(0) == self.m.len_of(1)
                    &&& forall|x: int|
                        0 <= x < self.m.len_of(1) ==> #[trigger] v.pos1(x) == self.m.pos2(y, x)
                },
    {
        let n = self.m.state.lens[0];
        let mut out: Vec<Strided> = Vec::new();
        let mut y: usize = 0;
        while y < n
            invariant
                self.m.addr2(),
                self.m.dim() == 2,
                n == self.m.len_of(0),
                y <= n,
                out@.len() == y,
                forall|t: int|
                    0 <= t < y ==> {
                        let v = #[trigger] out@[t];
                        &&& v.dim() == 1
                        &&& v.len_of(0) == self.m.len_of(1)
                        &&& forall|x: int|
                            0 <= x < self.m.len_of(1) ==> #[trigger] v.pos1(x) == self.m.pos2(t, x)
                    },
            decreases n - y,
        {
            out.push(self.row(y));
            y += 1;
        }
        out
    }

    /// All columns, left to right, as one-axis views.
    pub fn cols(&self) -> (r: Vec<Strided>)
        requires
            self.m.addr2(),
            self.m.dim() == 2,
        ensures
            r@.len() == self.m.len_of(1),
            forall|x: int|
                0 <= x < self.m.len_of(1) ==> {
                    let v = #[trigger] r@[x];
                    &&& v.dim() == 1
                    &&& v.len_of(0) == self.m.len_of(0)
                    &&& forall|y: int|
                        0 <= y < self.m.len_of(0) ==> #[trigger] v.pos1(y) == self.m.pos2(y, x)
                },
    {
        let n = self.m.state.lens[1];
        let mut out: Vec<Strided> = Vec::new();
        let mut x: usize = 0;
        while x < n
            invariant
                self.m.addr2(),
                self.m.dim() == 2,
                n == self.m.len_of(1),
                x <= n,
                out@.len() == x,
                forall|t: int|
                    0 <= t < x ==> {
                        let v = #[trigger] out@[t];
                        &&& v.dim() == 1
                        &&& v.len_of(0) == self.m.len_of(0)
                        &&& forall|y: int|
                            0 <= y < self.m.len_of(0) ==> #[trigger] v.pos1(y) == self.m.pos2(y, t)
                    },
            decreases n - x,
        {
            out.push(self.col(x));
            x += 1;
        }
        out
    }

    /// This view itself; views are freely copied.
    pub fn view(&self) -> (r: ImageView)
        ensures
            r == *self,
    {
        *self
    }

    /// The sub-rectangle starting at column `x`, row `y`, of at most the
    /// given width and height: the requested rectangle is clipped to the
    /// view's bounds, never reported as an error.
    pub fn subview(&self, x: usize, y: usize, width: usize, height: usize) -> (r: ImageView)
        requires
            self.m.addr2(),
            self.m.dim() == 2,
        ensures
            r.m.dim() == 2,
            r.m.len_of(0) == (if y as int <= self.m.len_of(0) {
                vstd::math::min(height as int, self.m.len_of(0) - y)
            } else {
                0
            }),
            r.m.len_of(1) == (if x as int <= self.m.len_of(1) {
                vstd::math::min(width as int, self.m.len_of(1) - x)
            } else {
                0
            }),
            r.m.stride_of(1) == self.m.stride_of(1),
            forall|i: int, j: int|
                0 <= i < r.m.len_of(0) && 0 <= j < r.m.len_of(1) ==> #[trigger] r.m.pos2(i, j)
                    == self.m.pos2(y + i, x + j),
    {
        let h0 = self.m.state.lens[0];
        let w0 = self.m.state.lens[1];
        let nh: usize = if y >= h0 {
            0
        } else if height < h0 - y {
            height
        } else {
            h0 - y
        };
        let nw: usize = if x >= w0 {
            0
        } else if width < w0 - x {
            width
        } else {
            w0 - x
        };
        let off2: usize = if nh > 0 && nw > 0 {
            self.m.index2(y, x)
        } else {
            self.m.off
        };
        let r = ImageView {
            m: Strided {
                off: off2,
                state: StridedState {
                    dim: 2,
                    lens: [nh, nw, 0, 0],
                    strides: [self.m.state.strides[0], self.m.state.strides[1], 0, 0],
                },
            },
        };
        proof {
            if nh > 0 && nw > 0 {
                assert forall|i: int, j: int|
                    0 <= i < r.m.len_of(0) && 0 <= j < r.m.len_of(1) implies #[trigger] r.m.pos2(
                    i,
                    j,
                ) == self.m.pos2(y + i, x + j) by {
                    assert((y + i) * self.m.stride_of(0) == y as int * self.m.stride_of(0) + i
                        * self.m.stride_of(0)) by (nonlinear_arith);
                    assert((x + j) * self.m.stride_of(1) == x as int * self.m.stride_of(1) + j
                        * self.m.stride_of(1)) by (nonlinear_arith);
                }
            }
        }
        r
    }
}

/// An owning two-dimensional buffer: `height` rows of `width` cells, rows
/// spaced `row_stride` cells apart in a single allocation.
#[derive(Debug)]
pub struct Image<T> {
    pub data: Vec<T>,
    pub width: usize,
    pub height: usize,
    pub row_stride: usize,
}

impl<T: Copy> Image<T> {
    /// The layout invariant: the stride covers a whole row, and the buffer
    /// holds exactly `height` strides.
    pub open spec fn wf(self) -> bool {
        &&& self.row_stride >= self.width
        &&& self.row_stride <= isize::MAX as int
        &&& self.data@.len() == self.height * self.row_stride
        &&& self.height * self.row_stride <= isize::MAX as int + 1
    }

    /// The grid of cell values, row-major.
    pub open spec fn grid(self) -> Seq<Seq<T>> {
        Seq::new(
            self.height as nat,
            |y: int| Seq::new(self.width as nat, |x: int| self.data@[y * self.row_stride + x]),
        )
    }

    /// Allocates a `width` by `height` image with the given row stride,
    /// every cell set to `value`.
    pub fn with_stride_and_value(width: usize, height: usize, stride: usize, value: T) -> (r: Image<
        T,
    >)
        requires
            stride >= width,
            stride <= isize::MAX as int,
            height * stride <= isize::MAX as int + 1,
        ensures
            r.wf(),
            r.width == width,
            r.height == height,
            r.row_stride == stride,
            forall|y: int, x: int|
                0 <= y < height && 0 <= x < width ==> #[trigger] r.grid()[y][x] == value,
    {
        proof {
            assert(height * stride >= 0) by (nonlinear_arith)
                requires
                    height >= 0,
                    stride >= 0,
            ;
        }
        let total = height * stride;
        let mut data: Vec<T> = Vec::new();
        let mut i: usize = 0;
        while i < total
            invariant
                i <= total,
                data@.len() == i,
                forall|p: int| 0 <= p < i ==> data@[p] == value,
            decreases total - i,
        {
            data.push(value);
            i += 1;
        }
        let r = Image { data, width, height, row_stride: stride };
        proof {
            assert forall|y: int, x: int|
                0 <= y < height && 0 <= x < width implies #[trigger] r.grid()[y][x] == value by {
                assert(0 <= y * stride + x < height * stride) by (nonlinear_arith)
                    requires
                        0 <= y < height,
                        0 <= x < width,
                        width <= stride,
                ;
            }
        }
        r
    }

    /// Allocates with the given row stride, every cell the default value.
    pub fn with_stride(width: usize, height: usize, stride: usize) -> (r: Image<T>) where
        T: Default,
        requires
            stride >= width,
            stride <= isize::MAX as int,
            height * stride <= isize::MAX as int + 1,
        ensures
            r.wf(),
            r.width == width,
            r.height == height,
            r.row_stride == stride,
            forall|y1: int, x1: int, y2: int, x2: int|
                0 <= y1 < height && 0 <= x1 < width && 0 <= y2 < height && 0 <= x2 < width
                    ==> #[trigger] r.grid()[y1][x1] == #[trigger] r.grid()[y2][x2],
    {
        let d = T::default();
        Image::with_stride_and_value(width, height, stride, d)
    }

    /// Allocates a dense image (stride equal to width), every cell `value`.
    pub fn with_value(width: usize, height: usize, value: T) -> (r: Image<T>)
        requires
            width <= isize::MAX as int,
            height * width <= isize::MAX as int + 1,
        ensures
            r.wf(),
            r.width == width,
            r.height == height,
            r.row_stride == width,
            forall|y: int, x: int|
                0 <= y < height && 0 <= x < width ==> #[trigger] r.grid()[y][x] == value,
    {
        Image::with_stride_and_value(width, height, width, value)
    }

    /// Allocates a dense image of default-valued cells.
    pub fn new(width: usize, height: usize) -> (r: Image<T>) where T: Default
        requires
            width <= isize::MAX as int,
            height * width <= isize::MAX as int + 1,
        ensures
            r.wf(),
            r.width == width,
            r.height == height,
            r.row_stride == width,
            forall|y1: int, x1: int, y2: int, x2: int|
                0 <= y1 < height && 0 <= x1 < width && 0 <= y2 < height && 0 <= x2 < width
                    ==> #[trigger] r.grid()[y1][x1] == #[trigger] r.grid()[y2][x2],
    {
        Image::with_stride(width, height, width)
    }

    /// The two-axis descriptor of the whole image over its own buffer.
    pub fn as_matrix(&self) -> (r: Strided)
        requires
            self.wf(),
        ensures
            r.dim() == 2,
            r.len_of(0) == self.height,
            r.len_of(1) == self.width,
            r.stride_of(0) == self.row_stride,
            r.stride_of(1) == 1,
            r.off == 0,
            forall|y: int, x: int|
                0 <= y < self.height && 0 <= x < self.width ==> #[trigger] r.pos2(y, x) == y
                    * self.row_stride + x,
            r.wf2(self.data@.len() as int),
            r.inj2(),
            r.grid2(self.data@) == self.grid(),
    {
        let r = Strided {
            off: 0,
            state: StridedState {
                dim: 2,
                lens: [self.height, self.width, 0, 0],
                strides: [self.row_stride as isize, 1, 0, 0],
            },
        };
        proof {
            assert forall|y: int, x: int|
                0 <= y < self.height && 0 <= x < self.width implies #[trigger] r.pos2(y, x) == y
                * self.row_stride + x by {
                assert(r.stride_of(0) == self.row_stride);
                assert(y * r.stride_of(0) == y * self.row_stride) by (nonlinear_arith)
                    requires
                        r.stride_of(0) == self.row_stride,
                ;
                assert(x * 1 == x) by (nonlinear_arith);
            }
            assert forall|y: int, x: int|
                0 <= y < self.height && 0 <= x < self.width implies 0 <= #[trigger] r.pos2(y, x)
                < self.data@.len() by {
                assert(0 <= y * self.row_stride + x < self.height * self.row_stride)
                    by (nonlinear_arith)
                    requires
                        0 <= y < self.height,
                        0 <= x < self.width,
                        self.width <= self.row_stride,
                ;
            }
            assert forall|y1: int, x1: int, y2: int, x2: int|
                0 <= y1 < r.len_of(0) && 0 <= x1 < r.len_of(1) && 0 <= y2 < r.len_of(0) && 0 <= x2
                    < r.len_of(1) && (y1 != y2 || x1 != x2) implies #[trigger] r.pos2(y1, x1)
                != #[trigger] r.pos2(y2, x2) by {
                assert(y1 * self.row_stride + x1 != y2 * self.row_stride + x2)
                    by (nonlinear_arith)
                    requires
                        0 <= x1 < self.row_stride,
                        0 <= x2 < self.row_stride,
                        y1 != y2 || x1 != x2,
                ;
            }
            assert forall|y: int| 0 <= y < self.height implies #[trigger] r.grid2(self.data@)[y]
                =~= self.grid()[y] by {}
            assert(r.grid2(self.data@) =~= self.grid());
        }
        r
    }

    /// The whole image as a non-owning rectangular view.
    pub fn view(&self) -> (r: ImageView)
        requires
            self.wf(),
        ensures
            r.wf(self.data@.len() as int),
            r.m.len_of(0) == self.height,
            r.m.len_of(1) == self.width,
            r.grid(self.data@) == self.grid(),
            forall|y: int, x: int|
                0 <= y < self.height && 0 <= x < self.width ==> #[trigger] r.m.pos2(y, x) == y
                    * self.row_stride + x,
    {
        ImageView { m: self.as_matrix() }
    }

    pub fn size(&self) -> (r: usize)
        requires
            self.wf(),
            self.height * self.width <= usize::MAX,
        ensures
            r == self.height * self.width,
    {
        proof {
            assert(self.height * self.width >= 0) by (nonlinear_arith)
                requires
                    self.height >= 0,
                    self.width >= 0,
            ;
        }
        self.height * self.width
    }

    /// Cell `(x, y)` — column `x` of row `y` — or `None` out of range.
    pub fn checked_get(&self, x: usize, y: usize) -> (r: Option<T>)
        requires
            self.wf(),
        ensures
            x < self.width && y < self.height ==> r == Some(self.grid()[y as int][x as int]),
            x >= self.width || y >= self.height ==> r is None,
    {
        let v = self.view();
        v.checked_get(&self.data, x, y)
    }

    /// Cell `(x, y)`; the indices must be in range.
    pub fn get(&self, x: usize, y: usize) -> (r: T)
        requires
            self.wf(),
            x < self.width,
            y < self.height,
        ensures
            r == self.grid()[y as int][x as int],
    {
        let v = self.view();
        v.get(&self.data, x, y)
    }

    /// Writes `v` to cell `(x, y)`; only that cell changes.
    pub fn set(&mut self, x: usize, y: usize, v: T)
        requires
            old(self).wf(),
            x < old(self).width,
            y < old(self).height,
        ensures
            final(self).wf(),
            final(self).width == old(self).width,
            final(self).height == old(self).height,
            final(self).row_stride == old(self).row_stride,
            final(self).grid() == old(self).grid().update(
                y as int,
                old(self).grid()[y as int].update(x as int, v),
            ),
    {
        let m = self.as_matrix();
        let ghost pre = self.data@;
        m.store2(&mut self.data, y, x, v);
        proof {
            assert forall|yy: int| 0 <= yy < self.height implies #[trigger] final(self).grid()[yy]
                =~= old(self).grid().update(
                y as int,
                old(self).grid()[y as int].update(x as int, v),
            )[yy] by {
                assert forall|xx: int| 0 <= xx < self.width implies final(self).grid()[yy][xx]
                    == old(self).grid().update(
                    y as int,
                    old(self).grid()[y as int].update(x as int, v),
                )[yy][xx] by {
                    assert(m.pos2(y as int, x as int) == y * self.row_stride + x);
                    assert(m.pos2(yy, xx) == yy * self.row_stride + xx);
                    if yy != y || xx != x {
                        assert(yy * self.row_stride + xx != y * self.row_stride + x)
                            by (nonlinear_arith)
                            requires
                                0 <= xx < self.row_stride,
                                0 <= x < self.row_stride,
                                yy != y || xx != x,
                        ;
                    }
                }
            }
            assert(final(self).grid() =~= old(self).grid().update(
                y as int,
                old(self).grid()[y as int].update(x as int, v),
            ));
        }
    }

    /// Row `y` as a one-axis view over this image's buffer.
    pub fn row(&self, y: usize) -> (r: Strided)
        requires
            self.wf(),
            y < self.height,
        ensures
            r.dim() == 1,
            r.len_of(0) == self.width,
            r.wf1(self.data@.len() as int),
            forall|x: int|
                0 <= x < self.width ==> #[trigger] r.pos1(x) == y * self.row_stride + x,
    {
        let v = self.view();
        let r = v.row(y);
        proof {
            assert forall|x: int| 0 <= x < self.width implies 0 <= #[trigger] r.pos1(x)
                < self.data@.len() by {
                assert(r.pos1(x) == v.m.pos2(y as int, x));
            }
        }
        r
    }

    /// Column `x` as a one-axis view over this image's buffer.
    pub fn col(&self, x: usize) -> (r: Strided)
        requires
            self.wf(),
            x < self.width,
        ensures
            r.dim() == 1,
            r.len_of(0) == self.height,
            r.wf1(self.data@.len() as int),
            forall|y: int|
                0 <= y < self.height ==> #[trigger] r.pos1(y) == y * self.row_stride + x,
    {
        let v = self.view();
        let r = v.col(x);
        proof {
            assert forall|y: int| 0 <= y < self.height implies 0 <= #[trigger] r.pos1(y)
                < self.data@.len() by {
                assert(r.pos1(y) == v.m.pos2(y, x as int));
            }
        }
        r
    }

    /// The image's width in cells.
    pub fn width(&self) -> (r: usize)
        ensures
            r == self.width,
    {
        self.width
    }

    /// The image's height in rows.
    pub fn height(&self) -> (r: usize)
        ensures
            r == self.height,
    {
        self.height
    }

    /// Cells between the starts of consecutive rows.
    pub fn stride(&self) -> (r: usize)
        ensures
            r == self.row_stride,
    {
        self.row_stride
    }

    /// Row `y` as a one-axis view, or `None` out of range.
    pub fn checked_row(&self, y: usize) -> (r: Option<Strided>)
        requires
            self.wf(),
        ensures
            y < self.height ==> {
                let v = r->Some_0;
                &&& r is Some
                &&& v.dim() == 1
                &&& v.len_of(0) == self.width
                &&& forall|x: int|
                    0 <= x < self.width ==> #[trigger] v.pos1(x) == y * self.row_stride + x
            },
            y >= self.height ==> r is None,
    {
        if y < self.height {
            Some(self.row(y))
        } else {
            None
        }
    }

    /// Column `x` as a one-axis view, or `None` out of range.
    pub fn checked_col(&self, x: usize) -> (r: Option<Strided>)
        requires
            self.wf(),
        ensures
            x < self.width ==> {
                let v = r->Some_0;
                &&& r is Some
                &&& v.dim() == 1
                &&& v.len_of(0) == self.height
                &&& forall|y: int|
                    0 <= y < self.height ==> #[trigger] v.pos1(y) == y * self.row_stride + x
            },
            x >= self.width ==> r is None,
    {
        if x < self.width {
            Some(self.col(x))
        } else {
            None
        }
    }

    /// All rows, top to bottom, as one-axis views.
    pub fn rows(&self) -> (r: Vec<Strided>)
        requires
            self.wf(),
        ensures
            r@.len() == self.height,
            forall|y: int|
                0 <= y < self.height ==> {
                    let v = #[trigger] r@[y];
                    &&& v.dim() == 1
                    &&& v.len_of(0) == self.width
                    &&& forall|x: int|
                        0 <= x < self.width ==> #[trigger] v.pos1(x) == y * self.row_stride + x
                },
    {
        let view = self.view();
        let r = view.rows();
        proof {
            assert forall|y: int| 0 <= y < self.height implies {
                let v = #[trigger] r@[y];
                &&& v.dim() == 1
                &&& v.len_of(0) == self.width
                &&& forall|x: int|
                    0 <= x < self.width ==> #[trigger] v.pos1(x) == y * self.row_stride + x
            } by {
                let v = r@[y];
                assert forall|x: int| 0 <= x < self.width implies #[trigger] v.pos1(x) == y
                    * self.row_stride + x by {
                    assert(v.pos1(x) == view.m.pos2(y, x));
                }
            }
        }
        r
    }

    /// All columns, left to right, as one-axis views.
    pub fn cols(&self) -> (r: Vec<Strided>)
        requires
            self.wf(),
        ensures
            r@.len() == self.width,
            forall|x: int|
                0 <= x < self.width ==> {
                    let v = #[trigger] r@[x];
                    &&& v.dim() == 1
                    &&& v.len_of(0) == self.height
                    &&& forall|y: int|
                        0 <= y < self.height ==> #[trigger] v.pos1(y) == y * self.row_stride + x
                },
    {
        let view = self.view();
        let r = view.cols();
        proof {
            assert forall|x: int| 0 <= x < self.width implies {
                let v = #[trigger] r@[x];
                &&& v.dim() == 1
                &&& v.len_of(0) == self.height
                &&& forall|y: int|
                    0 <= y < self.height ==> #[trigger] v.pos1(y) == y * self.row_stride + x
            } by {
                let v = r@[x];
                assert forall|y: int| 0 <= y < self.height implies #[trigger] v.pos1(y) == y
                    * self.row_stride + x by {
                    assert(v.pos1(y) == view.m.pos2(y, x));
                }
            }
        }
        r
    }

    /// The sub-rectangle at column `x`, row `y`, clipped to bounds.
    pub fn subview(&self, x: usize, y: usize, width: usize, height: usize) -> (r: ImageView)
        requires
            self.wf(),
        ensures
            r.m.dim() == 2,
            r.m.len_of(0) == (if y as int <= self.height {
                vstd::math::min(height as int, self.height - y)
            } else {
                0
            }),
            r.m.len_of(1) == (if x as int <= self.width {
                vstd::math::min(width as int, self.width - x)
            } else {
                0
            }),
            forall|i: int, j: int|
                0 <= i < r.m.len_of(0) && 0 <= j < r.m.len_of(1) ==> #[trigger] r.m.pos2(i, j)
                    == (y + i) * self.row_stride + (x + j),
    {
        let v = self.view();
        let r = v.subview(x, y, width, height);
        proof {
            assert forall|i: int, j: int|
                0 <= i < r.m.len_of(0) && 0 <= j < r.m.len_of(1) implies #[trigger] r.m.pos2(i, j)
                == (y + i) * self.row_stride + (x + j) by {
                assert(r.m.pos2(i, j) == v.m.pos2(y + i, x + j));
            }
        }
        r
    }
}

} // verus!

//! The minimal raw grayscale container: a two-byte magic token, three
//! whitespace-separated ASCII integers (width, height, maximum sample
//! value, which must be below 256), then the samples row-major with no
//! padding. Reading and writing files is the caller's business; this
//! module turns bytes into an image and back, and says exactly which
//! inputs are malformed.

use crate::image::Image;
use vstd::prelude::*;

verus! {

/// Why a byte stream is not a well-formed raw grayscale container.
#[derive(Clone, Copy, Debug, PartialEq, Eq, Structural)]
pub enum PgmError {
    /// The stream does not begin with the magic token line.
    BadMagic,
    /// The stream ended before the three header numbers or the samples.
    UnexpectedEnd,
    /// A header token is not a representable nonnegative integer.
    BadNumber,
    /// More than three numbers appear in the header.
    BadFormat,
    /// The maximum sample value does not fit one byte.
    MaxValueTooLarge,
    /// The dimensions exceed what can be allocated.
    TooLarge,
}

/// The three header numbers and the offset where the samples start.
pub struct PgmHeader {
    pub width: usize,
    pub height: usize,
    pub maxval: usize,
    pub data_start: usize,
}

/// A sequence of machine words as unbounded integers.
pub open spec fn as_ints(s: Seq<usize>) -> Seq<int> {
    s.map_values(|v: usize| v as int)
}

pub open spec fn is_ws(b: u8) -> bool {
    b == 32 || b == 9 || b == 10 || b == 11 || b == 12 || b == 13
}

pub open spec fn is_digit(b: u8) -> bool {
    48 <= b <= 57
}

/// Index just past the current line: after its newline, or the end of the
/// stream when no newline follows.
pub open spec fn line_end_spec(data: Seq<u8>, pos: int) -> int
    decreases data.len() - pos,
{
    if pos < 0 || pos >= data.len() {
        data.len() as int
    } else if data[pos] == 10 {
        pos + 1
    } else {
        line_end_spec(data, pos + 1)
    }
}

/// Index just past the digit run starting at `pos`.
pub open spec fn digits_end_spec(data: Seq<u8>, pos: int, end: int) -> int
    decreases end - pos,
{
    if pos < 0 || pos >= end || pos >= data.len() || !is_digit(data[pos]) {
        pos
    } else {
        digits_end_spec(data, pos + 1, end)
    }
}

/// The value of the digit run in `[pos, end)`, most significant first.
pub open spec fn digits_val_spec(data: Seq<u8>, pos: int, end: int) -> int
    decreases end - pos,
{
    if pos >= end {
        0
    } else {
        digits_val_spec(data, pos, end - 1) * 10 + (data[end - 1] - 48)
    }
}

/// The numbers in one header line, or `None` when some token is not a
/// representable nonnegative integer.
pub open spec fn line_nums_spec(data: Seq<u8>, pos: int, end: int) -> Option<Seq<int>>
    decreases end - pos,
    via line_nums_spec_dec
{
    if pos >= end || pos >= data.len() {
        Some(Seq::empty())
    } else if is_ws(data[pos]) {
        line_nums_spec(data, pos + 1, end)
    } else if is_digit(data[pos]) {
        let e = digits_end_spec(data, pos, end);
        if e < end && e < data.len() && !is_ws(data[e]) {
            None
        } else if digits_val_spec(data, pos, e) > usize::MAX {
            None
        } else {
            match line_nums_spec(data, e, end) {
                Some(rest) => Some(seq![digits_val_spec(data, pos, e)] + rest),
                None => None,
            }
        }
    } else {
        None
    }
}

/// A digit run ends no earlier than just past its first digit and no
/// later than the line it sits in.
pub proof fn lemma_digits_end_bounds(data: Seq<u8>, pos: int, end: int)
    requires
        0 <= pos,
    ensures
        pos <= digits_end_spec(data, pos, end),
        digits_end_spec(data, pos, end) <= end || digits_end_spec(data, pos, end) == pos,
        pos < end && pos < data.len() && is_digit(data[pos]) ==> digits_end_spec(data, pos, end)
            > pos,
        forall|i: int| pos <= i < digits_end_spec(data, pos, end) ==> is_digit(data[i]),
    decreases end - pos,
{
    if !(pos < 0 || pos >= end || pos >= data.len() || !is_digit(data[pos])) {
        lemma_digits_end_bounds(data, pos + 1, end);
    }
}

#[via_fn]
proof fn line_nums_spec_dec(data: Seq<u8>, pos: int, end: int) {
    if 0 <= pos {
        lemma_digits_end_bounds(data, pos, end);
    }
}

/// Scans header lines from `pos` until three numbers have been read:
/// comment lines are skipped, a short stream or a bad token is an error,
/// and more than three numbers is an error.
pub open spec fn header_scan_spec(data: Seq<u8>, pos: int, acc: Seq<int>) -> Result<
    (Seq<int>, int),
    PgmError,
>
    decreases data.len() - pos,
    via header_scan_spec_dec
{
    if pos >= data.len() {
        Err(PgmError::UnexpectedEnd)
    } else {
        let e = line_end_spec(data, pos);
        if data[pos] == 35 {
            header_scan_spec(data, e, acc)
        } else {
            match line_nums_spec(data, pos, e) {
                None => Err(PgmError::BadNumber),
                Some(ns) => {
                    let acc2 = acc + ns;
                    if acc2.len() < 3 {
                        header_scan_spec(data, e, acc2)
                    } else if acc2.len() == 3 {
                        Ok((acc2, e))
                    } else {
                        Err(PgmError::BadFormat)
                    }
                },
            }
        }
    }
}

/// Each header line ends strictly past where it starts, so the scan
/// walks forward.
pub proof fn lemma_line_end_bounds(data: Seq<u8>, pos: int)
    ensures
        pos < data.len() ==> pos < line_end_spec(data, pos) <= data.len(),
        pos >= data.len() ==> line_end_spec(data, pos) == data.len(),
    decreases data.len() - pos,
{
    if 0 <= pos < data.len() && data[pos] != 10 {
        lemma_line_end_bounds(data, pos + 1);
    }
}

#[via_fn]
proof fn header_scan_spec_dec(data: Seq<u8>, pos: int, acc: Seq<int>) {
    lemma_line_end_bounds(data, pos);
}

/// The row stride a freshly parsed image uses: the width rounded up to a
/// multiple of 64 cells.
pub open spec fn padded_stride_spec(w: int) -> int {
    ((w + 63) / 64) * 64
}

/// The complete parse: magic token, header numbers, bounds checks, and
/// enough sample bytes.
pub open spec fn pgm_parse_spec(data: Seq<u8>) -> Result<PgmHeader, PgmError> {
    if data.len() < 3 || data[0] != 80 || data[1] != 53 || data[2] != 10 {
        Err(PgmError::BadMagic)
    } else {
        match header_scan_spec(data, 3, Seq::empty()) {
            Err(e) => Err(e),
            Ok((ns, off)) => {
                let w = ns[0];
                let h = ns[1];
                let mv = ns[2];
                if mv >= 256 {
                    Err(PgmError::MaxValueTooLarge)
                } else if w + 63 > usize::MAX || padded_stride_spec(w) > isize::MAX as int || h
                    * padded_stride_spec(w) > isize::MAX as int + 1 || w * h > usize::MAX || off
                    + w * h > usize::MAX {
                    Err(PgmError::TooLarge)
                } else if data.len() < off + w * h {
                    Err(PgmError::UnexpectedEnd)
                } else {
                    Ok(
                        PgmHeader {
                            width: w as usize,
                            height: h as usize,
                            maxval: mv as usize,
                            data_start: off as usize,
                        },
                    )
                }
            },
        }
    }
}

fn line_end(data: &Vec<u8>, pos: usize) -> (r: usize)
    requires
        pos <= data@.len(),
    ensures
        r == line_end_spec(data@, pos as int),
        pos <= r <= data@.len(),
        pos < data@.len() ==> r > pos,
    decreases data@.len() - pos,
{
    if pos >= data.len() {
        data.len()
    } else if data[pos] == 10 {
        pos + 1
    } else {
        line_end(data, pos + 1)
    }
}

fn digits_end(data: &Vec<u8>, pos: usize, end: usize) -> (r: usize)
    requires
        end <= data@.len(),
    ensures
        r == digits_end_spec(data@, pos as int, end as int),
        pos <= r <= end || r == pos,
        forall|i: int| pos <= i < r ==> is_digit(data@[i]),
    decreases end - pos,
{
    if pos >= end || !(48 <= data[pos] && data[pos] <= 57) {
        pos
    } else {
        digits_end(data, pos + 1, end)
    }
}

fn digits_val(data: &Vec<u8>, pos: usize, end: usize) -> (r: Option<usize>)
    requires
        pos <= end <= data@.len(),
        forall|i: int| pos <= i < end ==> is_digit(data@[i]),
    ensures
        digits_val_spec(data@, pos as int, end as int) > usize::MAX ==> r is None,
        digits_val_spec(data@, pos as int, end as int) <= usize::MAX ==> r == Some(
            digits_val_spec(data@, pos as int, end as int) as usize,
        ),
    decreases end - pos,
{
    proof {
        lemma_digits_val_nonneg(data@, pos as int, end as int);
    }
    if pos >= end {
        Some(0)
    } else {
        proof {
            lemma_digits_val_nonneg(data@, pos as int, end as int - 1);
        }
        match digits_val(data, pos, end - 1) {
            None => None,
            Some(v) => {
                let d: usize = (data[end - 1] - 48) as usize;
                match v.checked_mul(10) {
                    None => None,
                    Some(v10) => {
                        match v10.checked_add(d) {
                            None => None,
                            Some(out) => Some(out),
                        }
                    },
                }
            },
        }
    }
}

/// A digit-run value never goes negative once any prefix is nonnegative.
proof fn lemma_digits_val_nonneg(data: Seq<u8>, pos: int, end: int)
    requires
        forall|i: int| pos <= i < end ==> is_digit(#[trigger] data[i]),
    ensures
        pos <= end ==> digits_val_spec(data, pos, end) >= 0,
    decreases end - pos,
{
    if pos < end {
        lemma_digits_val_nonneg(data, pos, end - 1);
        assert(digits_val_spec(data, pos, end - 1) * 10 >= 0) by (nonlinear_arith)
            requires
                digits_val_spec(data, pos, end - 1) >= 0,
        ;
    }
}

fn line_nums(data: &Vec<u8>, pos: usize, end: usize, out: &mut Vec<usize>) -> (ok: bool)
    requires
        pos <= end <= data@.len() || pos >= end,
        end <= data@.len(),
    ensures
        ok <==> line_nums_spec(data@, pos as int, end as int) is Some,
        ok ==> as_ints(final(out)@) == as_ints(old(out)@) + line_nums_spec(
            data@,
            pos as int,
            end as int,
        )->Some_0,
    decreases end - pos,
{
    if pos >= end {
        proof {
            assert(as_ints(out@) =~= as_ints(out@) + Seq::<int>::empty());
        }
        return true;
    }
    let b = data[pos];
    if b == 32 || b == 9 || b == 10 || b == 11 || b == 12 || b == 13 {
        line_nums(data, pos + 1, end, out)
    } else if 48 <= b && b <= 57 {
        let e = digits_end(data, pos, end);
        if e < end && !(data[e] == 32 || data[e] == 9 || data[e] == 10 || data[e] == 11 || data[e]
            == 12 || data[e] == 13) {
            return false;
        }
        match digits_val(data, pos, e) {
            None => false,
            Some(v) => {
                out.push(v);
                let ghost mid = out@;
                let ok = line_nums(data, e, end, out);
                proof {
                    if ok {
                        lemma_digits_val_nonneg(data@, pos as int, e as int);
                        assert(as_ints(mid) =~= as_ints(old(out)@) + seq![v as int]);
                        assert(as_ints(final(out)@) =~= as_ints(old(out)@) + (seq![
                            digits_val_spec(data@, pos as int, e as int)]
                            + line_nums_spec(data@, e as int, end as int)->Some_0));
                    }
                }
                ok
            },
        }
    } else {
        false
    }
}

fn header_scan(data: &Vec<u8>, start: usize) -> (r: Result<(Vec<usize>, usize), PgmError>)
    requires
        start <= data@.len(),
    ensures
        match r {
            Ok((ns, off)) => {
                &&& header_scan_spec(data@, start as int, Seq::empty()) == Ok::<_, PgmError>(
                    (as_ints(ns@), off as int),
                )
                &&& ns@.len() == 3
                &&& off <= data@.len()
            },
            Err(e) => header_scan_spec(data@, start as int, Seq::empty()) == Err::<
                (Seq<int>, int),
                _,
            >(e),
        },
{
    let mut nums: Vec<usize> = Vec::new();
    let mut pos = start;
    proof {
        assert(as_ints(nums@) =~= Seq::<int>::empty());
    }
    loop
        invariant
            pos <= data@.len(),
            nums@.len() < 3,
            header_scan_spec(data@, start as int, Seq::empty()) == header_scan_spec(
                data@,
                pos as int,
                as_ints(nums@),
            ),
        decreases data@.len() - pos,
    {
        if pos >= data.len() {
            return Err(PgmError::UnexpectedEnd);
        }
        let e = line_end(data, pos);
        if data[pos] == 35 {
            pos = e;
            continue ;
        }
        let ghost pre = nums@;
        let ok = line_nums(data, pos, e, &mut nums);
        if !ok {
            return Err(PgmError::BadNumber);
        }
        if nums.len() < 3 {
            pos = e;
        } else if nums.len() == 3 {
            proof {
                assert(as_ints(nums@).len() == 3);
            }
            return Ok((nums, e));
        } else {
            return Err(PgmError::BadFormat);
        }
    }
}

/// Parses a raw grayscale container into an image whose rows are padded
/// to a 64-cell stride, exactly when the bytes are well formed; otherwise
/// reports precisely what is wrong.
pub fn parse_pgm(data: &Vec<u8>) -> (r: Result<Image<u8>, PgmError>)
    ensures
        r is Ok <==> pgm_parse_spec(data@) is Ok,
        r is Err ==> r->Err_0 == pgm_parse_spec(data@)->Err_0,
        r is Ok ==> {
            let img = r->Ok_0;
            let hd = pgm_parse_spec(data@)->Ok_0;
            &&& img.wf()
            &&& img.width == hd.width
            &&& img.height == hd.height
            &&& img.row_stride == padded_stride_spec(hd.width as int)
            &&& forall|y: int, x: int|
                0 <= y < img.height && 0 <= x < img.width ==> #[trigger] img.grid()[y][x]
                    == data@[hd.data_start + y * img.width + x]
        },
{
    if data.len() < 3 || data[0] != 80 || data[1] != 53 || data[2] != 10 {
        return Err(PgmError::BadMagic);
    }
    let (nums, off) = match header_scan(data, 3) {
        Ok(p) => p,
        Err(e) => {
            return Err(e);
        },
    };
    let w = nums[0];
    let h = nums[1];
    let mv = nums[2];
    if mv >= 256 {
        return Err(PgmError::MaxValueTooLarge);
    }
    let w63 = match w.checked_add(63) {
        Some(v) => v,
        None => {
            return Err(PgmError::TooLarge);
        },
    };
    proof {
        crate::strided::lemma_div_mul_le(w63 as int, 64);
    }
    let stride = (w63 / 64) * 64;
    if stride > isize::MAX as usize {
        return Err(PgmError::TooLarge);
    }
    let hs = match h.checked_mul(stride) {
        Some(v) => {
            if v <= (isize::MAX as usize) + 1 {
                v
            } else {
                return Err(PgmError::TooLarge);
            }
        },
        None => {
            return Err(PgmError::TooLarge);
        },
    };
    let wh = match w.checked_mul(h) {
        Some(v) => v,
        None => {
            return Err(PgmError::TooLarge);
        },
    };
    let need = match off.checked_add(wh) {
        Some(v) => v,
        None => {
            return Err(PgmError::TooLarge);
        },
    };
    if data.len() < need {
        return Err(PgmError::UnexpectedEnd);
    }
    proof {
        vstd::arithmetic::div_mod::lemma_fundamental_div_mod(w63 as int, 64);
        assert((w63 as int / 64) * 64 == 64 * (w63 as int / 64)) by (nonlinear_arith);
        assert(stride >= w);
        assert(w * h == h * w) by (nonlinear_arith);
    }
    let mut img: Image<u8> = Image::with_stride_and_value(w, h, stride, 0);
    let mut y: usize = 0;
    while y < h
        invariant
            img.wf(),
            img.width == w,
            img.height == h,
            img.row_stride == stride,
            y <= h,
            w * h <= usize::MAX,
            off + w * h <= usize::MAX,
            off + w * h <= data@.len(),
            forall|yy: int, x: int|
                0 <= yy < y && 0 <= x < w ==> #[trigger] img.grid()[yy][x] == data@[off + yy * w
                    + x],
        decreases h - y,
    {
        let mut x: usize = 0;
        proof {
            assert(y * w + w <= w * h) by (nonlinear_arith)
                requires
                    y < h,
                    w >= 0,
            ;
            assert(y * w >= 0) by (nonlinear_arith)
                requires
                    y >= 0,
                    w >= 0,
            ;
        }
        let rowbase = off + y * w;
        while x < w
            invariant
                img.wf(),
                img.width == w,
                img.height == h,
                img.row_stride == stride,
                y < h,
                x <= w,
                w * h <= usize::MAX,
                off + w * h <= usize::MAX,
                off + w * h <= data@.len(),
                rowbase == off + y * w,
                y * w + w <= w * h,
                rowbase + w <= data@.len(),
                forall|yy: int, xx: int|
                    0 <= yy < y && 0 <= xx < w ==> #[trigger] img.grid()[yy][xx] == data@[off + yy
                        * w + xx],
                forall|xx: int|
                    0 <= xx < x ==> #[trigger] img.grid()[y as int][xx] == data@[rowbase + xx],
            decreases w - x,
        {
            let v = data[rowbase + x];
            img.set(x, y, v);
            x += 1;
        }
        proof {
            assert((y + 1) * w == y * w + w) by (nonlinear_arith);
        }
        y += 1;
    }
    Ok(img)
}

/// The decimal digits of `n`, most significant first.
pub open spec fn dec_digits_spec(n: int) -> Seq<u8>
    decreases n,
{
    if n < 10 {
        seq![(48 + if n >= 0 {
            n
        } else {
            0
        }) as u8]
    } else {
        dec_digits_spec(n / 10).push((48 + n % 10) as u8)
    }
}

/// Appends the decimal digits of `n`.
fn push_decimal(out: &mut Vec<u8>, n: usize)
    ensures
        final(out)@ == old(out)@ + dec_digits_spec(n as int),
    decreases n,
{
    if n < 10 {
        out.push((48 + n) as u8);
        proof {
            assert(final(out)@ =~= old(out)@ + dec_digits_spec(n as int));
        }
    } else {
        push_decimal(out, n / 10);
        out.push((48 + (n % 10)) as u8);
        proof {
            assert(final(out)@ =~= old(out)@ + dec_digits_spec(n as int));
        }
    }
}

/// The header bytes a written container carries for a `w` by `h` image:
/// the magic token line, the two dimensions, and a maximum sample value
/// fixed at 255.
pub open spec fn pgm_header_bytes_spec(w: int, h: int) -> Seq<u8> {
    seq![80u8, 53u8, 10u8] + dec_digits_spec(w) + seq![32u8] + dec_digits_spec(h) + seq![
        10u8,
        50u8,
        53u8,
        53u8,
        10u8,
    ]
}

/// Serializes an image into the raw grayscale container: header, then the
/// samples row-major with the internal row padding dropped.
pub fn pgm_bytes(img: &Image<u8>) -> (r: Vec<u8>)
    requires
        img.wf(),
    ensures
        ({
            let hd = pgm_header_bytes_spec(img.width as int, img.height as int);
            &&& r@.len() == hd.len() + img.width * img.height
            &&& r@.subrange(0, hd.len() as int) == hd
            &&& forall|y: int, x: int|
                0 <= y < img.height && 0 <= x < img.width ==> r@[hd.len() + y * img.width + x]
                    == img.grid()[y][x]
        }),
{
    let ghost hd = pgm_header_bytes_spec(img.width as int, img.height as int);
    let mut out: Vec<u8> = Vec::new();
    out.push(80);
    out.push(53);
    out.push(10);
    push_decimal(&mut out, img.width);
    out.push(32);
    push_decimal(&mut out, img.height);
    out.push(10);
    out.push(50);
    out.push(53);
    out.push(53);
    out.push(10);
    proof {
        assert(out@ =~= hd);
        assert(img.width * img.height >= 0) by (nonlinear_arith)
            requires
                img.width >= 0,
                img.height >= 0,
        ;
    }
    let hlen = out.len();
    let w = img.width;
    let h = img.height;
    let mut y: usize = 0;
    while y < h
        invariant
            img.wf(),
            w == img.width,
            h == img.height,
            y <= h,
            hlen == hd.len(),
            out@.len() == hlen + y * w,
            out@.subrange(0, hlen as int) == hd,
            forall|yy: int, x: int|
                0 <= yy < y && 0 <= x < w ==> #[trigger] out@[hlen + yy * w + x]
                    == img.grid()[yy][x],
        decreases h - y,
    {
        proof {
            assert(y * w + w <= h * w && y * w >= 0 && h * w == w * h) by (nonlinear_arith)
                requires
                    y < h,
                    w >= 0,
                    h >= 0,
            ;
        }
        let mut x: usize = 0;
        while x < w
            invariant
                img.wf(),
                w == img.width,
                h == img.height,
                y < h,
                x <= w,
                hlen == hd.len(),
                y * w + w <= w * h,
                y * w >= 0,
                out@.len() == hlen + y * w + x,
                out@.subrange(0, hlen as int) == hd,
                forall|yy: int, xx: int|
                    0 <= yy < y && 0 <= xx < w ==> #[trigger] out@[hlen + yy * w + xx]
                        == img.grid()[yy][xx],
                forall|xx: int|
                    0 <= xx < x ==> #[trigger] out@[hlen + y * w + xx] == img.grid()[y as int][xx],
            decreases w - x,
        {
            let v = img.get(x, y);
            let ghost pre = out@;
            out.push(v);
            proof {
                assert(out@.subrange(0, hlen as int) =~= hd);
                assert forall|yy: int, xx: int|
                    0 <= yy < y && 0 <= xx < w implies #[trigger] out@[hlen + yy * w + xx]
                    == img.grid()[yy][xx] by {
                    assert(yy * w + xx < y * w) by (nonlinear_arith)
                        requires
                            0 <= yy < y,
                            0 <= xx < w,
                    ;
                    assert(out@[hlen + yy * w + xx] == pre[hlen + yy * w + xx]);
                }
            }
            x += 1;
        }
        proof {
            assert((y + 1) * w == y * w + w) by (nonlinear_arith);
        }
        y += 1;
    }
    proof {
        assert(h * w == w * h) by (nonlinear_arith);
    }
    out
}

} // verus!

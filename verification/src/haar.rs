//! The Haar wavelet as a reversible integer lifting step (the S transform),
//! and its lossy narrow-width variant.

use crate::dwt::clamp_i16;
use crate::dwt::clamp_spec;
use crate::dwt::div_trunc;
use crate::dwt::div_trunc_i16;
use crate::dwt::lemma_lift0_roundtrip;
use crate::dwt::pair_roundtrip;
use crate::dwt::seq_roundtrip1;
use crate::dwt::Dwt0;
use vstd::prelude::*;

verus! {

/// The reversible Haar kernel: `high = b - a`, `low = a + high / 2`, all
/// arithmetic wrapping and the halving truncated toward zero, so that the
/// inverse reconstructs both samples exactly.
pub struct Haar;

impl Dwt0<i16> for Haar {
    open spec fn dwt0_spec(&self, a: i16, b: i16) -> (i16, i16) {
        let h = b.wrapping_sub(a);
        let l = a.wrapping_add(div_trunc(h as int, 2) as i16);
        (l, h)
    }

    open spec fn idwt0_spec(&self, l: i16, h: i16) -> (i16, i16) {
        let a = l.wrapping_sub(div_trunc(h as int, 2) as i16);
        let b = a.wrapping_add(h);
        (a, b)
    }

    fn dwt0(&self, a: i16, b: i16) -> (r: (i16, i16)) {
        let h = b.wrapping_sub(a);
        let l = a.wrapping_add(div_trunc_i16(h, 2));
        (l, h)
    }

    fn idwt0(&self, l: i16, h: i16) -> (r: (i16, i16)) {
        let a = l.wrapping_sub(div_trunc_i16(h, 2));
        let b = a.wrapping_add(h);
        (a, b)
    }
}

impl Dwt0<i8> for Haar {
    open spec fn dwt0_spec(&self, a: i8, b: i8) -> (i8, i8) {
        let h = b.wrapping_sub(a);
        let l = a.wrapping_add(div_trunc(h as int, 2) as i8);
        (l, h)
    }

    open spec fn idwt0_spec(&self, l: i8, h: i8) -> (i8, i8) {
        let a = l.wrapping_sub(div_trunc(h as int, 2) as i8);
        let b = a.wrapping_add(h);
        (a, b)
    }

    fn dwt0(&self, a: i8, b: i8) -> (r: (i8, i8)) {
        let h = b.wrapping_sub(a);
        let hd = div_trunc_i16(h as i16, 2);
        let l = a.wrapping_add(hd as i8);
        (l, h)
    }

    fn idwt0(&self, l: i8, h: i8) -> (r: (i8, i8)) {
        let hd = div_trunc_i16(h as i16, 2);
        let a = l.wrapping_sub(hd as i8);
        let b = a.wrapping_add(h);
        (a, b)
    }
}

/// The Haar kernel with a lossy halved high band at 8 bits: the high
/// coefficient is halved (and so cannot be reconstructed exactly), and the
/// inverse saturates instead of wrapping.
pub struct LossyHaar;

impl Dwt0<i8> for LossyHaar {
    open spec fn dwt0_spec(&self, a: i8, b: i8) -> (i8, i8) {
        let h = clamp_spec(div_trunc(b - a, 2), -128, 127) as i8;
        let l = a.wrapping_add(h);
        (l, h)
    }

    open spec fn idwt0_spec(&self, l: i8, h: i8) -> (i8, i8) {
        let a = clamp_spec(l - h, -128, 127) as i8;
        let b0 = clamp_spec(a + h, -128, 127) as i8;
        let b = clamp_spec(b0 + h, -128, 127) as i8;
        (a, b)
    }

    fn dwt0(&self, a: i8, b: i8) -> (r: (i8, i8)) {
        let h16 = (b as i16) - (a as i16);
        let h16 = div_trunc_i16(h16, 2);
        let h = clamp_i16(h16, -128, 127) as i8;
        let l = a.wrapping_add(h);
        (l, h)
    }

    fn idwt0(&self, l: i8, h: i8) -> (r: (i8, i8)) {
        let a = clamp_i16((l as i16) - (h as i16), -128, 127) as i8;
        let b0 = clamp_i16((a as i16) + (h as i16), -128, 127) as i8;
        let b = clamp_i16((b0 as i16) + (h as i16), -128, 127) as i8;
        (a, b)
    }
}

impl Dwt0<i16> for LossyHaar {
    open spec fn dwt0_spec(&self, a: i16, b: i16) -> (i16, i16) {
        let h = b.wrapping_sub(a);
        let l = a.wrapping_add(div_trunc(h as int, 2) as i16);
        (l, h)
    }

    open spec fn idwt0_spec(&self, l: i16, h: i16) -> (i16, i16) {
        let a = l.wrapping_sub(div_trunc(h as int, 2) as i16);
        let b = a.wrapping_add(h);
        (a, b)
    }

    fn dwt0(&self, a: i16, b: i16) -> (r: (i16, i16)) {
        let h = b.wrapping_sub(a);
        let l = a.wrapping_add(div_trunc_i16(h, 2));
        (l, h)
    }

    fn idwt0(&self, l: i16, h: i16) -> (r: (i16, i16)) {
        let a = l.wrapping_sub(div_trunc_i16(h, 2));
        let b = a.wrapping_add(h);
        (a, b)
    }
}

/// Round-trip law for the Haar kernel at 16 bits: the inverse undoes the
/// forward step on every sample pair, and therefore the lifted transform
/// undoes itself on every even-length sequence.
pub proof fn lemma_haar_roundtrip_i16()
    ensures
        pair_roundtrip::<i16, Haar>(Haar),
        seq_roundtrip1::<i16, Haar>(Haar),
{
    assert forall|x: i16, y: i16| #[trigger]
        Haar.dwt0_spec(x, y) == Haar.dwt0_spec(x, y) implies Haar.idwt0_spec(
        Haar.dwt0_spec(x, y).0,
        Haar.dwt0_spec(x, y).1,
    ) == (x, y) by {}
    assert(pair_roundtrip::<i16, Haar>(Haar));
    lemma_lift0_roundtrip::<i16, Haar>(Haar);
}

/// Round-trip law for the Haar kernel at 8 bits.
pub proof fn lemma_haar_roundtrip_i8()
    ensures
        pair_roundtrip::<i8, Haar>(Haar),
        seq_roundtrip1::<i8, Haar>(Haar),
{
    assert forall|x: i8, y: i8| #[trigger]
        Haar.dwt0_spec(x, y) == Haar.dwt0_spec(x, y) implies Haar.idwt0_spec(
        Haar.dwt0_spec(x, y).0,
        Haar.dwt0_spec(x, y).1,
    ) == (x, y) by {}
    assert(pair_roundtrip::<i8, Haar>(Haar));
    lemma_lift0_roundtrip::<i8, Haar>(Haar);
}

} // verus!

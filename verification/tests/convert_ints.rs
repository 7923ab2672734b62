use liftgrid::Convert;

#[test]
fn foo() {
    assert_eq!(Convert::<i8>::convert(&128u8), 0i8);
    assert_eq!(Convert::<i8>::convert(&130i16), 127i8);
}

#[test]
fn bias_roundtrip() {
    for x in [-128i8, -1, 0, 1, 127] {
        let u: u8 = Convert::<u8>::convert(&x);
        let back: i8 = Convert::<i8>::convert(&u);
        assert_eq!(back, x);
    }
    assert_eq!(Convert::<u8>::convert(&0i8), 128u8);
    assert_eq!(Convert::<u16>::convert(&-32768i16), 0u16);
    assert_eq!(Convert::<i16>::convert(&0u16), -32768i16);
}

#[test]
fn saturating_narrow() {
    assert_eq!(Convert::<i8>::convert(&-129i16), -128i8);
    assert_eq!(Convert::<i8>::convert(&127i16), 127i8);
    assert_eq!(Convert::<u8>::convert(&256u16), 255u8);
    assert_eq!(Convert::<u8>::convert(&255u16), 255u8);
    assert_eq!(Convert::<i16>::convert(&(1i64 << 40)), 32767i16);
}

#[test]
fn widen_with_bias() {
    // The unsigned byte 0 is the most negative centered value.
    assert_eq!(Convert::<i16>::convert(&0u8), -128i16);
    assert_eq!(Convert::<i16>::convert(&255u8), 127i16);
    assert_eq!(Convert::<u16>::convert(&-128i8), 0u16);
    // Narrowing through the bias saturates at the byte range.
    assert_eq!(Convert::<u8>::convert(&200i16), 255u8);
    assert_eq!(Convert::<u8>::convert(&-32768i16), 0u8);
    assert_eq!(Convert::<u8>::convert(&100i16), 255u8);
    assert_eq!(Convert::<u8>::convert(&-32668i16), 100u8);
}

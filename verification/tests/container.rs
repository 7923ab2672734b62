use liftgrid::Image;
use liftgrid::pgm::PgmError;
use liftgrid::pgm::parse_pgm;
use liftgrid::pgm::pgm_bytes;

fn sample() -> Vec<u8> {
    let mut d = b"P5\n# comment\n3 2\n255\n".to_vec();
    d.extend_from_slice(&[10, 20, 30, 40, 50, 60]);
    d
}

#[test]
fn parse_well_formed() {
    let img = parse_pgm(&sample()).unwrap();
    assert_eq!(img.width, 3);
    assert_eq!(img.height, 2);
    assert_eq!(img.get(0, 0), 10);
    assert_eq!(img.get(2, 0), 30);
    assert_eq!(img.get(0, 1), 40);
    assert_eq!(img.get(2, 1), 60);
}

#[test]
fn parse_split_header_lines() {
    let mut d = b"P5\n3\n2 255\n".to_vec();
    d.extend_from_slice(&[1, 2, 3, 4, 5, 6]);
    let img = parse_pgm(&d).unwrap();
    assert_eq!(img.width, 3);
    assert_eq!(img.height, 2);
}

#[test]
fn parse_bad_magic() {
    assert_eq!(parse_pgm(&b"P6\n1 1 255\n0".to_vec()).unwrap_err(), PgmError::BadMagic);
    assert_eq!(parse_pgm(&b"".to_vec()).unwrap_err(), PgmError::BadMagic);
    assert_eq!(parse_pgm(&b"P5".to_vec()).unwrap_err(), PgmError::BadMagic);
}

#[test]
fn parse_unexpected_end() {
    assert_eq!(parse_pgm(&b"P5\n3 2\n".to_vec()).unwrap_err(), PgmError::UnexpectedEnd);
    let mut d = b"P5\n3 2\n255\n".to_vec();
    d.extend_from_slice(&[1, 2, 3]);
    assert_eq!(parse_pgm(&d).unwrap_err(), PgmError::UnexpectedEnd);
}

#[test]
fn parse_bad_number() {
    assert_eq!(parse_pgm(&b"P5\n3 x\n255\n".to_vec()).unwrap_err(), PgmError::BadNumber);
    assert_eq!(
        parse_pgm(&b"P5\n99999999999999999999 1\n255\n".to_vec()).unwrap_err(),
        PgmError::BadNumber
    );
}

#[test]
fn parse_bad_format() {
    assert_eq!(parse_pgm(&b"P5\n3 2 255 9\n".to_vec()).unwrap_err(), PgmError::BadFormat);
}

#[test]
fn parse_max_value_too_large() {
    assert_eq!(
        parse_pgm(&b"P5\n3 2\n256\nxxxxxx".to_vec()).unwrap_err(),
        PgmError::MaxValueTooLarge
    );
}

#[test]
fn parse_too_large() {
    let d = b"P5\n4294967295 4294967295\n255\n".to_vec();
    assert_eq!(parse_pgm(&d).unwrap_err(), PgmError::TooLarge);
}

#[test]
fn bytes_roundtrip() {
    let mut img: Image<u8> = Image::with_stride(3, 2, 67);
    let mut v = 9u8;
    for y in 0..2 {
        for x in 0..3 {
            img.set(x, y, v);
            v += 7;
        }
    }
    let bytes = pgm_bytes(&img);
    assert_eq!(&bytes[..11], b"P5\n3 2\n255\n");
    let back = parse_pgm(&bytes).unwrap();
    assert_eq!(back.width, 3);
    assert_eq!(back.height, 2);
    for y in 0..2 {
        for x in 0..3 {
            assert_eq!(back.get(x, y), img.get(x, y));
        }
    }
}

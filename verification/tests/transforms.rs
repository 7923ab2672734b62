use liftgrid::Daub53;
use liftgrid::Dwt1;
use liftgrid::Dwt2;
use liftgrid::Haar;
use liftgrid::Image;
use liftgrid::LossyHaar;
use liftgrid::Predict;
use liftgrid::daub::decode;
use liftgrid::daub::encode;
use liftgrid::daub::scale_down;
use liftgrid::daub::scale_up;
use liftgrid::dwt::Dwt0;
use liftgrid::forward_pyramid;
use liftgrid::inverse_pyramid;
use liftgrid::LossyDaub53;

#[test]
fn haar_pair_scenario() {
    // Haar forward on (10, 14) at 8 bits: high = 4, low = 10 + 4 / 2 = 12.
    let (l, h) = Haar.dwt0(10i8, 14i8);
    assert_eq!(h, 4);
    assert_eq!(l, 12);
    // Inverse on (12, 4): a = 12 - 4 / 2 = 10, b = 10 + 4 = 14.
    let (a, b) = Haar.idwt0(12i8, 4i8);
    assert_eq!(a, 10);
    assert_eq!(b, 14);
}

#[test]
fn haar_roundtrip_sequences() {
    let inputs: Vec<Vec<i16>> = vec![
        vec![],
        vec![10, 14],
        vec![0, 1, 2, 3, 4, 5, 6, 7],
        vec![-32768, 32767, 100, -100, 7, 7, 0, -1],
    ];
    for input in inputs {
        let mut sig = input.clone();
        let mut tmp = vec![0i16; input.len()];
        Haar.dwt1_slice(&mut sig, &mut tmp);
        Haar.idwt1_slice(&mut sig, &mut tmp);
        assert_eq!(sig, input);
    }
    let mut sig8: Vec<i8> = vec![3, -7, 127, -128, 0, 55];
    let orig8 = sig8.clone();
    let mut tmp8 = vec![0i8; 6];
    Haar.dwt1_slice(&mut sig8, &mut tmp8);
    Haar.idwt1_slice(&mut sig8, &mut tmp8);
    assert_eq!(sig8, orig8);
}

#[test]
fn daub_roundtrip_sequences() {
    let inputs: Vec<Vec<i16>> = vec![
        vec![],
        vec![10, 14],
        vec![5, 9, 1, 0, -3, 200, 7, 7, 1000, -1000],
        vec![-32768, 32767, 100, -100, 7, 7, 0, -1],
    ];
    for input in inputs {
        let mut sig = input.clone();
        let mut tmp = vec![0i16; input.len()];
        Daub53.dwt1_slice(&mut sig, &mut tmp);
        Daub53.idwt1_slice(&mut sig, &mut tmp);
        assert_eq!(sig, input);
    }
    let mut sig8: Vec<i8> = vec![3, -7, 127, -128, 0, 55, 4, 4];
    let orig8 = sig8.clone();
    let mut tmp8 = vec![0i8; 8];
    Daub53.dwt1_slice(&mut sig8, &mut tmp8);
    Daub53.idwt1_slice(&mut sig8, &mut tmp8);
    assert_eq!(sig8, orig8);
}

#[test]
fn predict_roundtrip_sequences() {
    let inputs: Vec<Vec<i16>> = vec![
        vec![],
        vec![5, 9, 1, 0, -3, 200, 7, 7, 1000, -1000],
        vec![-32768, 32767, 100, -100, 7, 7, 0, -1],
    ];
    for input in inputs {
        let mut sig = input.clone();
        let mut tmp = vec![0i16; input.len()];
        Predict(Daub53).dwt1_slice(&mut sig, &mut tmp);
        Predict(Daub53).idwt1_slice(&mut sig, &mut tmp);
        assert_eq!(sig, input);
        let mut sig2 = input.clone();
        Predict(Haar).dwt1_slice(&mut sig2, &mut tmp);
        Predict(Haar).idwt1_slice(&mut sig2, &mut tmp);
        assert_eq!(sig2, input);
    }
}

#[test]
fn haar_forward_layout() {
    // Lows fill the first half, highs the second, an odd tail stays.
    let mut sig: Vec<i16> = vec![10, 14, 20, 26, 99];
    let mut tmp = vec![0i16; 5];
    Haar.dwt1_slice(&mut sig, &mut tmp);
    assert_eq!(sig, vec![12, 23, 4, 6, 99]);
}

#[test]
fn lossy_haar_bounded_error() {
    for a in [-128i8, -100, -3, 0, 1, 17, 127] {
        for b in [-128i8, -90, -1, 0, 2, 88, 127] {
            let (l, h) = LossyHaar.dwt0(a, b);
            let (a2, b2) = LossyHaar.idwt0(l, h);
            // The halved high band loses at most one unit per step here.
            assert!((a as i16 - a2 as i16).abs() <= 1);
            assert!((b as i16 - b2 as i16).abs() <= 3);
        }
    }
}

#[test]
fn compander_bound() {
    // |decode(encode(x)) - x| <= n - 1 = 2 for the fixed 64/3 compander.
    for x in [-3000i16, -500, -65, -64, -63, -1, 0, 1, 63, 64, 65, 66, 500, 3000] {
        let y = decode(encode(x));
        assert!((x as i32 - y as i32).abs() <= 2);
    }
    assert_eq!(encode(64), 64);
    assert_eq!(encode(67), 65);
    assert_eq!(decode(65), 67);
    for x in [-900i16, -70, 0, 70, 900] {
        let d = scale_down(x, 64, 3);
        let u = scale_up(d, 64, 3);
        assert!((x as i32 - u as i32).abs() <= 2);
    }
}

#[test]
fn dwt2_roundtrip_grid() {
    let mut img: Image<i16> = Image::with_value(4, 4, 0);
    let vals = [
        [10, 14, 3, -9],
        [0, 7, 7, 1],
        [100, -100, 50, 2],
        [1, 2, 3, 4],
    ];
    for y in 0..4 {
        for x in 0..4 {
            img.set(x, y, vals[y][x]);
        }
    }
    let mut tmp: Image<i16> = Image::with_value(4, 4, 0);
    let m = img.as_matrix();
    let tm = tmp.as_matrix();
    Daub53.dwt2(&m, &mut img.data, &tm, &mut tmp.data);
    Daub53.idwt2(&m, &mut img.data, &tm, &mut tmp.data);
    for y in 0..4 {
        for x in 0..4 {
            assert_eq!(img.get(x, y), vals[y][x]);
        }
    }
}

#[test]
fn pyramid_roundtrip_levels() {
    // An 8 by 8 grid survives three levels: quadrants 8, 4 and 2 are all even.
    let mut img: Image<i16> = Image::with_value(8, 8, 0);
    for y in 0..8usize {
        for x in 0..8usize {
            img.set(x, y, (y as i16) * 31 - (x as i16) * 17 + ((x * y) % 5) as i16);
        }
    }
    let reference: Vec<i16> = img.data.clone();
    let mut tmp: Image<i16> = Image::with_value(8, 8, 0);
    forward_pyramid(&Daub53, &mut img, &mut tmp, 3);
    assert_ne!(img.data, reference);
    inverse_pyramid(&Daub53, &mut img, &mut tmp, 3);
    assert_eq!(img.data, reference);

    forward_pyramid(&Predict(Haar), &mut img, &mut tmp, 2);
    inverse_pyramid(&Predict(Haar), &mut img, &mut tmp, 2);
    assert_eq!(img.data, reference);
}

#[test]
fn lossy_daub_bounded() {
    // The companded high band reconstructs within a small bounded error.
    let input: Vec<i8> = vec![10, 14, 3, -9, 0, 7, 7, 1, 100, -100, 50, 2];
    let mut sig = input.clone();
    let mut tmp = vec![0i8; input.len()];
    LossyDaub53.dwt1_slice(&mut sig, &mut tmp);
    LossyDaub53.idwt1_slice(&mut sig, &mut tmp);
    for (a, b) in input.iter().zip(sig.iter()) {
        assert!((*a as i32 - *b as i32).abs() <= 48);
    }
}

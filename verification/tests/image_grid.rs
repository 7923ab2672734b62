use liftgrid::Image;

#[test]
fn set() {
    let mut image: Image<i32> = Image::with_stride(2, 2, 12);
    image.set(0, 0, 1);
    image.set(0, 1, 2);
    image.set(1, 0, 3);
    image.set(1, 1, 4);

    for y in 0..2 {
        for x in 0..2 {
            let value = image.get(x, y);
            match (x, y) {
                (0, 0) => assert_eq!(value, 1),
                (0, 1) => assert_eq!(value, 2),
                (1, 0) => assert_eq!(value, 3),
                (1, 1) => assert_eq!(value, 4),
                _ => (),
            }
        }
    }
}

#[test]
fn empty() {
    let images: Vec<Image<u8>> = vec![
        Image::new(0, 0),
        Image::new(1, 0),
        Image::new(0, 1),
        Image::with_stride(0, 0, 1),
        Image::with_stride(1, 0, 1),
        Image::with_stride(0, 1, 1),
    ];
    for image in images {
        assert_eq!(image.size(), 0);
    }
}

#[test]
fn oob() {
    let image: Image<u8> = Image::new(10, 10);
    assert!(image.checked_get(10, 0).is_none());
    assert!(image.checked_get(0, 10).is_none());
    assert!(image.checked_get(10, 10).is_none());
    let view = image.view();
    assert!(view.checked_get(&image.data, 10, 0).is_none());
    assert!(view.checked_get(&image.data, 0, 10).is_none());
    assert!(view.checked_get(&image.data, 10, 10).is_none());
    assert!(view.checked_row(10).is_none());
    assert!(view.checked_col(10).is_none());
    assert!(view.checked_row(9).is_some());
    assert!(view.checked_col(9).is_some());
}

#[test]
fn subview_clips() {
    let mut image: Image<i32> = Image::with_value(4, 3, 0);
    for y in 0..3 {
        for x in 0..4 {
            image.set(x, y, (10 * y + x) as i32);
        }
    }
    let v = image.subview(1, 1, 2, 2);
    assert_eq!(v.height(), 2);
    assert_eq!(v.width(), 2);
    assert_eq!(v.get(&image.data, 0, 0), 11);
    assert_eq!(v.get(&image.data, 1, 1), 22);

    let clipped = image.subview(3, 2, 10, 10);
    assert_eq!(clipped.width(), 1);
    assert_eq!(clipped.height(), 1);
    assert_eq!(clipped.get(&image.data, 0, 0), 23);

    let empty = image.subview(9, 9, 2, 2);
    assert_eq!(empty.width(), 0);
    assert_eq!(empty.height(), 0);
}

#[test]
fn rows_and_cols() {
    let mut image: Image<i32> = Image::with_stride(3, 2, 5);
    for y in 0..2 {
        for x in 0..3 {
            image.set(x, y, (10 * y + x) as i32);
        }
    }
    assert_eq!(image.row(1).to_vec(&image.data), vec![10, 11, 12]);
    assert_eq!(image.col(2).to_vec(&image.data), vec![2, 12]);
    let view = image.view();
    let rows = view.rows();
    assert_eq!(rows.len(), 2);
    assert_eq!(rows[0].to_vec(&image.data), vec![0, 1, 2]);
    let cols = view.cols();
    assert_eq!(cols.len(), 3);
    assert_eq!(cols[1].to_vec(&image.data), vec![1, 11]);
}

use liftgrid::Strided;

fn seq_of(v: &Vec<i32>, s: &Strided) -> Vec<i32> {
    s.to_vec(v)
}

#[test]
fn access() {
    let array: Vec<i32> = vec![1, 3, 6, 8];
    let mut array_mut: Vec<i32> = vec![1, 3, 6, 8];
    let slice = Strided::contiguous(4);
    let slice_mut = Strided::contiguous(4);

    assert_eq!(slice.checked_get(&array, 0), Some(1));
    assert_eq!(slice.checked_get(&array, 1), Some(3));
    assert_eq!(slice.checked_get(&array, 2), Some(6));
    assert_eq!(slice.checked_get(&array, 3), Some(8));
    assert_eq!(slice.checked_get(&array, 4), None);
    assert_eq!(slice.get(&array, 0), 1);
    assert_eq!(slice.get(&array, 1), 3);
    assert_eq!(slice.get(&array, 2), 6);
    assert_eq!(slice.get(&array, 3), 8);

    assert_eq!(slice_mut.checked_get(&array_mut, 0), Some(1));
    assert_eq!(slice_mut.checked_get(&array_mut, 1), Some(3));
    assert_eq!(slice_mut.checked_get(&array_mut, 2), Some(6));
    assert_eq!(slice_mut.checked_get(&array_mut, 3), Some(8));
    assert_eq!(slice_mut.checked_get(&array_mut, 4), None);
    assert_eq!(slice_mut.get(&array_mut, 0), 1);
    assert_eq!(slice_mut.get(&array_mut, 1), 3);
    assert_eq!(slice_mut.get(&array_mut, 2), 6);
    assert_eq!(slice_mut.get(&array_mut, 3), 8);

    slice_mut.store(&mut array_mut, 1, 12);
    slice_mut.store(&mut array_mut, 2, 14);
    slice_mut.store(&mut array_mut, 3, 17);
    assert_eq!(seq_of(&array_mut, &slice_mut), vec![1, 12, 14, 17]);

    slice_mut.store(&mut array_mut, 0, 23);
    slice_mut.store(&mut array_mut, 1, 26);
    slice_mut.store(&mut array_mut, 2, 27);
    assert_eq!(seq_of(&array_mut, &slice_mut), vec![23, 26, 27, 17]);
}

#[test]
fn partial() {
    let array: Vec<i32> = vec![0, 1, 2, 3, 4, 5, 6, 7, 8, 9];
    let slice = Strided::contiguous(10);

    let cases: Vec<(usize, usize, isize, Vec<i32>)> = vec![
        (0, 0, 1, vec![]),
        (0, 2, 3, vec![0, 3]),
        (1, 3, 2, vec![1, 3, 5]),
        (1, 3, -2, vec![9, 7, 5]),
        (1, 5, 2, vec![1, 3, 5, 7, 9]),
        (1, 5, -2, vec![9, 7, 5, 3, 1]),
        (10, 1, 1, vec![]),
        (1, 10, 2, vec![1, 3, 5, 7, 9]),
        (1, 10, -2, vec![9, 7, 5, 3, 1]),
        (100, 10, -2, vec![]),
        (usize::MAX, 10, 1, vec![]),
        (1, 10, isize::MAX, vec![1]),
        (1, 10, isize::MIN, vec![9]),
    ];
    for (start, len, step, reference) in cases {
        assert_eq!(seq_of(&array, &slice.partial(start, len, step)), reference);
        if step != 0 {
            assert_eq!(seq_of(&array, &slice.partial_mut(start, len, step)), reference);
        }
    }
}

#[test]
fn split_at() {
    let array: Vec<i32> = vec![0, 1, 2, 3];
    let slice = Strided::contiguous(4);
    let whole: Vec<i32> = vec![0, 1, 2, 3];

    for i in 0..=4usize {
        let (a, b) = slice.split_at(i);
        assert_eq!(seq_of(&array, &a), whole[..i].to_vec());
        assert_eq!(seq_of(&array, &b), whole[i..].to_vec());

        let (a, b) = slice.split_at_mut(i);
        assert_eq!(seq_of(&array, &a), whole[..i].to_vec());
        assert_eq!(seq_of(&array, &b), whole[i..].to_vec());

        let (a, b) = slice.into_split_at(i);
        assert_eq!(seq_of(&array, &a), whole[..i].to_vec());
        assert_eq!(seq_of(&array, &b), whole[i..].to_vec());

        let p = slice.checked_split_at(i).unwrap();
        assert_eq!(seq_of(&array, &p.0), whole[..i].to_vec());
        assert_eq!(seq_of(&array, &p.1), whole[i..].to_vec());
    }

    assert!(slice.checked_split_at(5).is_none());
    assert!(slice.checked_split_at_mut(5).is_none());
}

fn grid_of(v: &Vec<i32>, s: &Strided) -> Vec<Vec<i32>> {
    s.to_vecs(v)
}

#[test]
fn chunk() {
    let array: Vec<i32> = vec![0, 1, 2, 3, 4, 5, 6, 7, 8, 9];
    let slice = Strided::contiguous(10);

    let (chunks, remainder) = slice.as_chunks(3);
    assert_eq!(grid_of(&array, &chunks), vec![vec![0, 1, 2], vec![3, 4, 5], vec![6, 7, 8]]);
    assert_eq!(seq_of(&array, &remainder), vec![9]);

    let (chunks, remainder) = slice.as_chunks_mut(3);
    assert_eq!(grid_of(&array, &chunks), vec![vec![0, 1, 2], vec![3, 4, 5], vec![6, 7, 8]]);
    assert_eq!(seq_of(&array, &remainder), vec![9]);

    let (chunks, remainder) = slice.as_chunks(2);
    assert_eq!(
        grid_of(&array, &chunks),
        vec![vec![0, 1], vec![2, 3], vec![4, 5], vec![6, 7], vec![8, 9]]
    );
    assert_eq!(seq_of(&array, &remainder), Vec::<i32>::new());

    let (chunks, remainder) = slice.as_chunks(10);
    assert_eq!(grid_of(&array, &chunks), vec![vec![0, 1, 2, 3, 4, 5, 6, 7, 8, 9]]);
    assert_eq!(seq_of(&array, &remainder), Vec::<i32>::new());

    let (chunks, remainder) = slice.as_chunks(11);
    assert_eq!(grid_of(&array, &chunks), Vec::<Vec<i32>>::new());
    assert_eq!(seq_of(&array, &remainder), vec![0, 1, 2, 3, 4, 5, 6, 7, 8, 9]);
}

#[test]
fn rchunk() {
    let array: Vec<i32> = vec![0, 1, 2, 3, 4, 5, 6, 7, 8, 9];
    let slice = Strided::contiguous(10);

    let (remainder, chunks) = slice.as_rchunks(3);
    assert_eq!(seq_of(&array, &remainder), vec![0]);
    assert_eq!(grid_of(&array, &chunks), vec![vec![1, 2, 3], vec![4, 5, 6], vec![7, 8, 9]]);

    let (remainder, chunks) = slice.as_rchunks_mut(3);
    assert_eq!(seq_of(&array, &remainder), vec![0]);
    assert_eq!(grid_of(&array, &chunks), vec![vec![1, 2, 3], vec![4, 5, 6], vec![7, 8, 9]]);

    let (remainder, chunks) = slice.as_rchunks(2);
    assert_eq!(seq_of(&array, &remainder), Vec::<i32>::new());
    assert_eq!(
        grid_of(&array, &chunks),
        vec![vec![0, 1], vec![2, 3], vec![4, 5], vec![6, 7], vec![8, 9]]
    );
}

#[test]
fn deinterleave() {
    let array: Vec<i32> = vec![0, 1, 2, 3, 4, 5, 6, 7, 8, 9];
    let slice = Strided::contiguous(10);

    let parts = slice.deinterleave_array(2);
    assert_eq!(seq_of(&array, &parts[0]), vec![0, 2, 4, 6, 8]);
    assert_eq!(seq_of(&array, &parts[1]), vec![1, 3, 5, 7, 9]);

    let parts = slice.deinterleave_array_mut(2);
    assert_eq!(seq_of(&array, &parts[0]), vec![0, 2, 4, 6, 8]);
    assert_eq!(seq_of(&array, &parts[1]), vec![1, 3, 5, 7, 9]);

    let parts = slice.deinterleave_array(4);
    assert_eq!(seq_of(&array, &parts[0]), vec![0, 4, 8]);
    assert_eq!(seq_of(&array, &parts[1]), vec![1, 5, 9]);
    assert_eq!(seq_of(&array, &parts[2]), vec![2, 6]);
    assert_eq!(seq_of(&array, &parts[3]), vec![3, 7]);
}

#[test]
fn transpose() {
    let array: Vec<i32> = vec![0, 1, 2, 3, 4, 5, 6, 7, 8, 9, 10, 11];
    let matrix = Strided::from_matrix(4, 3);

    assert_eq!(
        grid_of(&array, &matrix),
        vec![vec![0, 1, 2], vec![3, 4, 5], vec![6, 7, 8], vec![9, 10, 11]]
    );

    let t = matrix.as_transpose01();
    assert_eq!(
        grid_of(&array, &t),
        vec![vec![0, 3, 6, 9], vec![1, 4, 7, 10], vec![2, 5, 8, 11]]
    );
    let t = matrix.as_transpose01_mut();
    assert_eq!(
        grid_of(&array, &t),
        vec![vec![0, 3, 6, 9], vec![1, 4, 7, 10], vec![2, 5, 8, 11]]
    );
    let t = matrix.into_transpose01();
    assert_eq!(
        grid_of(&array, &t),
        vec![vec![0, 3, 6, 9], vec![1, 4, 7, 10], vec![2, 5, 8, 11]]
    );

    let mut m = matrix;
    m.transpose01();
    assert_eq!(
        grid_of(&array, &m),
        vec![vec![0, 3, 6, 9], vec![1, 4, 7, 10], vec![2, 5, 8, 11]]
    );
    m.transpose01();
    assert_eq!(grid_of(&array, &m), grid_of(&array, &matrix));
}

fn block_grid(v: &Vec<i32>, b: &Strided, i: usize, j: usize) -> Vec<Vec<i32>> {
    b.into_get(i).into_get(j).to_vecs(v)
}

#[test]
fn blocks() {
    let mut array: Vec<i32> = Vec::new();
    for r in 0..8 {
        for c in 0..8 {
            array.push(r * 10 + c);
        }
    }
    let matrix = Strided::from_matrix(8, 8);

    let blocked = matrix.as_blocks(2, 2);
    assert_eq!(block_grid(&array, &blocked.blocks, 0, 0), vec![vec![0, 1], vec![10, 11]]);
    assert_eq!(block_grid(&array, &blocked.blocks, 0, 1), vec![vec![2, 3], vec![12, 13]]);
    assert_eq!(block_grid(&array, &blocked.blocks, 0, 3), vec![vec![6, 7], vec![16, 17]]);
    assert_eq!(block_grid(&array, &blocked.blocks, 1, 0), vec![vec![20, 21], vec![30, 31]]);
    assert_eq!(block_grid(&array, &blocked.blocks, 3, 3), vec![vec![66, 67], vec![76, 77]]);
    assert_eq!(blocked.remaining0.state().lens[1], 0);
    assert_eq!(blocked.remaining1.state().lens[2], 0);
    assert_eq!(blocked.remaining01.state().lens[0], 0);
    assert_eq!(blocked.remaining01.state().lens[1], 0);

    let blocked = matrix.as_blocks_mut(2, 3);
    assert_eq!(
        block_grid(&array, &blocked.blocks, 0, 0),
        vec![vec![0, 1, 2], vec![10, 11, 12]]
    );
    assert_eq!(
        block_grid(&array, &blocked.blocks, 0, 1),
        vec![vec![3, 4, 5], vec![13, 14, 15]]
    );
    assert_eq!(
        block_grid(&array, &blocked.blocks, 3, 1),
        vec![vec![63, 64, 65], vec![73, 74, 75]]
    );
    // right strip: per block-row, the two trailing columns of each row pair
    assert_eq!(
        blocked.remaining1.into_get(0).to_vecs(&array),
        vec![vec![6, 7], vec![16, 17]]
    );
    assert_eq!(
        blocked.remaining1.into_get(3).to_vecs(&array),
        vec![vec![66, 67], vec![76, 77]]
    );
    assert_eq!(blocked.remaining0.state().lens[1], 0);

    let blocked = matrix.into_blocks(3, 2);
    assert_eq!(
        block_grid(&array, &blocked.blocks, 0, 0),
        vec![vec![0, 1], vec![10, 11], vec![20, 21]]
    );
    assert_eq!(
        block_grid(&array, &blocked.blocks, 1, 3),
        vec![vec![36, 37], vec![46, 47], vec![56, 57]]
    );
    // bottom strip: the two leftover rows, one block column at a time
    assert_eq!(
        blocked.remaining0.into_get(0).to_vecs(&array),
        vec![vec![60, 61], vec![70, 71]]
    );
    assert_eq!(
        blocked.remaining0.into_get(3).to_vecs(&array),
        vec![vec![66, 67], vec![76, 77]]
    );
    assert_eq!(blocked.remaining1.state().lens[2], 0);
    assert_eq!(blocked.remaining01.state().lens[0], 2);
    assert_eq!(blocked.remaining01.state().lens[1], 0);
}

#[test]
fn element_wise_equality() {
    let a: Vec<i32> = vec![9, 1, 9, 2, 9, 3];
    let b: Vec<i32> = vec![1, 2, 3];
    // Every second element of the longer buffer equals the contiguous one.
    let odd = Strided::contiguous(6).partial(1, 6, 2);
    let all = Strided::contiguous(3);
    assert!(liftgrid::strided::eq_in(&odd, &a, &all, &b));
    assert!(!liftgrid::strided::eq_in(&Strided::contiguous(6), &a, &all, &b));
    let c: Vec<i32> = vec![1, 2, 4];
    assert!(!liftgrid::strided::eq_in(&odd, &a, &all, &c));
}

#[test]
fn first_last_split() {
    let v: Vec<i32> = vec![4, 8, 15, 16];
    let s = Strided::contiguous(4);
    assert_eq!(s.first(&v), Some(4));
    assert_eq!(s.last(&v), Some(16));
    let (head, rest) = s.split_first(&v).unwrap();
    assert_eq!(head, 4);
    assert_eq!(rest.to_vec(&v), vec![8, 15, 16]);
    let (tail, rest) = s.split_last(&v).unwrap();
    assert_eq!(tail, 16);
    assert_eq!(rest.to_vec(&v), vec![4, 8, 15]);
    let (head, rest) = s.split_first_mut(&v).unwrap();
    assert_eq!(head, 4);
    assert_eq!(rest.to_vec(&v), vec![8, 15, 16]);
    let (tail, rest) = s.split_last_mut(&v).unwrap();
    assert_eq!(tail, 16);
    assert_eq!(rest.to_vec(&v), vec![4, 8, 15]);
    let empty = Strided::new();
    assert_eq!(empty.first(&v), None);
    assert_eq!(empty.last(&v), None);
    assert!(empty.split_first(&v).is_none());
    assert!(empty.split_last(&v).is_none());
    assert!(!s.is_empty());
    assert!(empty.is_empty());
    assert_eq!(s.len(), 4);
    assert_eq!(s.stride(), 1);
    assert_eq!(s.total_size(), 4);

    let m = Strided::from_matrix(2, 2);
    assert_eq!(m.total_size(), 4);
    assert_eq!(m.get2(&v, 1, 0), 15);
    assert_eq!(m.into_get(1).to_vec(&v), vec![15, 16]);
}

#[test]
fn eq() {
    let array: Vec<i32> = vec![1, 3, 6, 8];
    let mut array_mut: Vec<i32> = vec![1, 3, 6, 8];
    let slice = Strided::contiguous(4);

    // A view equals itself, a same-valued view over another buffer, and
    // the equivalent contiguous sequence.
    assert!(liftgrid::strided::eq_in(&slice, &array, &slice, &array));
    assert!(liftgrid::strided::eq_in(&slice, &array, &slice, &array_mut));

    let other: Vec<i32> = vec![1, 3, 6, 9];
    let longer: Vec<i32> = vec![1, 3, 6, 8, 9];
    let empty: Vec<i32> = vec![];
    assert!(!liftgrid::strided::eq_in(&slice, &array, &Strided::contiguous(0), &empty));
    assert!(!liftgrid::strided::eq_in(&slice, &array, &Strided::contiguous(4), &other));
    assert!(!liftgrid::strided::eq_in(&slice, &array, &Strided::contiguous(5), &longer));

    // Mutation shows through every later comparison.
    slice.store(&mut array_mut, 3, 9);
    assert!(!liftgrid::strided::eq_in(&slice, &array, &slice, &array_mut));
    assert!(liftgrid::strided::eq_in(&slice, &array_mut, &Strided::contiguous(4), &other));
}

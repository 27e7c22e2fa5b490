use competitive::algebra::{AdditiveOperation, MaxOperation};
use competitive::binary_indexed_tree::BinaryIndexedTree;
use competitive::binary_indexed_tree_2d::BinaryIndexedTree2D;

#[test]
fn test_sum_tree_example() {
    let mut bit = BinaryIndexedTree::new(5, AdditiveOperation::<i64>::new());
    bit.update(0, 3i64);
    bit.update(2, 5i64);
    bit.update(4, 1i64);
    assert_eq!(bit.accumulate(0), 3);
    assert_eq!(bit.accumulate(2), 8);
    assert_eq!(bit.accumulate(4), 9);
    assert_eq!(bit.fold(1, 4), 5);
}

#[test]
fn test_fresh_tree_identity() {
    let n = 13;
    let bit = BinaryIndexedTree::new(n, AdditiveOperation::<i64>::new());
    for k in 0..n + 1 {
        assert_eq!(bit.accumulate0(k), 0i64);
    }
    for k in 0..n {
        assert_eq!(bit.get(k), 0i64);
    }
    let bit = BinaryIndexedTree::new(n, MaxOperation::<i64>::new());
    for k in 0..n {
        assert_eq!(bit.accumulate(k), i64::MIN);
    }
}

#[test]
fn test_fresh_tree_identity_2d() {
    let bit = BinaryIndexedTree2D::new(4, 6, AdditiveOperation::<i64>::new());
    for i in 0..5 {
        for j in 0..7 {
            assert_eq!(bit.accumulate0(i, j), 0i64);
        }
    }
    for i in 0..4 {
        for j in 0..6 {
            assert_eq!(bit.get(i, j), 0i64);
        }
    }
}

#[test]
fn test_set_get_round_trip() {
    let n = 9;
    let mut bit = BinaryIndexedTree::new(n, AdditiveOperation::<i64>::new());
    let writes: [(usize, i64); 6] = [(0, 4), (8, -7), (3, 11), (3, -2), (7, 0), (0, 5)];
    let mut arr = vec![0i64; n];
    for &(k, x) in writes.iter() {
        bit.set(k, x);
        arr[k] = x;
        for p in 0..n {
            assert_eq!(bit.get(p), arr[p]);
        }
    }
}

#[test]
fn test_set_get_round_trip_2d() {
    let mut bit = BinaryIndexedTree2D::new(3, 4, AdditiveOperation::<i64>::new());
    let writes: [(usize, usize, i64); 5] = [(0, 0, 2), (2, 3, -9), (1, 1, 6), (2, 3, 1), (0, 3, -1)];
    let mut arr = vec![vec![0i64; 4]; 3];
    for &(i, j, x) in writes.iter() {
        bit.set(i, j, x);
        arr[i][j] = x;
        for p in 0..3 {
            for q in 0..4 {
                assert_eq!(bit.get(p, q), arr[p][q]);
            }
        }
    }
}

#[test]
fn test_update_accumulates_in_place() {
    let mut bit = BinaryIndexedTree::new(4, AdditiveOperation::<u64>::new());
    bit.update(1, 10u64);
    bit.update(1, 32u64);
    assert_eq!(bit.accumulate(1), 42);
    assert_eq!(bit.accumulate0(1), 0);

    let mut bit = BinaryIndexedTree::new(4, MaxOperation::<u64>::new());
    bit.update(2, 7u64);
    bit.update(2, 3u64);
    assert_eq!(bit.accumulate(2), 7);
    assert_eq!(bit.accumulate(1), 0);
}

#[test]
fn test_fold_empty_range() {
    let mut bit = BinaryIndexedTree::new(6, AdditiveOperation::<i64>::new());
    for k in 0..6 {
        bit.set(k, (k as i64) + 1);
    }
    assert_eq!(bit.fold(2, 2), 0);
    assert_eq!(bit.fold(0, 6), 21);
    assert_eq!(bit.fold(5, 6), 6);
}

#[test]
fn test_lower_bound_edges() {
    let n = 6;
    let mut bit = BinaryIndexedTree::new(n, AdditiveOperation::<i64>::new());
    for k in 0..n {
        bit.set(k, 2i64);
    }
    // prefix sums are 0, 2, 4, ..., 12
    assert_eq!(bit.lower_bound(-5), 0);
    assert_eq!(bit.lower_bound(0), 0);
    assert_eq!(bit.lower_bound(1), 0);
    assert_eq!(bit.lower_bound(2), 0);
    assert_eq!(bit.lower_bound(3), 1);
    assert_eq!(bit.lower_bound(12), 5);
    assert_eq!(bit.lower_bound(13), 6);
}

#[test]
fn test_lower_bound_size_one() {
    let mut bit = BinaryIndexedTree::new(1, AdditiveOperation::<i64>::new());
    bit.set(0, 5i64);
    assert_eq!(bit.lower_bound(5), 0);
    assert_eq!(bit.lower_bound(6), 1);
}

#[test]
fn test_size_zero_trees() {
    let bit = BinaryIndexedTree::<AdditiveOperation<i64>>::new(0, AdditiveOperation::new());
    assert_eq!(bit.accumulate0(0), 0);

    assert_eq!(bit.lower_bound(1), 0);

    let bit2 = BinaryIndexedTree2D::<AdditiveOperation<i64>>::new(0, 0, AdditiveOperation::new());
    assert_eq!(bit2.accumulate0(0, 0), 0);
}

#[test]
fn test_2d_rectangle_folds() {
    let (h, w) = (5, 7);
    let mut bit = BinaryIndexedTree2D::new(h, w, AdditiveOperation::<i64>::new());
    let mut grid = vec![vec![0i64; w]; h];
    let mut v = 1i64;
    for i in 0..h {
        for j in 0..w {
            bit.update(i, j, v * if (i + j) % 2 == 0 { 1 } else { -1 });
            grid[i][j] = v * if (i + j) % 2 == 0 { 1 } else { -1 };
            v += 1;
        }
    }
    for i1 in 0..h + 1 {
        for i2 in i1..h + 1 {
            for j1 in 0..w + 1 {
                for j2 in j1..w + 1 {
                    let mut expect = 0i64;
                    for i in i1..i2 {
                        for j in j1..j2 {
                            expect += grid[i][j];
                        }
                    }
                    assert_eq!(bit.fold(i1, j1, i2, j2), expect);
                }
            }
        }
    }
}

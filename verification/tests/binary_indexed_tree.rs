use competitive::algebra::{AdditiveOperation, MaxOperation};
use competitive::binary_indexed_tree::BinaryIndexedTree;
use competitive::binary_indexed_tree_2d::BinaryIndexedTree2D;

struct Xorshift {
    state: u64,
}

impl Xorshift {
    fn new(seed: u64) -> Self {
        Xorshift {
            state: seed ^ 0x2545_f491_4f6c_dd1d,
        }
    }

    fn next_u64(&mut self) -> u64 {
        let mut x = self.state;
        x ^= x << 13;
        x ^= x >> 7;
        x ^= x << 17;
        self.state = x;
        x
    }

    fn rand(&mut self, bound: u64) -> u64 {
        self.next_u64() % bound
    }
}

fn lower_bound_slice(a: &[i64], x: i64) -> usize {
    let mut lo = 0usize;
    let mut hi = a.len();
    while lo < hi {
        let mid = lo + (hi - lo) / 2;
        if a[mid] < x {
            lo = mid + 1;
        } else {
            hi = mid;
        }
    }
    lo
}

#[test]
fn test_binary_indexed_tree() {
    let mut rand = Xorshift::new(1);
    let n = 10_000;
    let q = 100_000;
    let mut bit = BinaryIndexedTree::new(n, AdditiveOperation::<usize>::new());
    let mut arr = vec![0; n];
    for _ in 0..q {
        let k = rand.rand(n as u64) as usize;
        let v = rand.rand(1_000_000_000) as usize;
        bit.update(k, v);
        arr[k] += v;
    }
    for i in 0..n - 1 {
        arr[i + 1] += arr[i];
    }
    for (i, a) in arr.iter().cloned().enumerate() {
        assert_eq!(bit.accumulate(i), a);
    }

    let mut bit = BinaryIndexedTree::new(n, MaxOperation::<usize>::new());
    let mut arr = vec![0; n];
    for _ in 0..q {
        let k = rand.rand(n as u64) as usize;
        let v = rand.rand(1_000_000_000) as usize;
        bit.update(k, v);
        arr[k] = std::cmp::max(arr[k], v);
    }
    for i in 0..n - 1 {
        arr[i + 1] = std::cmp::max(arr[i], arr[i + 1]);
    }
    for (i, a) in arr.iter().cloned().enumerate() {
        assert_eq!(bit.accumulate(i), a);
    }
}

#[test]
fn test_group_binary_indexed_tree() {
    let mut rand = Xorshift::new(2);
    let n = 1_000;
    let q = 10_000;
    let mut bit = BinaryIndexedTree::new(n, AdditiveOperation::<i64>::new());
    let mut arr = vec![0; n + 1];
    for _ in 0..q {
        let k = rand.rand(n as u64) as usize;
        let v = rand.rand(2_000_000_000) as i64 - 1_000_000_000;
        bit.set(k, v);
        arr[k + 1] = v;
    }
    for i in 0..n {
        arr[i + 1] += arr[i];
    }
    for i in 0..n {
        for j in i + 1..n + 1 {
            assert_eq!(bit.fold(i, j), arr[j] - arr[i]);
        }
    }
}

#[test]
fn test_binary_indexed_tree_lower_bound() {
    let mut rand = Xorshift::new(3);
    let n = 1_000;
    let q = 10_000;
    let mut bit = BinaryIndexedTree::new(n, AdditiveOperation::<i64>::new());
    let mut arr = vec![0; n];
    for _ in 0..q {
        let k = rand.rand(n as u64) as usize;
        let v = rand.rand(1_000_000_000) as i64;
        bit.set(k, v);
        arr[k] = v;
    }
    for i in 0..n - 1 {
        arr[i + 1] += arr[i];
    }
    for _ in 0..n {
        let x = rand.rand(5_000_000_000_000) as i64;
        assert_eq!(bit.lower_bound(x), lower_bound_slice(&arr, x));
    }
}

#[test]
fn test_binary_indexed_tree_2d() {
    let mut rand = Xorshift::new(4);
    let h = 200;
    let w = 200;
    let q = 100_000;
    let mut bit = BinaryIndexedTree2D::new(h, w, AdditiveOperation::<usize>::new());
    let mut arr = vec![vec![0; w]; h];
    for _ in 0..q {
        let i = rand.rand(h as u64) as usize;
        let j = rand.rand(w as u64) as usize;
        let v = rand.rand(1_000_000_000) as usize;
        bit.update(i, j, v);
        arr[i][j] += v;
    }
    for arr in arr.iter_mut() {
        for j in 0..w - 1 {
            arr[j + 1] += arr[j];
        }
    }
    for i in 0..h - 1 {
        for j in 0..w {
            arr[i + 1][j] += arr[i][j];
        }
    }
    for (i, arr) in arr.iter().enumerate() {
        for (j, a) in arr.iter().cloned().enumerate() {
            assert_eq!(bit.accumulate(i, j), a);
        }
    }

    let mut bit = BinaryIndexedTree2D::new(h, w, MaxOperation::<usize>::new());
    let mut arr = vec![vec![0; w]; h];
    for _ in 0..q {
        let i = rand.rand(h as u64) as usize;
        let j = rand.rand(w as u64) as usize;
        let v = rand.rand(1_000_000_000) as usize;
        bit.update(i, j, v);
        arr[i][j] = std::cmp::max(arr[i][j], v);
    }
    for arr in arr.iter_mut() {
        for j in 0..w - 1 {
            arr[j + 1] = std::cmp::max(arr[j + 1], arr[j]);
        }
    }
    for i in 0..h - 1 {
        for j in 0..w {
            arr[i + 1][j] = std::cmp::max(arr[i + 1][j], arr[i][j]);
        }
    }
    for (i, arr) in arr.iter().enumerate() {
        for (j, a) in arr.iter().cloned().enumerate() {
            assert_eq!(bit.accumulate(i, j), a);
        }
    }
}

#[test]
fn test_group_binary_indexed_tree2d() {
    let mut rand = Xorshift::new(5);
    let h = 20;
    let w = 20;
    let q = 100_000;
    let mut bit = BinaryIndexedTree2D::new(h, w, AdditiveOperation::<i64>::new());
    let mut arr = vec![vec![0; w + 1]; h + 1];
    for _ in 0..q {
        let i = rand.rand(h as u64) as usize;
        let j = rand.rand(w as u64) as usize;
        let v = rand.rand(2_000_000_000) as i64 - 1_000_000_000;
        bit.set(i, j, v);
        arr[i + 1][j + 1] = v;
    }
    for arr in arr.iter_mut() {
        for j in 0..w {
            arr[j + 1] += arr[j];
        }
    }
    for i in 0..h {
        for j in 0..w + 1 {
            arr[i + 1][j] += arr[i][j];
        }
    }
    for i1 in 0..h {
        for i2 in i1 + 1..h + 1 {
            for j1 in 0..w {
                for j2 in j1 + 1..w + 1 {
                    assert_eq!(
                        bit.fold(i1, j1, i2, j2),
                        arr[i2][j2] - arr[i2][j1] - arr[i1][j2] + arr[i1][j1]
                    );
                }
            }
        }
    }
}

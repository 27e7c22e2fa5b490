use competitive::num::{Complex, One, Zero};

#[test]
fn test_complex_new_transpose() {
    let z = Complex::new(3i64, -4i64);
    assert_eq!(z.re, 3);
    assert_eq!(z.im, -4);
    let t = z.transpose();
    assert_eq!(t.re, -4);
    assert_eq!(t.im, 3);
}

#[test]
fn test_complex_units() {
    let z: Complex<i64> = Complex::zero();
    assert_eq!(z, Complex::new(0, 0));
    let o: Complex<i64> = Complex::one();
    assert_eq!(o, Complex::new(1, 0));
    let i: Complex<i64> = Complex::i();
    assert_eq!(i, Complex::new(0, 1));
    let iu: Complex<u64> = Complex::i();
    assert_eq!(iu, Complex::new(0, 1));
}

#[test]
fn test_complex_conjugate() {
    let z = Complex::new(2i64, 5i64);
    assert_eq!(z.conjugate(), Complex::new(2, -5));
    assert_eq!(z.conjugate().conjugate(), z);
}

#[test]
fn test_complex_dot_cross_norm() {
    let a = Complex::new(1i64, 2i64);
    let b = Complex::new(3i64, -4i64);
    assert_eq!(a.dot(b), 1 * 3 + 2 * (-4));
    assert_eq!(a.cross(b), 1 * (-4) - 2 * 3);
    assert_eq!(a.norm(), 1 * 1 + 2 * 2);
    assert_eq!(b.norm(), 25);
}

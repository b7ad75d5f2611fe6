use algokit::vector::VectorOp;

#[test]
fn lib_sum() {
    let a = [1, 2, 3, 4];

    assert_eq!(VectorOp::sum(&a), 10);
}

#[test]
fn lib_dot() {
    let a = [1, 2, 3, 4];
    let b = [1, 2, 3, 4];

    assert_eq!(VectorOp::dot(&a, &b), 30);
}

#[test]
fn lib_add_assign() {
    let mut a = [1, 2, 3, 4];
    let b = [1, 2, 3, 4];

    VectorOp::add_assign(&mut a, &b);
    assert_eq!(a, [2, 4, 6, 8]);
}

#[test]
fn add_assign_with() {
    let mut a = [1, 2, 3, 4];
    let x = 1;

    VectorOp::add_assign_with(&mut a, x);
    assert_eq!(a, [2, 3, 4, 5]);
}

#[test]
fn lib_sub_assign() {
    let mut a = [1, 2, 3, 4];
    let b = [1, 2, 3, 4];

    VectorOp::sub_assign(&mut a, &b);
    assert_eq!(a, [0, 0, 0, 0]);
}

#[test]
fn sub_assign_with() {
    let mut a = [1, 2, 3, 4];
    let x = 1;

    VectorOp::sub_assign_with(&mut a, x);
    assert_eq!(a, [0, 1, 2, 3]);
}

#[test]
fn lib_mul_assign() {
    let mut a = [1, 2, 3, 4];
    let b = [1, 2, 3, 4];

    VectorOp::mul_assign(&mut a, &b);
    assert_eq!(a, [1, 4, 9, 16]);
}

#[test]
fn mul_assign_with() {
    let mut a = [1, 2, 3, 4];
    let x = 1;

    VectorOp::mul_assign_with(&mut a, x);
    assert_eq!(a, [1, 2, 3, 4]);
}

use authenticated_tensor_garbling::block::Block;
use authenticated_tensor_garbling::feq::{accepts, check};
use authenticated_tensor_garbling::matrix::BlockMatrix;

#[test]
fn test_check_equal_matrices_passes() {
    let mut a = BlockMatrix::new(3, 4);
    let mut b = BlockMatrix::new(3, 4);
    for j in 0..4 {
        for i in 0..3 {
            let v = Block::new([(i as u8) ^ (j as u8); 16]);
            a.set(i, j, v);
            b.set(i, j, v);
        }
    }
    check(&a, &b);
}

#[test]
fn accepts_tells_equal_from_unequal_matrices() {
    let mut a = BlockMatrix::new(2, 3);
    let mut b = BlockMatrix::new(2, 3);
    assert!(accepts(&a, &b));
    a.set(1, 2, Block::new([7; 16]));
    assert!(!accepts(&a, &b));
    b.set(1, 2, Block::new([7; 16]));
    assert!(accepts(&a, &b));
    check(&a, &b);
    let c = BlockMatrix::new(3, 2);
    assert!(!accepts(&a, &c));
}

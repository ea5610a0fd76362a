use authenticated_tensor_garbling::block::Block;
use authenticated_tensor_garbling::keys::Key;
use authenticated_tensor_garbling::matrix::{BlockMatrix, KeyMatrix, TypedMatrix};

fn key_aa() -> Key {
    Key::from(Block::new([0xAA, 0xAA, 0xAA, 0xAA, 0xAA, 0xAA, 0xAA, 0xAA, 0x00, 0x00, 0x00, 0x00, 0x00, 0x00, 0x00, 0x00]))
}

fn key_55() -> Key {
    Key::from(Block::new([0x55, 0x55, 0x55, 0x55, 0x55, 0x55, 0x55, 0x55, 0x00, 0x00, 0x00, 0x00, 0x00, 0x00, 0x00, 0x00]))
}

fn key_ff() -> Key {
    Key::from(Block::new([0xFF, 0xFF, 0xFF, 0xFF, 0xFF, 0xFF, 0xFF, 0xFF, 0x00, 0x00, 0x00, 0x00, 0x00, 0x00, 0x00, 0x00]))
}

#[test]
fn test_new() {
    let matrix = KeyMatrix::new(3, 4);
    assert_eq!(matrix.rows(), 3);
    assert_eq!(matrix.cols(), 4);
    assert_eq!(matrix.elements_slice().len(), 12);
}

#[test]
fn test_column_vector() {
    let vector = KeyMatrix::column_vector(5);
    assert_eq!(vector.rows(), 5);
    assert_eq!(vector.cols(), 1);
    assert_eq!(vector.elements_slice().len(), 5);
}

#[test]
fn test_flat_index() {
    let matrix = KeyMatrix::new(3, 4);
    assert_eq!(matrix.flat_index(0, 0), 0);
    assert_eq!(matrix.flat_index(1, 0), 1);
    assert_eq!(matrix.flat_index(2, 0), 2);
    assert_eq!(matrix.flat_index(0, 1), 3);
    assert_eq!(matrix.flat_index(1, 1), 4);
    assert_eq!(matrix.flat_index(2, 1), 5);
    assert_eq!(matrix.flat_index(0, 2), 6);
    assert_eq!(matrix.flat_index(1, 2), 7);
    assert_eq!(matrix.flat_index(2, 2), 8);
    assert_eq!(matrix.flat_index(0, 3), 9);
    assert_eq!(matrix.flat_index(1, 3), 10);
    assert_eq!(matrix.flat_index(2, 3), 11);
}

#[test]
fn test_vector_indexing() {
    let mut matrix = KeyMatrix::column_vector(3);
    let key1 = key_aa();
    let key2 = key_55();
    matrix.set_vec(0, key1);
    matrix.set_vec(1, key2);
    assert_eq!(matrix.get_vec(0), key1);
    assert_eq!(matrix.get_vec(1), key2);
    assert_eq!(matrix.get_vec(2), Key::default());
}

#[test]
fn test_bitxor_assign() {
    let mut matrix1 = KeyMatrix::new(2, 2);
    let mut matrix2 = KeyMatrix::new(2, 2);
    for (i, j) in [(0, 0), (0, 1), (1, 0), (1, 1)] {
        matrix1.set(i, j, key_aa());
        matrix2.set(i, j, key_55());
    }
    matrix1 ^= matrix2;
    assert_eq!(matrix1.get(0, 0), key_ff());
}

#[test]
fn test_matrix_indexing() {
    let mut matrix = KeyMatrix::new(2, 3);
    let key1 = key_aa();
    let key2 = Key::from(Block::new([0x22; 16]));
    matrix.set(0, 1, key1);
    matrix.set(1, 2, key2);
    assert_eq!(matrix.get(0, 1), key1);
    assert_eq!(matrix.get(1, 2), key2);
    assert_eq!(matrix.get(0, 0), Key::default());
}

#[test]
fn test_bitxor() {
    let mut matrix1 = KeyMatrix::new(2, 2);
    let mut matrix2 = KeyMatrix::new(2, 2);
    for (i, j) in [(0, 0), (0, 1), (1, 0), (1, 1)] {
        matrix1.set(i, j, key_aa());
        matrix2.set(i, j, key_55());
    }
    matrix1 ^= matrix2;
    assert_eq!(matrix1.get(0, 0), key_ff());
    assert_eq!(matrix1.get(0, 1), key_ff());
    assert_eq!(matrix1.get(1, 0), key_ff());
    assert_eq!(matrix1.get(1, 1), key_ff());
}

#[test]
fn test_display() {
    let mut matrix = KeyMatrix::new(2, 2);
    let key1 = Key::from(Block::new([0x12, 0x34, 0x56, 0x78, 0x90, 0xAB, 0xCD, 0xEF, 0x12, 0x34, 0x56, 0x78, 0x90, 0xAB, 0xCD, 0xEF]));
    let key2 = Key::from(Block::new([0xFE, 0xDC, 0xBA, 0x09, 0x87, 0x65, 0x43, 0x21, 0xFE, 0xDC, 0xBA, 0x09, 0x87, 0x65, 0x43, 0x21]));
    matrix.set(0, 0, key1);
    matrix.set(0, 1, key2);
    matrix.set(1, 0, key2);
    matrix.set(1, 1, key1);
    let display_str = matrix.to_display_string();
    println!("{}", display_str);
    assert!(display_str.contains("ef"));
    assert!(display_str.contains("21"));
    assert!(display_str.lines().count() == 2);
}

#[test]
fn test_zero_matrix() {
    let matrix = KeyMatrix::new(3, 4);
    for i in 0..3 {
        for j in 0..4 {
            assert_eq!(matrix.get(i, j), Key::default());
        }
    }
}

#[test]
fn test_matrix_dimensions() {
    let matrix = KeyMatrix::new(5, 7);
    assert_eq!(matrix.rows(), 5);
    assert_eq!(matrix.cols(), 7);
    assert_eq!(matrix.elements_slice().len(), 35);
}

#[test]
fn test_generic_matrix_functionality() {
    let mut key_matrix = TypedMatrix::<Key>::new(2, 2);
    let key1 = Key::from(Block::new([0xAA; 16]));
    let key2 = Key::from(Block::new([0x55; 16]));
    key_matrix.set(0, 0, key1);
    key_matrix.set(1, 1, key2);
    assert_eq!(key_matrix.get(0, 0), key1);
    assert_eq!(key_matrix.get(1, 1), key2);

    let mut block_matrix = TypedMatrix::<Block>::new(2, 2);
    let block1 = Block::new([0xBB; 16]);
    let block2 = Block::new([0x66; 16]);
    block_matrix.set(0, 0, block1);
    block_matrix.set(1, 1, block2);
    assert_eq!(block_matrix.get(0, 0), block1);
    assert_eq!(block_matrix.get(1, 1), block2);

    let key_matrix2 = TypedMatrix::<Key>::constant(2, 2, key2);
    let result_key = key_matrix.xor_matrix(&key_matrix2);
    let block_matrix2 = TypedMatrix::<Block>::constant(2, 2, block2);
    let result_block = block_matrix.xor_matrix(&block_matrix2);
    assert_eq!(result_key.get(0, 0), key1 ^ key2);
    assert_eq!(result_block.get(0, 0), block1 ^ block2);

    let key_view = key_matrix.as_view();
    let block_view = block_matrix.as_view();
    assert_eq!(*key_view.get(0, 0), key1);
    assert_eq!(*block_view.get(0, 0), block1);
}

#[test]
fn display_of_one_block_is_its_hex_bytes() {
    let mut matrix = TypedMatrix::<Block>::new(1, 1);
    matrix.set(0, 0, Block::new([0x01, 0x23, 0x45, 0x67, 0x89, 0xab, 0xcd, 0xef, 0, 0, 0, 0, 0, 0, 0, 0xff]));
    assert_eq!(matrix.to_display_string(), "0123456789abcdef00000000000000ff \n");
}

#[test]
fn clear_value_packs_pointer_bits_low_row_first() {
    let mut m = TypedMatrix::<Block>::new(3, 1);
    m.set_vec(0, Block::from(1u128));
    m.set_vec(1, Block::from(0u128));
    m.set_vec(2, Block::from(3u128));
    assert_eq!(m.get_clear_value(), 0b101);
}

#[test]
fn matrix_view_mut_writes_through() {
    let mut m = BlockMatrix::new(3, 2);
    {
        let mut v = m.as_view_mut();
        v.set(1, 1, Block::from(5u128));
        assert_eq!(v.rows(), 3);
        assert_eq!(v.cols(), 2);
        let mut t = v.transpose();
        assert_eq!(t.rows(), 2);
        assert_eq!(t.cols(), 3);
        t.set(0, 2, Block::from(9u128));
    }
    assert_eq!(m.get(1, 1), Block::from(5u128));
    assert_eq!(m.get(2, 0), Block::from(9u128));
    let r = m.with_subrows_mut(1, 2, |sub| {
        sub.set(0, 0, Block::from(7u128));
        sub.rows()
    });
    assert_eq!(r, 2);
    assert_eq!(m.get(1, 0), Block::from(7u128));
    {
        let mut v = m.as_view_mut();
        v.shift(0, 1);
        v.resize(3, 1);
        v.set_vec(2, Block::from(11u128));
        assert_eq!(*v.get_vec(2), Block::from(11u128));
        assert_eq!(v.len(), 3);
    }
    assert_eq!(m.get(2, 1), Block::from(11u128));
}

#[test]
fn shifted_view_reads_the_shifted_entries() {
    let data: Vec<u32> = (0..12).collect();
    let v = authenticated_tensor_garbling::matrix::MatrixViewRef::new(data.as_slice(), 4, 3);
    let s = v.shift(1, 1);
    // Column-major 4 × 3: entry (i, j) of the view is data[j·4 + i].
    assert_eq!(*s.get(0, 0), *v.get(1, 1));
    assert_eq!(*s.get(2, 1), *v.get(3, 2));
    assert_eq!(*s.get(0, 0), 5);
    let twice = v.shift(1, 0).shift(0, 1);
    let once = v.shift(1, 1);
    assert_eq!(twice.view_start, once.view_start);
    assert_eq!(*twice.get(1, 0), *once.get(1, 0));
    // A position outside the view's shape but inside the buffer can be read.
    assert_eq!(*s.get(5, 0), data[1 * 4 + 1 + 5]);
}

#[test]
fn clear_value_of_an_empty_matrix_is_zero() {
    let m = BlockMatrix::new(0, 0);
    assert_eq!(m.get_clear_value(), 0);
    let k = KeyMatrix::new(0, 0);
    assert_eq!(k.get_clear_value(), 0);
}

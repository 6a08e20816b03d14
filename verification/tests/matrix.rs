use fdn_reverb::matrix::{hadamard, matrix_vector_multiply};

#[test]
fn hadamard_of_small_orders() {
    assert_eq!(hadamard(1), Some(vec![1]));
    assert_eq!(hadamard(2), Some(vec![1, 1, 1, -1]));
    assert_eq!(
        hadamard(4),
        Some(vec![1, 1, 1, 1, 1, -1, 1, -1, 1, 1, -1, -1, 1, -1, -1, 1])
    );
    let eight = hadamard(8).unwrap();
    assert_eq!(eight.len(), 64);
    assert_eq!(&eight[40..48], &[1, -1, 1, -1, -1, 1, -1, 1]);
}

#[test]
fn hadamard_of_other_orders_is_refused() {
    assert_eq!(hadamard(0), None);
    assert_eq!(hadamard(3), None);
    assert_eq!(hadamard(6), None);
    assert_eq!(hadamard(12), None);
    assert_eq!(hadamard(usize::MAX), None);
    assert_eq!(hadamard(1 << (usize::BITS / 2)), None);
}

#[test]
fn hadamard_four_times_its_transpose_is_four_times_identity() {
    let flat = hadamard(4).unwrap();
    let mut matrix = [0i8; 16];
    matrix.copy_from_slice(&flat);
    for row in 0..4 {
        let vector = [
            matrix[4 * row] as i32,
            matrix[4 * row + 1] as i32,
            matrix[4 * row + 2] as i32,
            matrix[4 * row + 3] as i32,
        ];
        let product = matrix_vector_multiply(&vector, &matrix);
        for other in 0..4 {
            assert_eq!(product[other], if other == row { 4 } else { 0 });
        }
    }
}

#[test]
fn hadamard_rows_are_orthogonal_for_larger_orders() {
    for order in [1usize, 2, 4, 8, 16, 32] {
        let m = hadamard(order).unwrap();
        assert_eq!(m.len(), order * order);
        for r in 0..order {
            for s in 0..order {
                let dot: i64 = (0..order)
                    .map(|c| m[r * order + c] as i64 * m[s * order + c] as i64)
                    .sum();
                assert_eq!(dot, if r == s { order as i64 } else { 0 });
                assert_eq!(m[r * order + s], m[s * order + r]);
            }
        }
    }
}

#[test]
fn matrix_vector_multiply_is_the_dense_product() {
    let matrix: [i8; 16] = [1, 2, 3, 4, -1, 0, 1, 0, 5, -5, 5, -5, 0, 0, 0, 7];
    let vector: [i32; 4] = [10, 20, 30, 40];
    assert_eq!(matrix_vector_multiply(&vector, &matrix), [300, 20, -100, 280]);
}

#[test]
fn matrix_vector_multiply_at_the_limits() {
    let matrix: [i8; 16] = [-128; 16];
    let vector: [i32; 4] = [i32::MIN; 4];
    let expected: i64 = 4 * 128 * 2147483648;
    assert_eq!(matrix_vector_multiply(&vector, &matrix), [expected; 4]);
    let matrix: [i8; 16] = [127; 16];
    let expected: i64 = -4 * 127 * 2147483648;
    assert_eq!(matrix_vector_multiply(&vector, &matrix), [expected; 4]);
}

#[test]
fn mixing_by_hadamard_four_multiplies_the_energy_by_four() {
    let flat = hadamard(4).unwrap();
    let mut matrix = [0i8; 16];
    matrix.copy_from_slice(&flat);
    for vector in [[1i32, 2, 3, 4], [0, 0, 0, 0], [-7, 5, 0, 11], [1000, -1000, 1000, -1000]] {
        let mixed = matrix_vector_multiply(&vector, &matrix);
        let before: i64 = vector.iter().map(|x| *x as i64 * *x as i64).sum();
        let after: i64 = mixed.iter().map(|x| x * x).sum();
        assert_eq!(after, 4 * before);
    }
    assert_eq!(matrix_vector_multiply(&[1, 2, 3, 4], &matrix), [10, -2, -4, 0]);
}

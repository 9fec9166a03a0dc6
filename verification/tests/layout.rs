// The packed lower-triangle layout of symmetric matrices.

use riskparity::lin_alg::{diag_index, packed_index, row_start};

#[test]
fn rows_start_at_triangular_numbers() {
    let starts: Vec<usize> = (0..6).map(row_start).collect();
    assert_eq!(starts, vec![0, 1, 3, 6, 10, 15]);
}

#[test]
fn packed_index_reads_the_lower_triangle() {
    // rows: [a], [b c], [d e f]
    assert_eq!(packed_index(0, 0, 3), 0);
    assert_eq!(packed_index(1, 0, 3), 1);
    assert_eq!(packed_index(1, 1, 3), 2);
    assert_eq!(packed_index(2, 0, 3), 3);
    assert_eq!(packed_index(2, 1, 3), 4);
    assert_eq!(packed_index(2, 2, 3), 5);
}

#[test]
fn packed_index_is_symmetric() {
    for i in 0..5 {
        for j in 0..5 {
            assert_eq!(packed_index(i, j, 5), packed_index(j, i, 5));
        }
    }
}

#[test]
fn packed_index_covers_each_position_once() {
    let dim = 6;
    let mut seen = vec![0; row_start(dim)];
    for i in 0..dim {
        for j in 0..=i {
            seen[packed_index(i, j, dim)] += 1;
        }
    }
    assert!(seen.iter().all(|&c| c == 1));
}

#[test]
fn diagonal_index_matches_formula() {
    for n in 0..10usize {
        assert_eq!(diag_index(n, 10), (n * n + 3 * n) / 2);
    }
}

#[test]
fn row_start_without_overflow() {
    // n * n overflows 64 bits here, the row start itself does not.
    if usize::BITS == 64 {
        let n: usize = 6074000999;
        assert_eq!(row_start(n) as u128, (n as u128) * (n as u128 + 1) / 2);
    }
}

use qubic_engine::board::{check_win, generate_winning_lines, NUM_LINES};
use qubic_engine::fastwin::check_win_optimized;

#[test]
fn line_index_has_76_distinct_four_cell_lines() {
    let lines = generate_winning_lines();
    let masks = lines.masks();
    assert_eq!(masks.len(), NUM_LINES);
    for (i, m) in masks.iter().enumerate() {
        assert_eq!(m.count_ones(), 4);
        for other in masks.iter().skip(i + 1) {
            assert_ne!(m, other);
        }
    }
}

#[test]
fn line_index_order_is_stable() {
    let a = generate_winning_lines().masks();
    let b = generate_winning_lines().masks();
    assert_eq!(a, b);
    assert_eq!(a[0], 0xF);
    assert_eq!(a[16], 0x1111);
    assert_eq!(a[32], 0x0001_0001_0001_0001);
}

#[test]
fn check_win_matches_line_containment() {
    let lines = generate_winning_lines();
    let masks = lines.masks();
    for m in masks.iter() {
        assert!(check_win(&lines, *m));
        assert!(check_win(&lines, *m | 0x8000_0000_0000_0000));
        assert!(!check_win(&lines, *m & (*m - 1)));
    }
    assert!(!check_win(&lines, 0));
    assert!(!check_win(&lines, 0b0111));
}

#[test]
fn space_diagonal_wins() {
    let lines = generate_winning_lines();
    let diag: u64 = (1 << 0) | (1 << 21) | (1 << 42) | (1 << 63);
    assert!(check_win(&lines, diag));
    assert!(!check_win(&lines, diag & !(1 << 42)));
}

#[test]
fn optimized_win_test_agrees_with_line_scan() {
    let lines = generate_winning_lines();
    for m in lines.masks().iter() {
        assert!(check_win_optimized(*m));
        assert!(!check_win_optimized(*m & (*m - 1)));
    }
    let mut x: u64 = 0x9E37_79B9_7F4A_7C15;
    for _ in 0..2000 {
        x ^= x << 13;
        x ^= x >> 7;
        x ^= x << 17;
        let m = x & (x >> 3) & (x >> 11);
        assert_eq!(check_win_optimized(m), check_win(&lines, m));
    }
    assert!(!check_win_optimized(0));
    assert!(check_win_optimized(u64::MAX));
}

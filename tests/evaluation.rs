use qubic_engine::board::generate_winning_lines;
use qubic_engine::eval::{evaluate, get_forced_move, positional_weight, WIN_SCORE};

fn bits(cells: &[u8]) -> u64 {
    cells.iter().fold(0u64, |m, c| m | (1u64 << c))
}

#[test]
fn positional_weights() {
    assert_eq!(positional_weight(0), 200);
    assert_eq!(positional_weight(63), 200);
    assert_eq!(positional_weight(21), 50);
    assert_eq!(positional_weight(1), 5);
    assert_eq!(positional_weight(5 + 16), 50);
    assert_eq!(positional_weight(5), 10);
}

#[test]
fn single_corner_scores_seven_lines_and_weight() {
    let lines = generate_winning_lines();
    assert_eq!(evaluate(&lines, bits(&[0]), 0), 270);
    assert_eq!(evaluate(&lines, 0, bits(&[0])), -270);
    assert_eq!(evaluate(&lines, 0, 0), 0);
}

#[test]
fn shared_line_is_dead() {
    let lines = generate_winning_lines();
    assert_eq!(evaluate(&lines, bits(&[0]), bits(&[1])), 225);
}

#[test]
fn fork_cell_adds_bonus() {
    let lines = generate_winning_lines();
    let fork = evaluate(&lines, bits(&[1, 2, 4, 8]), 0);
    assert!(fork >= 3000);
    let no_fork = evaluate(&lines, bits(&[1, 2, 4, 8]), bits(&[0]));
    assert!(fork - no_fork >= 3000);
}

#[test]
fn evaluator_is_antisymmetric() {
    let lines = generate_winning_lines();
    let cases: [(u64, u64); 4] = [
        (bits(&[0, 5, 21]), bits(&[1, 42])),
        (bits(&[1, 2, 4, 8]), bits(&[63])),
        (bits(&[0, 1, 2]), bits(&[16, 17])),
        (0, bits(&[30])),
    ];
    for (a, b) in cases.iter() {
        assert_eq!(evaluate(&lines, *a, *b), -evaluate(&lines, *b, *a));
    }
}

#[test]
fn evaluator_stays_inside_win_band() {
    let lines = generate_winning_lines();
    let v = evaluate(&lines, bits(&[0, 1, 2, 4, 8, 16, 32]), bits(&[63, 62, 61, 59, 55]));
    assert!(v > -WIN_SCORE && v < WIN_SCORE);
}

#[test]
fn won_positions_score_win() {
    let lines = generate_winning_lines();
    assert_eq!(evaluate(&lines, bits(&[0, 1, 2, 3]), bits(&[16])), WIN_SCORE);
    assert_eq!(evaluate(&lines, bits(&[16]), bits(&[0, 1, 2, 3])), -WIN_SCORE);
}

#[test]
fn forced_win_completes_row() {
    let lines = generate_winning_lines();
    assert_eq!(get_forced_move(&lines, bits(&[0, 1, 2]), bits(&[16, 17])), Some(3));
}

#[test]
fn forced_block_from_other_side() {
    let lines = generate_winning_lines();
    assert_eq!(get_forced_move(&lines, bits(&[16, 17]), bits(&[0, 1, 2])), Some(3));
}

#[test]
fn win_preferred_over_block() {
    let lines = generate_winning_lines();
    assert_eq!(get_forced_move(&lines, bits(&[16, 17, 18]), bits(&[0, 1, 2])), Some(19));
}

#[test]
fn no_forced_move_on_quiet_board() {
    let lines = generate_winning_lines();
    assert_eq!(get_forced_move(&lines, bits(&[0, 21]), bits(&[1, 42])), None);
    assert_eq!(get_forced_move(&lines, bits(&[0, 1, 2]), bits(&[3])), None);
}

#[test]
fn forced_move_makes_a_win() {
    let lines = generate_winning_lines();
    let me = bits(&[0, 21, 63]);
    let c = get_forced_move(&lines, me, bits(&[1])).unwrap();
    assert_eq!(c, 42);
    assert!(qubic_engine::board::check_win(&lines, me | (1u64 << c)));
}

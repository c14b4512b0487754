use qubic_engine::eval::WIN_SCORE;
use qubic_engine::movegen::order_moves;
use qubic_engine::search::{clear_tt, get_best_move, Clock, Engine, Progress, Reporter, SearchResult, Timer};
use qubic_engine::tt::{tt_key, TTEntry, TranspositionTable, TT_EXACT, TT_LOWER};

fn bits(cells: &[u8]) -> u64 {
    cells.iter().fold(0u64, |m, c| m | (1u64 << c))
}

struct Ticking(u64);

impl Clock for Ticking {
    fn now_ms(&mut self) -> u64 {
        self.0 += 1;
        self.0
    }
}

struct Late(u64);

impl Clock for Late {
    fn now_ms(&mut self) -> u64 {
        self.0 += 10;
        self.0
    }
}

struct Log(Vec<(u8, i32)>);

impl Progress for Log {
    fn report(&mut self, depth: u8, score: i32) {
        self.0.push((depth, score));
    }
}

fn cell(r: &SearchResult) -> u8 {
    r.y * 16 + r.z * 4 + r.x
}

fn run(engine: &mut Engine, p1: u64, p2: u64, ai_is_p1: bool, depth: u8) -> Option<SearchResult> {
    let mut clock = Timer::new(Ticking(0));
    let mut log = Reporter::new(Log(Vec::new()));
    get_best_move(engine, p1, p2, ai_is_p1, u64::MAX, depth, &mut clock, &mut log)
}

#[test]
fn empty_board_plays_corner() {
    let mut engine = Engine::new();
    let r = run(&mut engine, 0, 0, true, 1).unwrap();
    assert_eq!((r.x, r.y, r.z), (0, 0, 0));
    assert_eq!(r.score, WIN_SCORE);
    assert_eq!(r.depth, 0);
    assert!(!r.time_abort);
}

#[test]
fn root_plays_immediate_win() {
    let mut engine = Engine::new();
    let r = run(&mut engine, bits(&[0, 1, 2]), bits(&[16, 17]), true, 4).unwrap();
    assert_eq!((r.x, r.y, r.z), (3, 0, 0));
    assert_eq!(r.score, WIN_SCORE);
    assert_eq!(r.depth, 0);
}

#[test]
fn root_blocks_for_second_player() {
    let mut engine = Engine::new();
    let r = run(&mut engine, bits(&[0, 1, 2]), bits(&[16, 17]), false, 4).unwrap();
    assert_eq!(cell(&r), 3);
    assert_eq!(r.score, WIN_SCORE);
}

#[test]
fn zero_deadline_aborts() {
    let mut engine = Engine::new();
    let mut clock = Timer::new(Ticking(1000));
    let mut log = Reporter::new(Log(Vec::new()));
    let r = get_best_move(&mut engine, bits(&[0, 21]), bits(&[5, 42]), true, 0, 14, &mut clock, &mut log)
        .unwrap();
    assert!(r.time_abort);
    assert_eq!(r.depth, 0);
    assert!(log.sink.0.is_empty());
    assert!(log.sent.is_empty());
    assert_eq!(clock.readings, vec![1001, 1002]);
}

#[test]
fn full_board_gives_none() {
    let mut engine = Engine::new();
    let r = run(&mut engine, 0xAAAA_AAAA_AAAA_AAAA, 0x5555_5555_5555_5555, true, 3);
    assert!(r.is_none());
}

#[test]
fn search_returns_legal_move_and_reports_depths() {
    let mut engine = Engine::new();
    let p1 = bits(&[0, 21]);
    let p2 = bits(&[5, 42]);
    let mut clock = Timer::new(Ticking(0));
    let mut log = Reporter::new(Log(Vec::new()));
    let r = get_best_move(&mut engine, p1, p2, true, u64::MAX, 3, &mut clock, &mut log).unwrap();
    assert!(!r.time_abort);
    assert_eq!(r.depth, 3);
    let c = cell(&r);
    assert!(c < 64);
    assert_eq!((p1 | p2) & (1u64 << c), 0);
    assert_eq!(log.sink.0.iter().map(|e| e.0).collect::<Vec<u8>>(), vec![1, 2, 3]);
    assert_eq!(log.sink.0[2].1, r.score);
    assert_eq!(log.sent, log.sink.0);
}

#[test]
fn search_after_clear_is_repeatable() {
    let mut engine = Engine::new();
    let p1 = bits(&[0, 21, 3]);
    let p2 = bits(&[5, 42, 60]);
    clear_tt(&mut engine);
    let a = run(&mut engine, p1, p2, false, 3).unwrap();
    clear_tt(&mut engine);
    let b = run(&mut engine, p1, p2, false, 3).unwrap();
    assert_eq!((cell(&a), a.score, a.depth), (cell(&b), b.score, b.depth));
}

#[test]
fn search_finds_win_in_two() {
    let mut engine = Engine::new();
    // p1 to move holds two cells on two rows meeting at cell 0 with the opponent absent:
    // playing cell 0 makes two threats at once.
    let p1 = bits(&[1, 2, 4, 8]);
    let p2 = bits(&[63, 62, 58, 47]);
    let r = run(&mut engine, p1, p2, true, 4).unwrap();
    assert!(r.score >= WIN_SCORE - 100);
    assert!(r.score <= WIN_SCORE + 4);
    assert!(r.depth >= 1);
    assert_eq!((r.x, r.y, r.z), (0, 0, 0));
    assert!(!r.time_abort);
}

#[test]
fn order_moves_puts_hint_then_weights() {
    let moves = order_moves(0, 0, Some(21));
    assert_eq!(moves.len(), 64);
    assert_eq!(moves[0], 21);
    assert_eq!(&moves[1..9], &[0, 3, 12, 15, 48, 51, 60, 63]);
    assert_eq!(&moves[9..16], &[22, 25, 26, 37, 38, 41, 42]);
    assert_eq!(moves[63], 62);
}

#[test]
fn order_moves_skips_occupied_cells() {
    let moves = order_moves(bits(&[0, 1]), bits(&[63]), Some(0));
    assert_eq!(moves.len(), 61);
    assert_eq!(&moves[0..6], &[3, 12, 15, 48, 51, 60]);
}

#[test]
fn tt_keeps_deeper_entry() {
    let mut tt = TranspositionTable::new();
    let deep = TTEntry { depth: 5, score: 10, flag: TT_EXACT, best_move: 7 };
    let shallow = TTEntry { depth: 2, score: -4, flag: TT_LOWER, best_move: 9 };
    tt.store(1, 2, true, deep);
    tt.store(1, 2, true, shallow);
    assert_eq!(tt.lookup(1, 2, true).unwrap().best_move, 7);
    let equal = TTEntry { depth: 5, score: 3, flag: TT_LOWER, best_move: 11 };
    tt.store(1, 2, true, equal);
    assert_eq!(tt.lookup(1, 2, true).unwrap().best_move, 11);
    assert!(tt.lookup(1, 2, false).is_none());
    tt.clear();
    assert!(tt.lookup(1, 2, true).is_none());
}

#[test]
fn tt_key_layout() {
    assert_eq!(tt_key(1, 0, false), 1u128 << 65);
    assert_eq!(tt_key(0, 1, true), 3);
}

#[test]
fn forced_win_iteration_is_not_reported() {
    let mut engine = Engine::new();
    let p1 = bits(&[1, 2, 4, 8]);
    let p2 = bits(&[63, 62, 58, 47]);
    let mut clock = Timer::new(Ticking(0));
    let mut log = Reporter::new(Log(Vec::new()));
    let r = get_best_move(&mut engine, p1, p2, true, u64::MAX, 6, &mut clock, &mut log).unwrap();
    assert!(r.score >= WIN_SCORE - 100);
    assert!(r.depth >= 1 && r.depth < 6);
    assert_eq!(log.sent.len(), r.depth as usize - 1);
    assert_eq!(log.sent, log.sink.0);
}

#[test]
fn frozen_clock_past_deadline_aborts() {
    let mut engine = Engine::new();
    let mut clock = Timer::new(Late(0));
    let mut log = Reporter::new(Log(Vec::new()));
    let r = get_best_move(&mut engine, bits(&[0, 21]), bits(&[5, 42]), true, 5, 14, &mut clock, &mut log)
        .unwrap();
    assert!(r.time_abort);
    assert_eq!(clock.readings, vec![10, 20]);
}

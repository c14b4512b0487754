use qubic_engine::search::{get_best_move, Clock, Engine, Progress, Reporter, SearchResult, Timer};

struct Ticking(u64);

impl Clock for Ticking {
    fn now_ms(&mut self) -> u64 {
        self.0 += 1;
        self.0
    }
}

struct Quiet;

impl Progress for Quiet {
    fn report(&mut self, _depth: u8, _score: i32) {}
}

fn search(engine: &mut Engine, p1: u64, p2: u64, ai_is_p1: bool, depth: u8) -> SearchResult {
    get_best_move(engine, p1, p2, ai_is_p1, u64::MAX, depth, &mut Timer::new(Ticking(0)), &mut Reporter::new(Quiet)).unwrap()
}

#[test]
fn searches_share_tt_without_changing_result() {
    let p1: u64 = (1 << 0) | (1 << 21) | (1 << 51);
    let p2: u64 = (1 << 5) | (1 << 42) | (1 << 60);
    let mut fresh = Engine::new();
    let a = search(&mut fresh, p1, p2, false, 3);
    let mut warm = Engine::new();
    search(&mut warm, p1 | (1 << 30), p2 | (1 << 12), false, 3);
    let b = search(&mut warm, p1, p2, false, 3);
    assert_eq!((a.x, a.y, a.z, a.score, a.depth), (b.x, b.y, b.z, b.score, b.depth));
}

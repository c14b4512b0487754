//! Negamax search with alpha-beta pruning, a transposition table and iterative deepening.

use vstd::prelude::*;
use crate::board::{
    bit_of, cell_bit, cell_index, check_win, empties, is_win, NUM_LINES, lemma_play, lemma_zero_empty, LineIndex,
    generate_winning_lines,
};
use crate::eval::{
    evaluate, evaluation, forced_move, get_forced_move, is_empty_cell, lemma_evaluation_bounded,
    lemma_forced_move_empty, lemma_forced_move_wins, threatens,
    WIN_SCORE,
};
use crate::movegen::{lemma_listed_empty, order_moves, ordered_moves};
use crate::tt::{key_of, TTEntry, TranspositionTable, SCORE_BOUND, TT_EXACT, TT_LOWER, TT_UPPER};

verus! {

/// Bound of the root search window.
pub const INF: i32 = 1_000_000;

/// The clock is read when the node counter masked by this value is zero.
pub const TIME_CHECK_INTERVAL: u32 = 4095;

/// Deepest iteration of the root driver.
pub const MAX_DEPTH: u8 = 14;

/// Source of the time, in milliseconds, against which the deadline is tested.
pub trait Clock {
    fn now_ms(&mut self) -> u64;
}

/// A clock with the record of every reading taken from it.
pub struct Timer<C: Clock> {
    pub clock: C,
    pub readings: Vec<u64>,
}

impl<C: Clock> Timer<C> {
    /// A timer that has taken no reading yet.
    pub fn new(clock: C) -> (r: Timer<C>)
        ensures
            r.readings@ == Seq::<u64>::empty(),
    {
        Timer { clock, readings: Vec::new() }
    }

    /// Reads the clock and records the reading.
    fn read(&mut self) -> (r: u64)
        ensures
            final(self).readings@ == old(self).readings@.push(r),
    {
        let now = self.clock.now_ms();
        self.readings.push(now);
        now
    }
}

/// `b` continues the readings `a`.
pub open spec fn continues(a: Seq<u64>, b: Seq<u64>) -> bool {
    a.len() <= b.len() && forall|j: int| #![trigger b[j]] 0 <= j < a.len() ==> b[j] == a[j]
}

/// Some reading from index `base` on is past `deadline`.
pub open spec fn read_past(readings: Seq<u64>, base: int, deadline: u64) -> bool {
    exists|j: int| 0 <= j && base <= j < readings.len() && #[trigger] readings[j] > deadline
}

proof fn lemma_read_past_kept(a: Seq<u64>, b: Seq<u64>, base0: int, base: int, deadline: u64)
    requires
        read_past(a, base, deadline),
        continues(a, b),
        base0 <= base,
    ensures
        read_past(b, base0, deadline),
{
    let j = choose|j: int| 0 <= j && base <= j < a.len() && #[trigger] a[j] > deadline;
    assert(b[j] == a[j]);
}

proof fn lemma_no_reading_past(a: Seq<u64>, b: Seq<u64>, base: int, deadline: u64)
    requires
        continues(a, b),
        !read_past(a, base, deadline),
        !read_past(b, a.len() as int, deadline),
    ensures
        !read_past(b, base, deadline),
{
    if read_past(b, base, deadline) {
        let j = choose|j: int| 0 <= j && base <= j < b.len() && #[trigger] b[j] > deadline;
        if j < a.len() {
            assert(a[j] == b[j]);
        }
    }
}

proof fn lemma_continues_trans(a: Seq<u64>, b: Seq<u64>, c: Seq<u64>)
    requires
        continues(a, b),
        continues(b, c),
    ensures
        continues(a, c),
{
    assert forall|j: int| #![trigger c[j]] 0 <= j < a.len() implies c[j] == a[j] by {
        assert(c[j] == b[j]);
    }
}

/// Receiver of the best score of each completed depth.
pub trait Progress {
    fn report(&mut self, depth: u8, score: i32);
}

/// A progress sink with the record of every `(depth, score)` handed to it.
pub struct Reporter<P: Progress> {
    pub sink: P,
    pub sent: Vec<(u8, i32)>,
}

impl<P: Progress> Reporter<P> {
    /// A reporter that has sent nothing yet.
    pub fn new(sink: P) -> (r: Reporter<P>)
        ensures
            r.sent@ == Seq::<(u8, i32)>::empty(),
    {
        Reporter { sink, sent: Vec::new() }
    }

    /// Hands `(depth, score)` to the sink and records it.
    fn send(&mut self, depth: u8, score: i32)
        ensures
            final(self).sent@ == old(self).sent@.push((depth, score)),
    {
        self.sink.report(depth, score);
        self.sent.push((depth, score));
    }
}

/// State of one root search: its deadline, the node counter and the abort flag.
struct SearchControl {
    deadline: u64,
    nodes: u32,
    aborted: bool,
}

/// A move with its score.
#[derive(Clone, Copy)]
pub struct Move {
    pub x: u8,
    pub y: u8,
    pub z: u8,
    pub score: i32,
}

/// Outcome of a root search: the chosen cell, its score, the depth reached, and whether
/// time ran out before any depth completed.
#[derive(Clone, Copy)]
pub struct SearchResult {
    pub x: u8,
    pub y: u8,
    pub z: u8,
    pub score: i32,
    pub depth: u8,
    pub time_abort: bool,
}

impl SearchResult {
    /// Linear index of the chosen cell.
    pub open spec fn cell(self) -> int {
        cell_index(self.x as int, self.y as int, self.z as int)
    }

    /// The result that names cell `c` with the given score and depth.
    pub open spec fn names(self, c: int, score: int, depth: int) -> bool {
        &&& self.x == c % 4
        &&& self.z == (c / 4) % 4
        &&& self.y == c / 16
        &&& self.score == score
        &&& self.depth == depth
        &&& !self.time_abort
    }
}

/// The engine's lasting state: the line index and the transposition table.
pub struct Engine {
    pub lines: LineIndex,
    pub tt: TranspositionTable,
}

impl Engine {
    pub open spec fn wf(&self) -> bool {
        self.lines.wf() && self.tt.wf()
    }

    /// An engine with an empty transposition table.
    pub fn new() -> (r: Engine)
        ensures
            r.wf(),
            r.tt@ == Map::<u128, TTEntry>::empty(),
    {
        Engine { lines: generate_winning_lines(), tt: TranspositionTable::new() }
    }
}

/// Drops every entry of the engine's transposition table.
pub fn clear_tt(engine: &mut Engine)
    requires
        old(engine).wf(),
    ensures
        final(engine).wf(),
        final(engine).tt@ == Map::<u128, TTEntry>::empty(),
{
    engine.tt.clear();
}

/// Mask of the side to move.
pub open spec fn mover(p1: u64, p2: u64, p1_to_move: bool) -> u64 {
    if p1_to_move {
        p1
    } else {
        p2
    }
}

/// Mask of the side that just moved.
pub open spec fn waiter(p1: u64, p2: u64, p1_to_move: bool) -> u64 {
    if p1_to_move {
        p2
    } else {
        p1
    }
}

/// Counts one node and, every `TIME_CHECK_INTERVAL + 1` nodes, raises the abort flag
/// when the clock is past the deadline.
fn count_node<C: Clock>(ctl: &mut SearchControl, clock: &mut Timer<C>)
    ensures
        continues(old(clock).readings@, final(clock).readings@),
        final(ctl).aborted == (old(ctl).aborted || read_past(
            final(clock).readings@,
            old(clock).readings@.len() as int,
            final(ctl).deadline,
        )),
        final(ctl).deadline == old(ctl).deadline,
        old(ctl).aborted ==> final(ctl).aborted,
        old(ctl).deadline == u64::MAX ==> final(ctl).aborted == old(ctl).aborted,
{
    ctl.nodes = if ctl.nodes == u32::MAX {
        0
    } else {
        ctl.nodes + 1
    };
    if ctl.nodes & TIME_CHECK_INTERVAL == 0 {
        let now = clock.read();
        if now > ctl.deadline {
            ctl.aborted = true;
            assert(clock.readings@[clock.readings@.len() - 1] > ctl.deadline);
        } else {
            assert forall|j: int| 0 <= j && old(clock).readings@.len() <= j < clock.readings@.len()
                implies !(#[trigger] clock.readings@[j] > ctl.deadline) by {
                assert(j == clock.readings@.len() - 1);
            }
        }
    }
}

/// Puts a stone of the side to move on cell `c`.
fn play(p1: u64, p2: u64, p1_to_move: bool, c: u8) -> (r: (u64, u64))
    requires
        c < 64,
    ensures
        r.0 == (if p1_to_move { p1 | bit_of(c as int) } else { p1 }),
        r.1 == (if p1_to_move { p2 } else { p2 | bit_of(c as int) }),
{
    let b = cell_bit(c);
    if p1_to_move {
        (p1 | b, p2)
    } else {
        (p1, p2 | b)
    }
}

/// The table after storing `e` under `key`, unless a strictly deeper entry is there.
pub open spec fn stored(tt: Map<u128, TTEntry>, key: u128, e: TTEntry) -> Map<u128, TTEntry> {
    if tt.contains_key(key) && tt[key].depth > e.depth {
        tt
    } else {
        tt.insert(key, e)
    }
}

/// Bound flag of the fail-soft value `v` found in the window `[alpha, beta]`.
pub open spec fn bound_flag(v: int, alpha: int, beta: int) -> u8 {
    if v <= alpha {
        TT_UPPER
    } else if v >= beta {
        TT_LOWER
    } else {
        TT_EXACT
    }
}

/// The position after the side to move plays cell `m`.
pub open spec fn child(p1: u64, p2: u64, p1_to_move: bool, m: u8) -> (u64, u64) {
    if p1_to_move {
        (p1 | bit_of(m as int), p2)
    } else {
        (p1, p2 | bit_of(m as int))
    }
}

/// The table holds an entry for `key` searched at least `depth` deep.
pub open spec fn usable(tt: Map<u128, TTEntry>, key: u128, depth: int) -> bool {
    tt.contains_key(key) && tt[key].depth >= depth
}

/// The moves searched at a node: the forced move alone, else the ordered empty cells.
pub open spec fn node_moves(tt: Map<u128, TTEntry>, p1: u64, p2: u64, p1_to_move: bool) -> Seq<u8> {
    let me = mover(p1, p2, p1_to_move);
    let opp = waiter(p1, p2, p1_to_move);
    let key = key_of(p1, p2, p1_to_move);
    let hint = if tt.contains_key(key) {
        Some(tt[key].best_move)
    } else {
        None
    };
    if forced_move(me, opp).is_some() {
        seq![forced_move(me, opp).unwrap() as u8]
    } else {
        ordered_moves(p1, p2, hint)
    }
}

/// Value and resulting table of an alpha-beta search of the position, `depth` plies deep
/// within `[alpha, beta]`, starting from table `tt`: a win of the side that just moved
/// scores `-WIN_SCORE - depth`; depth 0 is evaluated; a usable table entry is returned when
/// exact, otherwise narrows the window and is returned when the window closes; a forced move
/// is searched alone at unchanged depth, otherwise the ordered moves one ply shallower; the
/// best value is kept fail-soft from the first move's value on, with a cutoff once alpha
/// reaches beta; no move is a draw. The value is stored with the flag taken from the
/// original window. `fuel` counts the empty cells.
pub open spec fn ab_value(
    tt: Map<u128, TTEntry>,
    p1: u64,
    p2: u64,
    depth: int,
    alpha: int,
    beta: int,
    p1_to_move: bool,
    fuel: nat,
) -> (int, Map<u128, TTEntry>)
    decreases fuel, 1nat, 0int,
{
    let me = mover(p1, p2, p1_to_move);
    let opp = waiter(p1, p2, p1_to_move);
    let key = key_of(p1, p2, p1_to_move);
    if is_win(opp) {
        (-WIN_SCORE - depth, tt)
    } else if depth <= 0 {
        (evaluation(me, opp), tt)
    } else {
        let e = tt[key];
        let probe = usable(tt, key, depth);
        let a1 = if probe && e.flag == TT_LOWER && e.score > alpha {
            e.score as int
        } else {
            alpha
        };
        let b1 = if probe && e.flag == TT_UPPER && e.score < beta {
            e.score as int
        } else {
            beta
        };
        if probe && e.flag == TT_EXACT {
            (e.score as int, tt)
        } else if probe && a1 >= b1 {
            (e.score as int, tt)
        } else {
            let moves = node_moves(tt, p1, p2, p1_to_move);
            let cd = if forced_move(me, opp).is_some() {
                depth
            } else {
                depth - 1
            };
            if moves.len() == 0 {
                (0, tt)
            } else {
                let res = ab_loop(tt, p1, p2, p1_to_move, moves, 0, cd, a1, b1, -INF as int, moves[0], fuel);
                (
                    res.0,
                    stored(
                        res.2,
                        key,
                        TTEntry {
                            depth: depth as i8,
                            score: res.0 as i32,
                            flag: bound_flag(res.0, alpha, beta),
                            best_move: res.1,
                        },
                    ),
                )
            }
        }
    }
}

/// A usable table entry that is exact, or a bound that already closes the window, is the
/// value of the node, and the table is left as it was.
pub proof fn lemma_entry_cutoff(
    tt: Map<u128, TTEntry>,
    p1: u64,
    p2: u64,
    depth: int,
    alpha: int,
    beta: int,
    p1_to_move: bool,
    fuel: nat,
)
    requires
        !is_win(waiter(p1, p2, p1_to_move)),
        depth > 0,
        usable(tt, key_of(p1, p2, p1_to_move), depth),
        ({
            let e = tt[key_of(p1, p2, p1_to_move)];
            e.flag == TT_EXACT || (e.flag == TT_LOWER && e.score >= beta) || (e.flag == TT_UPPER
                && e.score <= alpha)
        }),
    ensures
        ab_value(tt, p1, p2, depth, alpha, beta, p1_to_move, fuel) == (
        tt[key_of(p1, p2, p1_to_move)].score as int,
        tt,
        ),
{
}

/// When the side to move has three cells on a line that the opponent has not entered, and
/// the table holds no usable entry, the node scores `WIN_SCORE + depth`: the winning cell is
/// searched alone at unchanged depth.
pub proof fn lemma_forced_win_value(
    tt: Map<u128, TTEntry>,
    p1: u64,
    p2: u64,
    depth: int,
    alpha: int,
    beta: int,
    p1_to_move: bool,
    k: int,
)
    requires
        p1 & p2 == 0,
        !is_win(waiter(p1, p2, p1_to_move)),
        depth > 0,
        !usable(tt, key_of(p1, p2, p1_to_move), depth),
        0 <= k < NUM_LINES,
        threatens(mover(p1, p2, p1_to_move), waiter(p1, p2, p1_to_move), k),
    ensures
        ab_value(tt, p1, p2, depth, alpha, beta, p1_to_move, empties(p1, p2) as nat).0 == WIN_SCORE + depth,
{
    let me = mover(p1, p2, p1_to_move);
    let opp = waiter(p1, p2, p1_to_move);
    lemma_forced_move_wins(me, opp, k);
    lemma_forced_move_empty(me, opp);
    let c = forced_move(me, opp).unwrap();
    lemma_play(p1, p2, c);
    assert((c as u8) as int == c);
    let moves = node_moves(tt, p1, p2, p1_to_move);
    assert(moves == seq![c as u8]);
    let np = child(p1, p2, p1_to_move, c as u8);
    assert(is_win(waiter(np.0, np.1, !p1_to_move)));
    let fuel = empties(p1, p2) as nat;
    assert(fuel > 0);
    assert(ab_value(tt, np.0, np.1, depth, -beta, -alpha, !p1_to_move, (fuel - 1) as nat) == (
    -WIN_SCORE - depth,
    tt,
    ));
    let val = WIN_SCORE + depth;
    let alpha2 = if val > alpha {
        val
    } else {
        alpha
    };
    assert(ab_loop(tt, p1, p2, p1_to_move, moves, 1, depth, alpha2, beta, val, c as u8, fuel) == (
    val,
    c as u8,
    tt,
    ));
    assert(ab_loop(tt, p1, p2, p1_to_move, moves, 0, depth, alpha, beta, -INF as int, moves[0], fuel).0
        == val);
}

/// On a full board with no usable table entry the node is a draw, and the table is
/// left as it was.
pub proof fn lemma_full_board_draw(
    tt: Map<u128, TTEntry>,
    p1: u64,
    p2: u64,
    depth: int,
    alpha: int,
    beta: int,
    p1_to_move: bool,
    fuel: nat,
)
    requires
        forall|c: int| 0 <= c < 64 ==> !is_empty_cell(p1, p2, c),
        !is_win(waiter(p1, p2, p1_to_move)),
        depth > 0,
        !usable(tt, key_of(p1, p2, p1_to_move), depth),
    ensures
        ab_value(tt, p1, p2, depth, alpha, beta, p1_to_move, fuel) == (0int, tt),
{
    let me = mover(p1, p2, p1_to_move);
    let opp = waiter(p1, p2, p1_to_move);
    if forced_move(me, opp).is_some() {
        lemma_forced_move_empty(me, opp);
        assert(is_empty_cell(p1, p2, forced_move(me, opp).unwrap()));
    }
    let key = key_of(p1, p2, p1_to_move);
    let hint = if tt.contains_key(key) {
        Some(tt[key].best_move)
    } else {
        None
    };
    lemma_listed_empty(p1, p2, hint, 3, 64);
    if ordered_moves(p1, p2, hint).len() > 0 {
        assert(is_empty_cell(p1, p2, ordered_moves(p1, p2, hint)[0] as int));
    }
}

/// Every stored score lies within `[-b, b]`.
pub open spec fn scores_within(tt: Map<u128, TTEntry>, b: int) -> bool {
    forall|k: u128| #[trigger] tt.contains_key(k) ==> -b <= tt[k].score <= b
}

/// Scores stay inside the mate band: when the remaining depth is at most `b - WIN_SCORE` and
/// every stored score lies within `[-b, b]`, so does the value, and so do the scores of the
/// resulting table.
pub proof fn lemma_mate_band(
    tt: Map<u128, TTEntry>,
    p1: u64,
    p2: u64,
    depth: int,
    alpha: int,
    beta: int,
    p1_to_move: bool,
    fuel: nat,
    b: int,
)
    requires
        0 <= depth,
        WIN_SCORE + depth <= b <= SCORE_BOUND,
        scores_within(tt, b),
    ensures
        -b <= ab_value(tt, p1, p2, depth, alpha, beta, p1_to_move, fuel).0 <= b,
        scores_within(ab_value(tt, p1, p2, depth, alpha, beta, p1_to_move, fuel).1, b),
    decreases fuel, 1nat, 0int,
{
    let me = mover(p1, p2, p1_to_move);
    let opp = waiter(p1, p2, p1_to_move);
    let key = key_of(p1, p2, p1_to_move);
    if is_win(opp) {
    } else if depth <= 0 {
        if !is_win(me) {
            lemma_evaluation_bounded(me, opp);
        }
    } else {
        let moves = node_moves(tt, p1, p2, p1_to_move);
        let cd = if forced_move(me, opp).is_some() {
            depth
        } else {
            depth - 1
        };
        let e = tt[key];
        let probe = usable(tt, key, depth);
        let a1 = if probe && e.flag == TT_LOWER && e.score > alpha {
            e.score as int
        } else {
            alpha
        };
        let b1 = if probe && e.flag == TT_UPPER && e.score < beta {
            e.score as int
        } else {
            beta
        };
        if moves.len() > 0 {
            lemma_mate_band_loop(tt, p1, p2, p1_to_move, moves, 0, cd, a1, b1, -INF as int, moves[0], fuel, b);
            let res = ab_loop(tt, p1, p2, p1_to_move, moves, 0, cd, a1, b1, -INF as int, moves[0], fuel);
            let entry = TTEntry {
                depth: depth as i8,
                score: res.0 as i32,
                flag: bound_flag(res.0, alpha, beta),
                best_move: res.1,
            };
            let t = stored(res.2, key, entry);
            assert forall|k: u128| #[trigger] t.contains_key(k) implies -b <= t[k].score <= b by {
                if k != key {
                    assert(res.2.contains_key(k));
                }
            }
        }
    }
}

proof fn lemma_mate_band_loop(
    tt: Map<u128, TTEntry>,
    p1: u64,
    p2: u64,
    p1_to_move: bool,
    moves: Seq<u8>,
    i: int,
    cd: int,
    alpha: int,
    beta: int,
    best: int,
    bm: u8,
    fuel: nat,
    b: int,
)
    requires
        0 <= cd,
        WIN_SCORE + cd <= b <= SCORE_BOUND,
        -b <= best <= b,
        scores_within(tt, b),
    ensures
        -b <= ab_loop(tt, p1, p2, p1_to_move, moves, i, cd, alpha, beta, best, bm, fuel).0 <= b,
        scores_within(ab_loop(tt, p1, p2, p1_to_move, moves, i, cd, alpha, beta, best, bm, fuel).2, b),
    decreases fuel, 0nat, moves.len() - i,
{
    if i >= moves.len() || i < 0 {
    } else {
        let m = moves[i];
        let np = child(p1, p2, p1_to_move, m);
        if fuel > 0 {
            lemma_mate_band(tt, np.0, np.1, cd, -beta, -alpha, !p1_to_move, (fuel - 1) as nat, b);
        }
        let sub = if fuel > 0 {
            ab_value(tt, np.0, np.1, cd, -beta, -alpha, !p1_to_move, (fuel - 1) as nat)
        } else {
            (0int, tt)
        };
        let val = -sub.0;
        let best2 = if i == 0 || val > best {
            val
        } else {
            best
        };
        let bm2 = if i == 0 || val > best {
            m
        } else {
            bm
        };
        let alpha2 = if val > alpha {
            val
        } else {
            alpha
        };
        if alpha2 < beta {
            lemma_mate_band_loop(sub.1, p1, p2, p1_to_move, moves, i + 1, cd, alpha2, beta, best2, bm2, fuel, b);
        }
    }
}

/// Searches `moves[i..]` in order from table `tt`, with the best value `best` reached by
/// move `bm` so far; returns the best value, its move and the table.
pub open spec fn ab_loop(
    tt: Map<u128, TTEntry>,
    p1: u64,
    p2: u64,
    p1_to_move: bool,
    moves: Seq<u8>,
    i: int,
    cd: int,
    alpha: int,
    beta: int,
    best: int,
    bm: u8,
    fuel: nat,
) -> (int, u8, Map<u128, TTEntry>)
    decreases fuel, 0nat, moves.len() - i,
{
    if i >= moves.len() || i < 0 {
        (best, bm, tt)
    } else {
        let m = moves[i];
        let np = child(p1, p2, p1_to_move, m);
        let sub = if fuel > 0 {
            ab_value(tt, np.0, np.1, cd, -beta, -alpha, !p1_to_move, (fuel - 1) as nat)
        } else {
            (0int, tt)
        };
        let val = -sub.0;
        let best2 = if i == 0 || val > best {
            val
        } else {
            best
        };
        let bm2 = if i == 0 || val > best {
            m
        } else {
            bm
        };
        let alpha2 = if val > alpha {
            val
        } else {
            alpha
        };
        if alpha2 >= beta {
            (best2, bm2, sub.1)
        } else {
            ab_loop(sub.1, p1, p2, p1_to_move, moves, i + 1, cd, alpha2, beta, best2, bm2, fuel)
        }
    }
}

/// Score of the position for the side to move, searched `depth` plies deep within the
/// window `[alpha, beta]` (fail-soft), as `ab_value` states from the table it starts with.
/// Returns 0 once the search is aborted; the abort comes from a clock reading past the deadline.
fn negamax<C: Clock>(
    lines: &LineIndex,
    tt: &mut TranspositionTable,
    ctl: &mut SearchControl,
    clock: &mut Timer<C>,
    p1: u64,
    p2: u64,
    depth: i8,
    alpha: i32,
    beta: i32,
    p1_to_move: bool,
) -> (r: i32)
    requires
        lines.wf(),
        old(tt).wf(),
        p1 & p2 == 0,
        depth >= 0,
        -SCORE_BOUND <= alpha <= SCORE_BOUND,
        -SCORE_BOUND <= beta <= SCORE_BOUND,
    ensures
        final(tt).wf(),
        -SCORE_BOUND <= r <= SCORE_BOUND,
        final(ctl).deadline == old(ctl).deadline,
        old(ctl).aborted ==> final(ctl).aborted,
        old(ctl).deadline == u64::MAX && !old(ctl).aborted ==> !final(ctl).aborted,
        final(ctl).aborted ==> r == 0,
        continues(old(clock).readings@, final(clock).readings@),
        final(ctl).aborted == (old(ctl).aborted || read_past(
            final(clock).readings@,
            old(clock).readings@.len() as int,
            final(ctl).deadline,
        )),
        old(ctl).aborted ==> final(tt)@ == old(tt)@,
        !final(ctl).aborted ==> (r as int, final(tt)@) == ab_value(
            old(tt)@,
            p1,
            p2,
            depth as int,
            alpha as int,
            beta as int,
            p1_to_move,
            empties(p1, p2) as nat,
        ),
    decreases empties(p1, p2),
{
    count_node(ctl, clock);
    if ctl.aborted {
        return 0;
    }
    let me = if p1_to_move { p1 } else { p2 };
    let opp = if p1_to_move { p2 } else { p1 };
    if check_win(lines, opp) {
        return -WIN_SCORE - depth as i32;
    }
    if depth <= 0 {
        let v = evaluate(lines, me, opp);
        proof {
            if !is_win(me) {
                lemma_evaluation_bounded(me, opp);
            }
        }
        return v;
    }
    let orig_alpha = alpha;
    let orig_beta = beta;
    let mut alpha = alpha;
    let mut beta = beta;
    let mut hint: Option<u8> = None;
    match tt.lookup(p1, p2, p1_to_move) {
        Some(entry) => {
            hint = Some(entry.best_move);
            if entry.depth >= depth {
                if entry.flag == TT_EXACT {
                    return entry.score;
                } else if entry.flag == TT_LOWER {
                    if entry.score > alpha {
                        alpha = entry.score;
                    }
                } else if entry.flag == TT_UPPER {
                    if entry.score < beta {
                        beta = entry.score;
                    }
                }
                if alpha >= beta {
                    return entry.score;
                }
            }
        },
        None => {},
    }
    let forced = get_forced_move(lines, me, opp);
    let (moves, child_depth) = match forced {
        Some(c) => {
            let mut v: Vec<u8> = Vec::new();
            v.push(c);
            (v, depth)
        },
        None => (order_moves(p1, p2, hint), depth - 1),
    };
    let ghost fuel = empties(p1, p2) as nat;
    proof {
        assert(moves@ =~= node_moves(old(tt)@, p1, p2, p1_to_move));
    }
    let n = moves.len();
    if n == 0 {
        return 0;
    }
    let mut max_val: i32 = -INF;
    let mut best_move: u8 = moves[0];
    let ghost tt0 = tt@;
    let ghost a1 = alpha as int;
    let mut i: usize = 0;
    while i < n
        invariant_except_break
            ab_loop(tt0, p1, p2, p1_to_move, moves@, 0, child_depth as int, a1, beta as int, -INF as int, moves@[0], fuel)
                == ab_loop(tt@, p1, p2, p1_to_move, moves@, i as int, child_depth as int, alpha as int, beta as int, max_val as int, best_move, fuel),
        invariant
            fuel == empties(p1, p2) as nat,
            lines.wf(),
            tt.wf(),
            p1 & p2 == 0,
            0 <= child_depth <= depth,
            n == moves@.len(),
            forall|j: int| 0 <= j < n ==> #[trigger] moves@[j] < 64 && is_empty_cell(p1, p2, moves@[j] as int),
            -SCORE_BOUND <= alpha <= SCORE_BOUND,
            -SCORE_BOUND <= beta <= SCORE_BOUND,
            -SCORE_BOUND <= max_val <= SCORE_BOUND,
            best_move < 64,
            !ctl.aborted,
            ctl.deadline == old(ctl).deadline,
            old(ctl).deadline == u64::MAX ==> !old(ctl).aborted,
            !old(ctl).aborted,
            continues(old(clock).readings@, clock.readings@),
            !read_past(clock.readings@, old(clock).readings@.len() as int, ctl.deadline),
            i <= n,
        ensures
            ab_loop(tt0, p1, p2, p1_to_move, moves@, 0, child_depth as int, a1, beta as int, -INF as int, moves@[0], fuel)
                == (max_val as int, best_move, tt@),
        decreases n - i,
    {
        let m = moves[i];
        let (np1, np2) = play(p1, p2, p1_to_move, m);
        proof {
            lemma_play(p1, p2, m as int);
        }
        let ghost tt_b = tt@;
        let ghost alpha_b = alpha as int;
        let ghost best_b = max_val as int;
        let ghost bm_b = best_move;
        let ghost rs_b = clock.readings@;
        let v = negamax(lines, tt, ctl, clock, np1, np2, child_depth, -beta, -alpha, !p1_to_move);
        proof {
            lemma_continues_trans(old(clock).readings@, rs_b, clock.readings@);
            if !ctl.aborted {
                lemma_no_reading_past(rs_b, clock.readings@, old(clock).readings@.len() as int, ctl.deadline);
            }
        }
        if ctl.aborted {
            proof {
                lemma_read_past_kept(clock.readings@, clock.readings@, old(clock).readings@.len() as int, rs_b.len() as int, ctl.deadline);
            }
            return 0;
        }
        let val = -v;
        if i == 0 || val > max_val {
            max_val = val;
            best_move = m;
        }
        if val > alpha {
            alpha = val;
        }
        assert(ab_loop(tt_b, p1, p2, p1_to_move, moves@, i as int, child_depth as int, alpha_b, beta as int, best_b, bm_b, fuel)
            == if alpha >= beta {
                (max_val as int, best_move, tt@)
            } else {
                ab_loop(tt@, p1, p2, p1_to_move, moves@, i + 1, child_depth as int, alpha as int, beta as int, max_val as int, best_move, fuel)
            });
        if alpha >= beta {
            break;
        }
        i = i + 1;
    }
    let flag = if max_val <= orig_alpha {
        TT_UPPER
    } else if max_val >= orig_beta {
        TT_LOWER
    } else {
        TT_EXACT
    };
    tt.store(p1, p2, p1_to_move, TTEntry { depth, score: max_val, flag, best_move });
    max_val
}


/// Searches the root moves `moves[i..]` in order from table `tt` at `depth`, each child
/// with the window `(-INF, -alpha)`; returns the best score, its move and the table.
pub open spec fn root_loop(
    tt: Map<u128, TTEntry>,
    p1: u64,
    p2: u64,
    p1_to_move: bool,
    moves: Seq<u8>,
    i: int,
    depth: int,
    alpha: int,
    best: int,
    cur: Option<u8>,
) -> (int, Option<u8>, Map<u128, TTEntry>)
    decreases moves.len() - i,
{
    if i >= moves.len() || i < 0 {
        (best, cur, tt)
    } else {
        let m = moves[i];
        let np = child(p1, p2, p1_to_move, m);
        let sub = ab_value(tt, np.0, np.1, depth - 1, -INF as int, -alpha, !p1_to_move, empties(np.0, np.1) as nat);
        let score = -sub.0;
        let take = cur.is_none() || score > best;
        root_loop(
            sub.1,
            p1,
            p2,
            p1_to_move,
            moves,
            i + 1,
            depth,
            if score > alpha { score } else { alpha },
            if take { score } else { best },
            if take { Some(m) } else { cur },
        )
    }
}

/// One root iteration at `depth` from table `tt`: best score, best move, resulting table.
pub open spec fn root_iteration(tt: Map<u128, TTEntry>, p1: u64, p2: u64, p1_to_move: bool, depth: int) -> (int, Option<u8>, Map<u128, TTEntry>) {
    let key = key_of(p1, p2, p1_to_move);
    let hint = if tt.contains_key(key) {
        Some(tt[key].best_move)
    } else {
        None
    };
    root_loop(tt, p1, p2, p1_to_move, ordered_moves(p1, p2, hint), 0, depth, -INF as int, -INF as int, None)
}

/// The table at the start of iteration `d`, when the iterations before it completed.
pub open spec fn table_before(tt0: Map<u128, TTEntry>, p1: u64, p2: u64, p1_to_move: bool, d: int) -> Map<u128, TTEntry>
    decreases d,
{
    if d <= 1 {
        tt0
    } else {
        root_iteration(table_before(tt0, p1, p2, p1_to_move, d - 1), p1, p2, p1_to_move, d - 1).2
    }
}

/// Outcome of iteration `d` of the deepening that starts from table `tt0`.
pub open spec fn iteration_outcome(tt0: Map<u128, TTEntry>, p1: u64, p2: u64, p1_to_move: bool, d: int) -> (int, Option<u8>, Map<u128, TTEntry>) {
    root_iteration(table_before(tt0, p1, p2, p1_to_move, d), p1, p2, p1_to_move, d)
}

/// What the deepening from table `tt0` reports for depths `1 ..= k`.
pub open spec fn progress_log(tt0: Map<u128, TTEntry>, p1: u64, p2: u64, p1_to_move: bool, k: int) -> Seq<(u8, i32)>
    decreases k,
{
    if k <= 0 {
        Seq::empty()
    } else {
        progress_log(tt0, p1, p2, p1_to_move, k - 1).push(
            (k as u8, iteration_outcome(tt0, p1, p2, p1_to_move, k).0 as i32),
        )
    }
}

/// `r` reports the best move and score of iteration `r.depth`, no earlier iteration having
/// reached the forced-win band.
pub open spec fn deepening_result(
    tt0: Map<u128, TTEntry>,
    p1: u64,
    p2: u64,
    p1_to_move: bool,
    max_depth: int,
    r: SearchResult,
) -> bool {
    let d = r.depth as int;
    let o = iteration_outcome(tt0, p1, p2, p1_to_move, d);
    &&& 1 <= d <= max_depth
    &&& o.1.is_some()
    &&& r.names(o.1.unwrap() as int, o.0, d)
    &&& forall|e: int|
        1 <= e < d ==> (#[trigger] iteration_outcome(tt0, p1, p2, p1_to_move, e)).0 < WIN_SCORE - 100
}

/// With unlimited time the deepening stops at `max_depth` or at the first iteration in the
/// forced-win band, so two searches from equal tables (for instance both right after
/// `clear_tt`) return the same result.
pub proof fn lemma_unlimited_search_determined(
    tt0: Map<u128, TTEntry>,
    p1: u64,
    p2: u64,
    p1_to_move: bool,
    max_depth: int,
    r1: SearchResult,
    r2: SearchResult,
)
    requires
        deepening_result(tt0, p1, p2, p1_to_move, max_depth, r1),
        deepening_result(tt0, p1, p2, p1_to_move, max_depth, r2),
        r1.depth == max_depth || r1.score >= WIN_SCORE - 100,
        r2.depth == max_depth || r2.score >= WIN_SCORE - 100,
    ensures
        r1 == r2,
{
    let d1 = r1.depth as int;
    let d2 = r2.depth as int;
    if d1 < d2 {
        assert(iteration_outcome(tt0, p1, p2, p1_to_move, d1).0 < WIN_SCORE - 100);
    }
    if d2 < d1 {
        assert(iteration_outcome(tt0, p1, p2, p1_to_move, d2).0 < WIN_SCORE - 100);
    }
}

/// How many depths a search that returned `r` reported: every completed depth, except one
/// that ended the search in the forced-win band.
pub open spec fn reported_depths(r: Option<SearchResult>) -> int {
    if r.is_none() {
        0
    } else if r.unwrap().depth >= 1 && r.unwrap().score >= WIN_SCORE - 100 {
        r.unwrap().depth - 1
    } else {
        r.unwrap().depth as int
    }
}

/// The result naming cell `c` with the given score and depth.
fn result_for(c: u8, score: i32, depth: u8) -> (r: SearchResult)
    requires
        c < 64,
    ensures
        r.names(c as int, score as int, depth as int),
        r.cell() == c,
{
    SearchResult { x: c % 4, y: c / 16, z: (c / 4) % 4, score, depth, time_abort: false }
}

/// Deadline `limit` milliseconds after `now`, saturating at the end of time.
pub open spec fn deadline_after_spec(now: u64, limit: u64) -> u64 {
    if now + limit > u64::MAX {
        u64::MAX
    } else {
        (now + limit) as u64
    }
}

fn deadline_after(now: u64, limit: u64) -> (r: u64)
    ensures
        r == deadline_after_spec(now, limit),
{
    if limit > u64::MAX - now {
        u64::MAX
    } else {
        now + limit
    }
}

/// Chooses a move for the engine's side (`p1` when `ai_is_p1`) within `time_limit_ms`
/// milliseconds of `clock`.
///
/// On the empty board it plays the corner cell 0; where a forced move exists (a win, else a
/// block) it plays it; both with score `WIN_SCORE` and depth 0. Otherwise it deepens from
/// depth 1 to `max_depth`: each iteration searches the ordered root moves with negamax and
/// keeps the best; each completed iteration is reported to `progress` and replaces the
/// result; it stops early once an iteration reaches the forced-win band, and when a clock
/// reading is past the deadline (an iteration cut short is discarded). Returns `None` when
/// the board is full, and a result marked `time_abort` when no iteration completed. Every
/// clock reading is recorded in `clock.readings`, every report in `progress.sent`.
pub fn get_best_move<C: Clock, P: Progress>(
    engine: &mut Engine,
    p1_mask: u64,
    p2_mask: u64,
    ai_is_p1: bool,
    time_limit_ms: u64,
    max_depth: u8,
    clock: &mut Timer<C>,
    progress: &mut Reporter<P>,
) -> (r: Option<SearchResult>)
    requires
        old(engine).wf(),
        p1_mask & p2_mask == 0,
        max_depth <= 127,
    ensures
        final(engine).wf(),
        r.is_none() <==> (forall|c: int| 0 <= c < 64 ==> !is_empty_cell(p1_mask, p2_mask, c)),
        p1_mask == 0 && p2_mask == 0 ==> r == Some(
            SearchResult { x: 0, y: 0, z: 0, score: WIN_SCORE, depth: 0, time_abort: false },
        ),
        !(p1_mask == 0 && p2_mask == 0) && forced_move(
            mover(p1_mask, p2_mask, ai_is_p1),
            waiter(p1_mask, p2_mask, ai_is_p1),
        ).is_some() ==> r.is_some() && r.unwrap().names(
            forced_move(mover(p1_mask, p2_mask, ai_is_p1), waiter(p1_mask, p2_mask, ai_is_p1)).unwrap(),
            WIN_SCORE as int,
            0,
        ),
        r.is_some() && !r.unwrap().time_abort ==> 0 <= r.unwrap().cell() < 64 && is_empty_cell(
            p1_mask,
            p2_mask,
            r.unwrap().cell(),
        ) && r.unwrap().depth <= max_depth,
        r.is_some() && r.unwrap().time_abort ==> r.unwrap().depth == 0,
        r.is_some() && max_depth >= 1 && (r.unwrap().time_abort || (!(p1_mask == 0 && p2_mask == 0)
            && forced_move(mover(p1_mask, p2_mask, ai_is_p1), waiter(p1_mask, p2_mask, ai_is_p1)).is_none()
            && r.unwrap().depth < max_depth && r.unwrap().score < WIN_SCORE - 100)) ==> ({
            let rs = final(clock).readings@;
            let s0 = old(clock).readings@.len() as int;
            s0 < rs.len() && read_past(rs, s0, deadline_after_spec(rs[s0], time_limit_ms))
        }),
        continues(old(clock).readings@, final(clock).readings@),
        !(p1_mask == 0 && p2_mask == 0) && forced_move(
            mover(p1_mask, p2_mask, ai_is_p1),
            waiter(p1_mask, p2_mask, ai_is_p1),
        ).is_none() && max_depth >= 1 && r.is_some() ==> ({
            let rs = final(clock).readings@;
            let s0 = old(clock).readings@.len() as int;
            let dl = deadline_after_spec(rs[s0], time_limit_ms);
            &&& s0 + 1 < rs.len()
            &&& rs[s0 + 1] > dl ==> r.unwrap().time_abort
            &&& !read_past(rs, s0, dl) ==> !r.unwrap().time_abort && (r.unwrap().depth == max_depth
                || r.unwrap().score >= WIN_SCORE - 100)
        }),
        r.is_some() ==> r.unwrap().x <= 3 && r.unwrap().y <= 3 && r.unwrap().z <= 3,
        final(progress).sent@ == old(progress).sent@ + progress_log(
            old(engine).tt@,
            p1_mask,
            p2_mask,
            ai_is_p1,
            reported_depths(r),
        ),
        !(p1_mask == 0 && p2_mask == 0) && forced_move(
            mover(p1_mask, p2_mask, ai_is_p1),
            waiter(p1_mask, p2_mask, ai_is_p1),
        ).is_none() && r.is_some() && !r.unwrap().time_abort ==> deepening_result(
            old(engine).tt@,
            p1_mask,
            p2_mask,
            ai_is_p1,
            max_depth as int,
            r.unwrap(),
        ),
        time_limit_ms == u64::MAX && max_depth >= 1 && r.is_some() ==> !r.unwrap().time_abort,
        time_limit_ms == u64::MAX && r.is_some() && !(p1_mask == 0 && p2_mask == 0) && forced_move(
            mover(p1_mask, p2_mask, ai_is_p1),
            waiter(p1_mask, p2_mask, ai_is_p1),
        ).is_none() ==> r.unwrap().depth == max_depth || r.unwrap().score >= WIN_SCORE - 100,
{
    let me = if ai_is_p1 { p1_mask } else { p2_mask };
    let opp = if ai_is_p1 { p2_mask } else { p1_mask };
    if p1_mask == 0 && p2_mask == 0 {
        proof {
            lemma_zero_empty(0);
            assert(is_empty_cell(p1_mask, p2_mask, 0));
        }
        return Some(SearchResult { x: 0, y: 0, z: 0, score: WIN_SCORE, depth: 0, time_abort: false });
    }
    match get_forced_move(&engine.lines, me, opp) {
        Some(c) => {
            assert(is_empty_cell(p1_mask, p2_mask, c as int));
            return Some(result_for(c, WIN_SCORE, 0));
        },
        None => {},
    }
    let first_hint = match engine.tt.lookup(p1_mask, p2_mask, ai_is_p1) {
        Some(e) => Some(e.best_move),
        None => None,
    };
    let first_moves = order_moves(p1_mask, p2_mask, first_hint);
    if first_moves.len() == 0 {
        return None;
    }
    proof {
        assert(first_moves@.contains(first_moves@[0]));
    }
    let ghost tt0 = engine.tt@;
    let ghost s0 = clock.readings@.len() as int;
    let start = clock.read();
    let mut ctl = SearchControl { deadline: deadline_after(start, time_limit_ms), nodes: 0, aborted: false };
    let mut best: Option<SearchResult> = None;
    let mut depth: u8 = 1;
    assert(progress.sent@ =~= old(progress).sent@ + progress_log(tt0, p1_mask, p2_mask, ai_is_p1, 0));
    while depth <= max_depth
        invariant_except_break
            !ctl.aborted,
            depth == 1 ==> clock.readings@.len() == s0 + 1,
            engine.tt@ == table_before(tt0, p1_mask, p2_mask, ai_is_p1, depth as int),
        invariant
            tt0 == old(engine).tt@,
            continues(old(clock).readings@, clock.readings@),
            s0 == old(clock).readings@.len(),
            s0 < clock.readings@.len(),
            clock.readings@[s0] == start,
            ctl.aborted ==> read_past(clock.readings@, s0, ctl.deadline),
            depth > 1 ==> s0 + 1 < clock.readings@.len() && clock.readings@[s0 + 1] <= ctl.deadline,
            progress.sent@ == old(progress).sent@ + progress_log(tt0, p1_mask, p2_mask, ai_is_p1, depth - 1),
            depth == 1 ==> best.is_none(),
            depth > 1 ==> ({
                let o = iteration_outcome(tt0, p1_mask, p2_mask, ai_is_p1, depth - 1);
                &&& best.is_some()
                &&& o.1.is_some()
                &&& best.unwrap().names(o.1.unwrap() as int, o.0, depth - 1)
            }),
            forall|e: int|
                1 <= e < depth ==> (#[trigger] iteration_outcome(tt0, p1_mask, p2_mask, ai_is_p1, e)).0
                    < WIN_SCORE - 100,
            engine.wf(),
            p1_mask & p2_mask == 0,
            me == mover(p1_mask, p2_mask, ai_is_p1),
            opp == waiter(p1_mask, p2_mask, ai_is_p1),
            1 <= depth <= max_depth + 1,
            max_depth <= 127,
            !(p1_mask == 0 && p2_mask == 0),
            forced_move(me, opp).is_none(),
            ctl.deadline == deadline_after_spec(start, time_limit_ms),
            time_limit_ms == u64::MAX ==> !ctl.aborted && ctl.deadline == u64::MAX,
            time_limit_ms == u64::MAX && depth > 1 ==> best.is_some() && best.unwrap().depth == depth - 1,
            first_moves@.len() > 0,
            first_moves@[0] < 64 && is_empty_cell(p1_mask, p2_mask, first_moves@[0] as int),
            best.is_some() ==> 0 <= best.unwrap().cell() < 64 && is_empty_cell(
                p1_mask,
                p2_mask,
                best.unwrap().cell(),
            ) && best.unwrap().depth < depth && !best.unwrap().time_abort,
        ensures
            time_limit_ms == u64::MAX ==> depth == max_depth + 1,
            depth <= max_depth ==> read_past(clock.readings@, s0, ctl.deadline),
            depth <= max_depth ==> s0 + 1 < clock.readings@.len(),
        decreases max_depth + 1 - depth,
    {
        let ghost rs_b = clock.readings@;
        let now = clock.read();
        proof {
            lemma_continues_trans(old(clock).readings@, rs_b, clock.readings@);
            assert(clock.readings@[s0] == start);
        }
        assert(clock.readings@[clock.readings@.len() - 1] == now);
        if now > ctl.deadline {
            assert(clock.readings@[clock.readings@.len() - 1] > ctl.deadline);
            assert(time_limit_ms != u64::MAX);
            break;
        }
        proof {
            if depth == 1 {
                assert(clock.readings@[s0 + 1] == now);
            } else {
                assert(s0 + 1 < rs_b.len());
                assert(clock.readings@ == rs_b.push(now));
                assert(clock.readings@[s0 + 1] == rs_b[s0 + 1]);
            }
        }
        let hint = match engine.tt.lookup(p1_mask, p2_mask, ai_is_p1) {
            Some(e) => Some(e.best_move),
            None => None,
        };
        let moves = order_moves(p1_mask, p2_mask, hint);
        let n = moves.len();
        proof {
            assert(first_moves@.contains(first_moves@[0]));
            let c0 = first_moves@[0] as int;
            assert(is_empty_cell(p1_mask, p2_mask, c0));
            assert(moves@.contains(c0 as u8));
            assert(n > 0);
        }
        let mut alpha: i32 = -INF;
        let mut max_eval: i32 = -INF;
        let mut current: Option<u8> = None;
        let ghost tt_iter = engine.tt@;
        proof {
            assert(moves@ == ordered_moves(p1_mask, p2_mask, if tt_iter.contains_key(key_of(p1_mask, p2_mask, ai_is_p1)) {
                Some(tt_iter[key_of(p1_mask, p2_mask, ai_is_p1)].best_move)
            } else {
                None
            }));
        }
        let mut i: usize = 0;
        while i < n
            invariant_except_break
                !ctl.aborted,
                root_loop(tt_iter, p1_mask, p2_mask, ai_is_p1, moves@, 0, depth as int, -INF as int, -INF as int, None)
                    == root_loop(engine.tt@, p1_mask, p2_mask, ai_is_p1, moves@, i as int, depth as int, alpha as int, max_eval as int, current),
            invariant
                continues(old(clock).readings@, clock.readings@),
                s0 == old(clock).readings@.len(),
                s0 < clock.readings@.len(),
                clock.readings@[s0] == start,
                ctl.aborted ==> read_past(clock.readings@, s0, ctl.deadline),
                s0 + 1 < clock.readings@.len() && clock.readings@[s0 + 1] <= ctl.deadline,
                engine.wf(),
                p1_mask & p2_mask == 0,
                n == moves@.len(),
                forall|j: int| 0 <= j < n ==> #[trigger] moves@[j] < 64 && is_empty_cell(p1_mask, p2_mask, moves@[j] as int),
                1 <= depth <= max_depth,
                max_depth <= 127,
                -INF <= alpha <= SCORE_BOUND,
                -SCORE_BOUND <= max_eval <= SCORE_BOUND,
                current.is_some() ==> current.unwrap() < 64 && is_empty_cell(p1_mask, p2_mask, current.unwrap() as int),
                i <= n,
                ctl.deadline == deadline_after_spec(start, time_limit_ms),
                time_limit_ms == u64::MAX ==> !ctl.aborted && ctl.deadline == u64::MAX,
                i > 0 && !ctl.aborted ==> current.is_some(),
                n > 0,
            ensures
                !ctl.aborted ==> i == n,
                !ctl.aborted ==> root_loop(tt_iter, p1_mask, p2_mask, ai_is_p1, moves@, 0, depth as int, -INF as int, -INF as int, None)
                    == (max_eval as int, current, engine.tt@),
            decreases n - i,
        {
            let m = moves[i];
            let (np1, np2) = play(p1_mask, p2_mask, ai_is_p1, m);
            proof {
                lemma_play(p1_mask, p2_mask, m as int);
            }
            let ghost rs_c = clock.readings@;
            let v = negamax(
                &engine.lines,
                &mut engine.tt,
                &mut ctl,
                clock,
                np1,
                np2,
                (depth - 1) as i8,
                -INF,
                -alpha,
                !ai_is_p1,
            );
            proof {
                lemma_continues_trans(old(clock).readings@, rs_c, clock.readings@);
                assert(clock.readings@[s0] == rs_c[s0]);
                assert(clock.readings@[s0 + 1] == rs_c[s0 + 1]);
                if ctl.aborted {
                    lemma_read_past_kept(clock.readings@, clock.readings@, s0, rs_c.len() as int, ctl.deadline);
                }
            }
            if ctl.aborted {
                break;
            }
            let score = -v;
            if current.is_none() || score > max_eval {
                max_eval = score;
                current = Some(m);
            }
            if score > alpha {
                alpha = score;
            }
            i = i + 1;
        }
        if ctl.aborted {
            break;
        }
        match current {
            Some(m) => {
                best = Some(result_for(m, max_eval, depth));
                if max_eval >= WIN_SCORE - 100 {
                    return best;
                }
                progress.send(depth, max_eval);
                assert(progress.sent@ =~= old(progress).sent@ + progress_log(tt0, p1_mask, p2_mask, ai_is_p1, depth as int));
            },
            None => {},
        }
        depth = depth + 1;
    }
    match best {
        Some(b) => Some(b),
        None => Some(SearchResult { x: 0, y: 0, z: 0, score: 0, depth: 0, time_abort: true }),
    }
}

} // verus!

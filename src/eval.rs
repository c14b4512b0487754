//! Static evaluation of a position and detection of forced moves.

use vstd::prelude::*;
use crate::board::{
    bit_of, lemma_holds_line, lemma_set_bit, lemma_and_bit, lemma_line_cells, line_mask, pop_below,
    popcount,
    has_bit, is_win, line_cell, line_start, line_step, on_line, Line, LineIndex, NUM_LINES,
    check_win, is_set, lemma_line_geometry,
};

verus! {

/// Score of a won position; no heuristic score reaches it.
pub const WIN_SCORE: i32 = 1_000_000;

/// Number of cells of `m` on line `k`.
pub open spec fn line_count(m: u64, k: int) -> int {
    (if has_bit(m, line_cell(k, 0)) { 1int } else { 0int }) + (if has_bit(m, line_cell(k, 1)) {
        1int
    } else {
        0int
    }) + (if has_bit(m, line_cell(k, 2)) { 1int } else { 0int }) + (if has_bit(m, line_cell(k, 3)) {
        1int
    } else {
        0int
    })
}

/// Counts the cells of line `k` below `n` that `m` holds.
spec fn line_count_below(m: u64, k: int, n: int) -> int {
    (if line_cell(k, 0) < n && has_bit(m, line_cell(k, 0)) { 1int } else { 0int }) + (if line_cell(
        k,
        1,
    ) < n && has_bit(m, line_cell(k, 1)) {
        1int
    } else {
        0int
    }) + (if line_cell(k, 2) < n && has_bit(m, line_cell(k, 2)) { 1int } else { 0int }) + (
    if line_cell(k, 3) < n && has_bit(m, line_cell(k, 3)) {
        1int
    } else {
        0int
    })
}

proof fn lemma_line_count_below(m: u64, k: int, n: int)
    requires
        0 <= k < NUM_LINES,
        0 <= n <= 64,
    ensures
        pop_below(m & line_mask(k), n) == line_count_below(m, k, n),
    decreases n,
{
    lemma_line_geometry(k);
    if n > 0 {
        lemma_line_count_below(m, k, n - 1);
        lemma_and_bit(m, line_mask(k), n - 1);
        lemma_line_cells(k, n - 1);
    }
}

/// The number of cells of `m` on line `k` is the population count of `m & L`.
pub proof fn lemma_line_count_is_popcount(m: u64, k: int)
    requires
        0 <= k < NUM_LINES,
    ensures
        popcount(m & line_mask(k)) == line_count(m, k),
{
    lemma_line_geometry(k);
    lemma_line_count_below(m, k, 64);
}

/// Value of a live line holding `c` cells of one side.
pub open spec fn run_value(c: int) -> int {
    if c == 3 {
        5000
    } else if c == 2 {
        200
    } else if c == 1 {
        10
    } else {
        0
    }
}

/// Contribution of line `k`: zero when both sides hold a cell on it.
pub open spec fn line_score(me: u64, opp: u64, k: int) -> int {
    let mc = line_count(me, k);
    let oc = line_count(opp, k);
    if mc > 0 && oc > 0 {
        0
    } else {
        run_value(mc) - run_value(oc)
    }
}

/// Sum of the contributions of lines `0 .. n`.
pub open spec fn lines_score(me: u64, opp: u64, n: int) -> int
    decreases n,
{
    if n <= 0 {
        0
    } else {
        lines_score(me, opp, n - 1) + line_score(me, opp, n - 1)
    }
}

/// Neither side holds cell `c`.
pub open spec fn is_empty_cell(me: u64, opp: u64, c: int) -> bool {
    !has_bit(me, c) && !has_bit(opp, c)
}

/// Line `k` credits the empty cell `c` to `me`'s fork counter.
pub open spec fn fork_line(me: u64, opp: u64, k: int, c: int) -> bool {
    on_line(k, c) && line_count(me, k) == 2 && line_count(opp, k) == 0 && is_empty_cell(me, opp, c)
}

/// How many of lines `0 .. n` credit cell `c` to `me`.
pub open spec fn fork_count(me: u64, opp: u64, c: int, n: int) -> int
    decreases n,
{
    if n <= 0 {
        0
    } else {
        fork_count(me, opp, c, n - 1) + if fork_line(me, opp, n - 1, c) { 1int } else { 0int }
    }
}

/// Whether cell `c` is a fork cell of `me`: two live lines with two cells each meet there.
pub open spec fn is_fork(me: u64, opp: u64, c: int) -> bool {
    fork_count(me, opp, c, NUM_LINES as int) >= 2
}

/// Fork bonus over cells `0 .. n`.
pub open spec fn fork_bonus(me: u64, opp: u64, n: int) -> int
    decreases n,
{
    if n <= 0 {
        0
    } else {
        fork_bonus(me, opp, n - 1) + (if is_fork(me, opp, n - 1) { 3000int } else { 0int }) - (
        if is_fork(opp, me, n - 1) {
            3000int
        } else {
            0int
        })
    }
}

/// 1 when coordinate `v` lies on a face of the cube.
pub open spec fn extreme(v: int) -> int {
    if v == 0 || v == 3 {
        1
    } else {
        0
    }
}

/// Positional weight of cell `c`, by how many of its coordinates are extreme.
pub open spec fn cell_weight(c: int) -> int {
    let e = extreme(c % 4) + extreme((c / 4) % 4) + extreme(c / 16);
    if e == 3 {
        200
    } else if e == 2 {
        5
    } else if e == 1 {
        10
    } else {
        50
    }
}

/// Positional term over cells `0 .. n`.
pub open spec fn placement(me: u64, opp: u64, n: int) -> int
    decreases n,
{
    if n <= 0 {
        0
    } else {
        placement(me, opp, n - 1) + (if has_bit(me, n - 1) { cell_weight(n - 1) } else { 0 }) - (
        if has_bit(opp, n - 1) {
            cell_weight(n - 1)
        } else {
            0
        })
    }
}

/// Heuristic score of a position in which nobody has won.
pub open spec fn heuristic(me: u64, opp: u64) -> int {
    lines_score(me, opp, NUM_LINES as int) + fork_bonus(me, opp, 64) + placement(me, opp, 64)
}

/// Score of the position for `me`.
pub open spec fn evaluation(me: u64, opp: u64) -> int {
    if is_win(me) {
        WIN_SCORE as int
    } else if is_win(opp) {
        -WIN_SCORE
    } else {
        heuristic(me, opp)
    }
}

/// Number of cells of `m` on `line`.
fn count_on_line(m: u64, line: Line, Ghost(k): Ghost<int>) -> (r: u8)
    requires
        0 <= k < NUM_LINES,
        line.is_line(k),
    ensures
        r == line_count(m, k),
{
    proof {
        lemma_line_geometry(k);
    }
    let mut r: u8 = 0;
    let mut j: u8 = 0;
    while j < 4
        invariant
            0 <= k < NUM_LINES,
            line.is_line(k),
            0 <= line_start(k),
            1 <= line_step(k),
            line_start(k) + 3 * line_step(k) < 64,
            j <= 4,
            r <= j,
            r == (if j > 0 && has_bit(m, line_cell(k, 0)) { 1int } else { 0int }) + (if j > 1
                && has_bit(m, line_cell(k, 1)) {
                1int
            } else {
                0int
            }) + (if j > 2 && has_bit(m, line_cell(k, 2)) { 1int } else { 0int }) + (if j > 3
                && has_bit(m, line_cell(k, 3)) {
                1int
            } else {
                0int
            }),
        decreases 4 - j,
    {
        let c = line.start + j * line.step;
        if is_set(m, c) {
            r = r + 1;
        }
        j = j + 1;
    }
    r
}

/// Positional weight of cell `c`.
pub fn positional_weight(c: u8) -> (r: i32)
    requires
        c < 64,
    ensures
        r == cell_weight(c as int),
{
    let x = c % 4;
    let z = (c / 4) % 4;
    let y = c / 16;
    let e = (if x == 0 || x == 3 { 1u8 } else { 0u8 }) + (if y == 0 || y == 3 { 1u8 } else { 0u8 }) + (
    if z == 0 || z == 3 {
        1u8
    } else {
        0u8
    });
    if e == 3 {
        200
    } else if e == 2 {
        5
    } else if e == 1 {
        10
    } else {
        50
    }
}


/// Whether the cell `c` is among the first `j` cells of line `k`.
spec fn among_first(k: int, c: int, j: int) -> bool {
    (j > 0 && c == line_cell(k, 0)) || (j > 1 && c == line_cell(k, 1)) || (j > 2 && c == line_cell(
        k,
        2,
    )) || (j > 3 && c == line_cell(k, 3))
}

/// Adds one to the counter of each empty cell of `line` when the line is live for `me` with two cells.
fn credit_forks(forks: &mut Vec<u8>, me: u64, opp: u64, line: Line, Ghost(k): Ghost<int>)
    requires
        0 <= k < NUM_LINES,
        line.is_line(k),
        old(forks)@.len() == 64,
        forall|c: int| 0 <= c < 64 ==> #[trigger] old(forks)@[c] <= k,
    ensures
        final(forks)@.len() == 64,
        forall|c: int|
            0 <= c < 64 ==> #[trigger] final(forks)@[c] == old(forks)@[c] + if fork_line(me, opp, k, c) {
                1int
            } else {
                0int
            },
{
    proof {
        lemma_line_geometry(k);
    }
    let mc = count_on_line(me, line, Ghost(k));
    let oc = count_on_line(opp, line, Ghost(k));
    if mc != 2 || oc != 0 {
        return;
    }
    let ghost start = *forks;
    let mut j: u8 = 0;
    while j < 4
        invariant
            0 <= k < NUM_LINES,
            line.is_line(k),
            0 <= line_start(k),
            1 <= line_step(k),
            line_start(k) + 3 * line_step(k) < 64,
            line_count(me, k) == 2,
            line_count(opp, k) == 0,
            j <= 4,
            forks@.len() == 64,
            forall|c: int| 0 <= c < 64 ==> #[trigger] start@[c] <= k,
            forall|c: int|
                0 <= c < 64 ==> #[trigger] forks@[c] == start@[c] + if among_first(k, c, j as int)
                    && is_empty_cell(me, opp, c) {
                    1int
                } else {
                    0int
                },
        decreases 4 - j,
    {
        let c = line.start + j * line.step;
        if !is_set(me, c) && !is_set(opp, c) {
            let v = forks[c as usize];
            forks.set(c as usize, v + 1);
        }
        j = j + 1;
    }
}

/// Static score of the position for `me`: the value of each live line, a bonus for each
/// fork cell, and the positional weight of each occupied cell; a won position scores
/// `WIN_SCORE` for the winner.
pub fn evaluate(lines: &LineIndex, me: u64, opp: u64) -> (r: i32)
    requires
        lines.wf(),
    ensures
        r == evaluation(me, opp),
{
    if check_win(lines, me) {
        return WIN_SCORE;
    }
    if check_win(lines, opp) {
        return -WIN_SCORE;
    }
    let mut my_forks: Vec<u8> = Vec::new();
    let mut opp_forks: Vec<u8> = Vec::new();
    let mut c: usize = 0;
    while c < 64
        invariant
            c <= 64,
            my_forks@.len() == c,
            opp_forks@.len() == c,
            forall|i: int| 0 <= i < c ==> #[trigger] my_forks@[i] == 0,
            forall|i: int| 0 <= i < c ==> #[trigger] opp_forks@[i] == 0,
        decreases 64 - c,
    {
        my_forks.push(0);
        opp_forks.push(0);
        c = c + 1;
    }
    let mut score: i32 = 0;
    let mut k: usize = 0;
    while k < NUM_LINES
        invariant
            lines.wf(),
            k <= NUM_LINES,
            my_forks@.len() == 64,
            opp_forks@.len() == 64,
            forall|i: int| 0 <= i < 64 ==> #[trigger] my_forks@[i] == fork_count(me, opp, i, k as int),
            forall|i: int| 0 <= i < 64 ==> #[trigger] opp_forks@[i] == fork_count(opp, me, i, k as int),
            forall|i: int| 0 <= i < 64 ==> #[trigger] my_forks@[i] <= k,
            forall|i: int| 0 <= i < 64 ==> #[trigger] opp_forks@[i] <= k,
            score == lines_score(me, opp, k as int),
            -5000 * k <= score <= 5000 * k,
        decreases NUM_LINES - k,
    {
        let line = lines.get(k);
        let mc = count_on_line(me, line, Ghost(k as int));
        let oc = count_on_line(opp, line, Ghost(k as int));
        if mc == 0 || oc == 0 {
            score = score + run_weight(mc) - run_weight(oc);
        }
        credit_forks(&mut my_forks, me, opp, line, Ghost(k as int));
        credit_forks(&mut opp_forks, opp, me, line, Ghost(k as int));
        k = k + 1;
    }
    let mut c: usize = 0;
    while c < 64
        invariant
            c <= 64,
            my_forks@.len() == 64,
            opp_forks@.len() == 64,
            forall|i: int| 0 <= i < 64 ==> #[trigger] my_forks@[i] == fork_count(me, opp, i, NUM_LINES as int),
            forall|i: int| 0 <= i < 64 ==> #[trigger] opp_forks@[i] == fork_count(opp, me, i, NUM_LINES as int),
            score == lines_score(me, opp, NUM_LINES as int) + fork_bonus(me, opp, c as int),
            -380000 - 3000 * c <= score <= 380000 + 3000 * c,
        decreases 64 - c,
    {
        if my_forks[c] >= 2 {
            score = score + 3000;
        }
        if opp_forks[c] >= 2 {
            score = score - 3000;
        }
        c = c + 1;
    }
    let mut c: u8 = 0;
    while c < 64
        invariant
            c <= 64,
            score == lines_score(me, opp, NUM_LINES as int) + fork_bonus(me, opp, 64) + placement(me, opp, c as int),
            -572000 - 200 * c <= score <= 572000 + 200 * c,
        decreases 64 - c,
    {
        let w = positional_weight(c);
        if is_set(me, c) {
            score = score + w;
        }
        if is_set(opp, c) {
            score = score - w;
        }
        c = c + 1;
    }
    score
}

/// Value of a live line holding `c` cells of one side.
fn run_weight(c: u8) -> (r: i32)
    ensures
        r == run_value(c as int),
{
    if c == 3 {
        5000
    } else if c == 2 {
        200
    } else if c == 1 {
        10
    } else {
        0
    }
}


proof fn lemma_lines_score_bound(me: u64, opp: u64, n: int)
    requires
        0 <= n,
    ensures
        -5000 * n <= lines_score(me, opp, n) <= 5000 * n,
        lines_score(me, opp, n) == -lines_score(opp, me, n),
    decreases n,
{
    if n > 0 {
        lemma_lines_score_bound(me, opp, n - 1);
    }
}

proof fn lemma_fork_bonus_bound(me: u64, opp: u64, n: int)
    requires
        0 <= n,
    ensures
        -3000 * n <= fork_bonus(me, opp, n) <= 3000 * n,
        fork_bonus(me, opp, n) == -fork_bonus(opp, me, n),
    decreases n,
{
    if n > 0 {
        lemma_fork_bonus_bound(me, opp, n - 1);
    }
}

proof fn lemma_placement_bound(me: u64, opp: u64, n: int)
    requires
        0 <= n,
    ensures
        -200 * n <= placement(me, opp, n) <= 200 * n,
        placement(me, opp, n) == -placement(opp, me, n),
    decreases n,
{
    if n > 0 {
        lemma_placement_bound(me, opp, n - 1);
    }
}

/// A position in which nobody has won scores strictly inside the winning band.
pub proof fn lemma_evaluation_bounded(me: u64, opp: u64)
    requires
        !is_win(me),
        !is_win(opp),
    ensures
        -WIN_SCORE < evaluation(me, opp) < WIN_SCORE,
{
    lemma_lines_score_bound(me, opp, NUM_LINES as int);
    lemma_fork_bonus_bound(me, opp, 64);
    lemma_placement_bound(me, opp, 64);
}

/// Swapping the two sides negates the score (unless both sides hold a winning line).
pub proof fn lemma_evaluation_antisymmetric(a: u64, b: u64)
    requires
        a & b == 0,
        !(is_win(a) && is_win(b)),
    ensures
        evaluation(a, b) == -evaluation(b, a),
{
    lemma_lines_score_bound(a, b, NUM_LINES as int);
    lemma_fork_bonus_bound(a, b, 64);
    lemma_placement_bound(a, b, 64);
}

/// Line `k` holds three cells of `me` and none of `opp`.
pub open spec fn threatens(me: u64, opp: u64, k: int) -> bool {
    line_count(me, k) == 3 && line_count(opp, k) == 0
}

/// The first of lines `k .. 76` on which `me` threatens, or -1.
pub open spec fn first_threat(me: u64, opp: u64, k: int) -> int
    decreases NUM_LINES - k,
{
    if k >= NUM_LINES || k < 0 {
        -1
    } else if threatens(me, opp, k) {
        k
    } else {
        first_threat(me, opp, k + 1)
    }
}

proof fn lemma_first_threat(me: u64, opp: u64, k: int)
    requires
        0 <= k,
    ensures
        first_threat(me, opp, k) >= 0 ==> k <= first_threat(me, opp, k) < NUM_LINES && threatens(
            me,
            opp,
            first_threat(me, opp, k),
        ),
        first_threat(me, opp, k) < 0 ==> forall|i: int| k <= i < NUM_LINES ==> !threatens(me, opp, i),
    decreases NUM_LINES - k,
{
    if k < NUM_LINES {
        lemma_first_threat(me, opp, k + 1);
    }
}

/// The first empty cell of line `k`.
pub open spec fn empty_cell_on(me: u64, opp: u64, k: int) -> int {
    if is_empty_cell(me, opp, line_cell(k, 0)) {
        line_cell(k, 0)
    } else if is_empty_cell(me, opp, line_cell(k, 1)) {
        line_cell(k, 1)
    } else if is_empty_cell(me, opp, line_cell(k, 2)) {
        line_cell(k, 2)
    } else {
        line_cell(k, 3)
    }
}

/// The forced move of `me`: the completing cell of the first line that `me` threatens,
/// else the blocking cell of the first line that `opp` threatens, else none.
pub open spec fn forced_move(me: u64, opp: u64) -> Option<int> {
    if first_threat(me, opp, 0) >= 0 {
        Some(empty_cell_on(me, opp, first_threat(me, opp, 0)))
    } else if first_threat(opp, me, 0) >= 0 {
        Some(empty_cell_on(me, opp, first_threat(opp, me, 0)))
    } else {
        None
    }
}

/// The empty cell of a threatened line.
fn empty_cell_of(me: u64, opp: u64, line: Line, Ghost(k): Ghost<int>) -> (r: u8)
    requires
        0 <= k < NUM_LINES,
        line.is_line(k),
    ensures
        r == empty_cell_on(me, opp, k),
        r < 64,
{
    proof {
        lemma_line_geometry(k);
    }
    let mut j: u8 = 0;
    while j < 3
        invariant
            0 <= k < NUM_LINES,
            line.is_line(k),
            0 <= line_start(k),
            1 <= line_step(k),
            line_start(k) + 3 * line_step(k) < 64,
            j <= 3,
            forall|i: int| 0 <= i < j ==> !is_empty_cell(me, opp, #[trigger] line_cell(k, i)),
        decreases 3 - j,
    {
        let c = line.start + j * line.step;
        if !is_set(me, c) && !is_set(opp, c) {
            return c;
        }
        j = j + 1;
    }
    line.start + 3 * line.step
}

/// The first line on which `me` threatens, scanning the index in order.
fn find_threat(lines: &LineIndex, me: u64, opp: u64) -> (r: Option<usize>)
    requires
        lines.wf(),
    ensures
        first_threat(me, opp, 0) >= 0 ==> r == Some(first_threat(me, opp, 0) as usize),
        first_threat(me, opp, 0) < 0 ==> r.is_none(),
        r.is_some() ==> r.unwrap() < NUM_LINES,
{
    proof {
        lemma_first_threat(me, opp, 0);
    }
    let mut k: usize = 0;
    while k < NUM_LINES
        invariant
            lines.wf(),
            k <= NUM_LINES,
            first_threat(me, opp, 0) == first_threat(me, opp, k as int),
        decreases NUM_LINES - k,
    {
        let line = lines.get(k);
        let mc = count_on_line(me, line, Ghost(k as int));
        let oc = count_on_line(opp, line, Ghost(k as int));
        if mc == 3 && oc == 0 {
            return Some(k);
        }
        k = k + 1;
    }
    None
}

/// The move that `me` must play: a winning cell if some line holds three cells of `me`
/// and none of `opp`, else a blocking cell if `opp` has such a line, else none.
/// Among several lines, the first in the index decides.
pub fn get_forced_move(lines: &LineIndex, me: u64, opp: u64) -> (r: Option<u8>)
    requires
        lines.wf(),
    ensures
        r.is_some() == forced_move(me, opp).is_some(),
        r.is_some() ==> r.unwrap() as int == forced_move(me, opp).unwrap(),
        r.is_some() ==> r.unwrap() < 64,
        r.is_some() ==> is_empty_cell(me, opp, r.unwrap() as int),
{
    proof {
        lemma_first_threat(me, opp, 0);
        lemma_first_threat(opp, me, 0);
    }
    match find_threat(lines, me, opp) {
        Some(k) => {
            let c = empty_cell_of(me, opp, lines.get(k), Ghost(k as int));
            assert(k as int == first_threat(me, opp, 0));
            Some(c)
        },
        None => match find_threat(lines, opp, me) {
            Some(k) => {
                let c = empty_cell_of(me, opp, lines.get(k), Ghost(k as int));
                assert(k as int == first_threat(opp, me, 0));
                Some(c)
            },
            None => None,
        },
    }
}


/// The forced move, when there is one, is an empty cell of the board.
pub proof fn lemma_forced_move_empty(me: u64, opp: u64)
    requires
        forced_move(me, opp).is_some(),
    ensures
        0 <= forced_move(me, opp).unwrap() < 64,
        is_empty_cell(me, opp, forced_move(me, opp).unwrap()),
{
    lemma_first_threat(me, opp, 0);
    lemma_first_threat(opp, me, 0);
    if first_threat(me, opp, 0) >= 0 {
        lemma_line_geometry(first_threat(me, opp, 0));
    } else {
        lemma_line_geometry(first_threat(opp, me, 0));
    }
}

/// When `me` has three cells on a line that `opp` has not entered, the forced move exists
/// and playing it completes a winning line for `me`.
pub proof fn lemma_forced_move_wins(me: u64, opp: u64, k: int)
    requires
        0 <= k < NUM_LINES,
        threatens(me, opp, k),
    ensures
        forced_move(me, opp).is_some(),
        is_win(me | bit_of(forced_move(me, opp).unwrap())),
{
    lemma_first_threat(me, opp, 0);
    let k0 = first_threat(me, opp, 0);
    lemma_line_geometry(k0);
    let c = empty_cell_on(me, opp, k0);
    let m = me | bit_of(c);
    lemma_set_bit(me, c, line_cell(k0, 0));
    lemma_set_bit(me, c, line_cell(k0, 1));
    lemma_set_bit(me, c, line_cell(k0, 2));
    lemma_set_bit(me, c, line_cell(k0, 3));
    lemma_holds_line(m, k0);
    assert(m & crate::board::line_mask(k0) == crate::board::line_mask(k0));
}

} // verus!

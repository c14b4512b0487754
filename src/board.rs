//! Bitboards, cells and the index of the winning lines.

use vstd::prelude::*;

verus! {

/// Number of winning lines on the cube.
pub const NUM_LINES: usize = 76;

/// Linear index of the cell with coordinates (x, y, z).
pub open spec fn cell_index(x: int, y: int, z: int) -> int {
    y * 16 + z * 4 + x
}

/// Whether cell `c` is set in the mask `m`.
pub open spec fn has_bit(m: u64, c: int) -> bool {
    (m >> (c as u64)) & 1u64 == 1u64
}

/// The one-cell mask of cell `c`.
pub open spec fn bit_of(c: int) -> u64 {
    1u64 << (c as u64)
}

/// Number of set cells among cells `0 .. n` of `m`.
pub open spec fn pop_below(m: u64, n: int) -> nat
    decreases n,
{
    if n <= 0 {
        0
    } else {
        pop_below(m, n - 1) + if has_bit(m, n - 1) { 1nat } else { 0nat }
    }
}

/// Number of set cells of `m`.
pub open spec fn popcount(m: u64) -> nat {
    pop_below(m, 64)
}

/// First cell of line `k`; the line's cells are an arithmetic progression.
pub open spec fn line_start(k: int) -> int {
    if k < 16 {
        4 * k
    } else if k < 32 {
        ((k - 16) / 4) * 16 + (k - 16) % 4
    } else if k < 48 {
        (k - 32) / 4 + ((k - 32) % 4) * 4
    } else if k < 56 {
        16 * ((k - 48) / 2) + 3 * ((k - 48) % 2)
    } else if k < 64 {
        4 * ((k - 56) / 2) + 3 * ((k - 56) % 2)
    } else if k < 72 {
        (k - 64) / 2 + 12 * ((k - 64) % 2)
    } else if k == 72 {
        0
    } else if k == 73 {
        3
    } else if k == 74 {
        12
    } else {
        15
    }
}

/// Distance between two consecutive cells of line `k`.
pub open spec fn line_step(k: int) -> int {
    if k < 16 {
        1
    } else if k < 32 {
        4
    } else if k < 48 {
        16
    } else if k < 56 {
        if (k - 48) % 2 == 0 { 5 } else { 3 }
    } else if k < 64 {
        if (k - 56) % 2 == 0 { 17 } else { 15 }
    } else if k < 72 {
        if (k - 64) % 2 == 0 { 20 } else { 12 }
    } else if k == 72 {
        21
    } else if k == 73 {
        19
    } else if k == 74 {
        13
    } else {
        11
    }
}

/// The `j`-th cell (0 to 3) of line `k`.
pub open spec fn line_cell(k: int, j: int) -> int {
    line_start(k) + j * line_step(k)
}

/// Whether cell `c` lies on line `k`.
pub open spec fn on_line(k: int, c: int) -> bool {
    c == line_cell(k, 0) || c == line_cell(k, 1) || c == line_cell(k, 2) || c == line_cell(k, 3)
}

/// The mask of line `k`.
pub open spec fn line_mask(k: int) -> u64 {
    bit_of(line_cell(k, 0)) | bit_of(line_cell(k, 1)) | bit_of(line_cell(k, 2)) | bit_of(
        line_cell(k, 3),
    )
}

/// The masks of all winning lines, in their fixed order.
pub open spec fn line_index() -> Seq<u64> {
    Seq::new(NUM_LINES as nat, |k: int| line_mask(k))
}

/// Whether `m` holds every cell of some winning line.
pub open spec fn is_win(m: u64) -> bool {
    exists|k: int| 0 <= k < NUM_LINES && #[trigger] (m & line_mask(k)) == line_mask(k)
}

/// The cells of every line lie on the board and are increasing.
pub proof fn lemma_line_geometry(k: int)
    requires
        0 <= k < NUM_LINES,
    ensures
        0 <= line_start(k),
        1 <= line_step(k),
        line_start(k) + 3 * line_step(k) < 64,
{
}


/// Setting cell `c` of `m` changes that cell alone.
pub proof fn lemma_set_bit(m: u64, c: int, i: int)
    requires
        0 <= c < 64,
        0 <= i < 64,
    ensures
        has_bit(m | bit_of(c), i) == (has_bit(m, i) || i == c),
{
    let cc = c as u64;
    let ii = i as u64;
    assert((((m | (1u64 << cc)) >> ii) & 1u64 == 1u64) == (((m >> ii) & 1u64 == 1u64) || ii == cc))
        by (bit_vector)
        requires
            cc < 64,
            ii < 64,
    ;
}

/// The empty mask holds no cell.
pub proof fn lemma_zero_empty(i: int)
    requires
        0 <= i < 64,
    ensures
        !has_bit(0u64, i),
{
    let ii = i as u64;
    assert((0u64 >> ii) & 1u64 != 1u64) by (bit_vector);
}

/// The cells of line `k`'s mask are exactly the four cells of the line.
pub proof fn lemma_line_cells(k: int, i: int)
    requires
        0 <= k < NUM_LINES,
        0 <= i < 64,
    ensures
        has_bit(line_mask(k), i) == on_line(k, i),
{
    lemma_line_geometry(k);
    let b0 = bit_of(line_cell(k, 0));
    let b1 = b0 | bit_of(line_cell(k, 1));
    let b2 = b1 | bit_of(line_cell(k, 2));
    lemma_zero_empty(i);
    assert(b0 == 0u64 | bit_of(line_cell(k, 0))) by {
        let x = bit_of(line_cell(k, 0));
        assert(x == 0u64 | x) by (bit_vector);
    }
    lemma_set_bit(0u64, line_cell(k, 0), i);
    lemma_set_bit(b0, line_cell(k, 1), i);
    lemma_set_bit(b1, line_cell(k, 2), i);
    lemma_set_bit(b2, line_cell(k, 3), i);
}

/// A mask that holds the four cells of line `k` contains the line's mask.
pub proof fn lemma_holds_line(m: u64, k: int)
    requires
        0 <= k < NUM_LINES,
        has_bit(m, line_cell(k, 0)),
        has_bit(m, line_cell(k, 1)),
        has_bit(m, line_cell(k, 2)),
        has_bit(m, line_cell(k, 3)),
    ensures
        m & line_mask(k) == line_mask(k),
{
    lemma_line_geometry(k);
    let a = line_cell(k, 0) as u64;
    let b = line_cell(k, 1) as u64;
    let c = line_cell(k, 2) as u64;
    let d = line_cell(k, 3) as u64;
    assert(m & ((1u64 << a) | (1u64 << b) | (1u64 << c) | (1u64 << d)) == ((1u64 << a) | (1u64
        << b) | (1u64 << c) | (1u64 << d))) by (bit_vector)
        requires
            a < 64,
            b < 64,
            c < 64,
            d < 64,
            (m >> a) & 1u64 == 1u64,
            (m >> b) & 1u64 == 1u64,
            (m >> c) & 1u64 == 1u64,
            (m >> d) & 1u64 == 1u64,
    ;
}

/// Counts the cells of line `k` below `n`.
spec fn line_cells_below(k: int, n: int) -> nat {
    (if line_cell(k, 0) < n { 1nat } else { 0nat }) + (if line_cell(k, 1) < n { 1nat } else { 0nat })
        + (if line_cell(k, 2) < n { 1nat } else { 0nat }) + (if line_cell(k, 3) < n { 1nat } else { 0nat })
}

proof fn lemma_line_pop_below(k: int, n: int)
    requires
        0 <= k < NUM_LINES,
        0 <= n <= 64,
    ensures
        pop_below(line_mask(k), n) == line_cells_below(k, n),
    decreases n,
{
    lemma_line_geometry(k);
    if n > 0 {
        lemma_line_pop_below(k, n - 1);
        lemma_line_cells(k, n - 1);
    }
}

/// Two lines with the same mask are the same line.
proof fn lemma_line_mask_injective(k1: int, k2: int)
    requires
        0 <= k1 < NUM_LINES,
        0 <= k2 < NUM_LINES,
        line_mask(k1) == line_mask(k2),
    ensures
        k1 == k2,
{
    lemma_line_geometry(k1);
    lemma_line_geometry(k2);
    let s1 = line_start(k1);
    let s2 = line_start(k2);
    lemma_line_cells(k1, s1);
    lemma_line_cells(k2, s2);
    lemma_line_cells(k1, s1 + line_step(k1));
    lemma_line_cells(k2, s2 + line_step(k2));
    lemma_line_cells(k1, s2);
    lemma_line_cells(k2, s1);
    lemma_line_cells(k1, s2 + line_step(k2));
    lemma_line_cells(k2, s1 + line_step(k1));
    assert(s1 == s2);
    assert(line_step(k1) == line_step(k2));
    lemma_line_params_injective(k1, k2);
}

/// Distinct lines have distinct first cells or distinct steps.
proof fn lemma_line_params_injective(k1: int, k2: int)
    requires
        0 <= k1 < NUM_LINES,
        0 <= k2 < NUM_LINES,
        line_start(k1) == line_start(k2),
        line_step(k1) == line_step(k2),
    ensures
        k1 == k2,
{
}

/// Every winning line holds four cells, there are 76 of them, and no two are equal.
pub proof fn lemma_line_index_shape()
    ensures
        line_index().len() == 76,
        forall|k: int| 0 <= k < line_index().len() ==> #[trigger] popcount(line_index()[k]) == 4,
        forall|i: int, j: int|
            0 <= i < j < line_index().len() ==> #[trigger] line_index()[i] != #[trigger] line_index()[j],
{
    assert forall|k: int| 0 <= k < line_index().len() implies #[trigger] popcount(line_index()[k]) == 4 by {
        lemma_line_geometry(k);
        lemma_line_pop_below(k, 64);
    }
    assert forall|i: int, j: int| 0 <= i < j < line_index().len() implies #[trigger] line_index()[i]
        != #[trigger] line_index()[j] by {
        if line_index()[i] == line_index()[j] {
            lemma_line_mask_injective(i, j);
        }
    }
}


proof fn lemma_pop_below_le(m: u64, n: int)
    requires
        0 <= n,
    ensures
        pop_below(m, n) <= n,
    decreases n,
{
    if n > 0 {
        lemma_pop_below_le(m, n - 1);
    }
}

proof fn lemma_pop_below_set(m: u64, c: int, n: int)
    requires
        0 <= c < 64,
        0 <= n <= 64,
        !has_bit(m, c),
    ensures
        pop_below(m | bit_of(c), n) == pop_below(m, n) + if c < n { 1nat } else { 0nat },
        pop_below(m, n) <= n,
    decreases n,
{
    if n > 0 {
        lemma_pop_below_set(m, c, n - 1);
        lemma_set_bit(m, c, n - 1);
    }
}

/// A cell is set in `a | b` iff it is set in `a` or in `b`.
pub proof fn lemma_or_bit(a: u64, b: u64, i: int)
    requires
        0 <= i < 64,
    ensures
        has_bit(a | b, i) == (has_bit(a, i) || has_bit(b, i)),
{
    let ii = i as u64;
    assert((((a | b) >> ii) & 1u64 == 1u64) == (((a >> ii) & 1u64 == 1u64) || ((b >> ii) & 1u64
        == 1u64))) by (bit_vector)
        requires
            ii < 64,
    ;
}

/// A cell is set in `a & b` iff it is set in both.
pub proof fn lemma_and_bit(a: u64, b: u64, i: int)
    requires
        0 <= i < 64,
    ensures
        has_bit(a & b, i) == (has_bit(a, i) && has_bit(b, i)),
{
    let ii = i as u64;
    assert((((a & b) >> ii) & 1u64 == 1u64) == (((a >> ii) & 1u64 == 1u64) && ((b >> ii) & 1u64
        == 1u64))) by (bit_vector)
        requires
            ii < 64,
    ;
}

/// Number of empty cells of the position.
pub open spec fn empties(p1: u64, p2: u64) -> int {
    64 - popcount(p1 | p2)
}

/// Placing a stone on an empty cell keeps the masks disjoint and fills one more cell.
pub proof fn lemma_play(p1: u64, p2: u64, c: int)
    requires
        p1 & p2 == 0,
        0 <= c < 64,
        !has_bit(p1, c),
        !has_bit(p2, c),
    ensures
        (p1 | bit_of(c)) & p2 == 0,
        p1 & (p2 | bit_of(c)) == 0,
        empties(p1 | bit_of(c), p2) == empties(p1, p2) - 1,
        empties(p1, p2 | bit_of(c)) == empties(p1, p2) - 1,
        empties(p1, p2) >= 1,
{
    let cc = c as u64;
    let b = bit_of(c);
    assert(b == 1u64 << cc);
    assert((p1 | (1u64 << cc)) & p2 == 0 && p1 & (p2 | (1u64 << cc)) == 0
        && (p1 | (1u64 << cc)) | p2 == (p1 | p2) | (1u64 << cc) && p1 | (p2 | (1u64 << cc)) == (p1
        | p2) | (1u64 << cc)) by (bit_vector)
        requires
            p1 & p2 == 0,
            cc < 64,
            (p1 >> cc) & 1u64 != 1u64,
            (p2 >> cc) & 1u64 != 1u64,
    ;
    lemma_or_bit(p1, p2, c);
    lemma_pop_below_set(p1 | p2, c, 64);
    lemma_pop_below_le((p1 | p2) | b, 64);
}

/// Components of a direction in the cube: each -1, 0 or 1, not all 0.
pub open spec fn is_direction(dx: int, dy: int, dz: int) -> bool {
    &&& -1 <= dx <= 1
    &&& -1 <= dy <= 1
    &&& -1 <= dz <= 1
    &&& !(dx == 0 && dy == 0 && dz == 0)
}

/// The four cells from (x, y, z) along (dx, dy, dz) all lie in the cube.
pub open spec fn is_segment(x: int, y: int, z: int, dx: int, dy: int, dz: int) -> bool {
    &&& is_direction(dx, dy, dz)
    &&& 0 <= x < 4 && 0 <= x + 3 * dx < 4
    &&& 0 <= y < 4 && 0 <= y + 3 * dy < 4
    &&& 0 <= z < 4 && 0 <= z + 3 * dz < 4
}

/// Cell `c` is one of the four cells from (x, y, z) along (dx, dy, dz).
pub open spec fn on_segment(x: int, y: int, z: int, dx: int, dy: int, dz: int, c: int) -> bool {
    c == cell_index(x, y, z) || c == cell_index(x + dx, y + dy, z + dz) || c == cell_index(
        x + 2 * dx,
        y + 2 * dy,
        z + 2 * dz,
    ) || c == cell_index(x + 3 * dx, y + 3 * dy, z + 3 * dz)
}

/// Line `k` holds exactly the four cells from (x, y, z) along (dx, dy, dz).
pub open spec fn line_matches(k: int, x: int, y: int, z: int, dx: int, dy: int, dz: int) -> bool {
    forall|c: int| on_line(k, c) <==> on_segment(x, y, z, dx, dy, dz, c)
}

/// Direction of the cells of a line with linear step `d`.
pub open spec fn step_direction(d: int) -> (int, int, int) {
    if d == 1 {
        (1, 0, 0)
    } else if d == 4 {
        (0, 0, 1)
    } else if d == 16 {
        (0, 1, 0)
    } else if d == 5 {
        (1, 0, 1)
    } else if d == 3 {
        (-1, 0, 1)
    } else if d == 17 {
        (1, 1, 0)
    } else if d == 15 {
        (-1, 1, 0)
    } else if d == 20 {
        (0, 1, 1)
    } else if d == 12 {
        (0, 1, -1)
    } else if d == 21 {
        (1, 1, 1)
    } else if d == 19 {
        (-1, 1, 1)
    } else if d == 13 {
        (1, 1, -1)
    } else {
        (-1, 1, -1)
    }
}

/// Coordinates of the first cell of line `k`.
pub open spec fn line_origin(k: int) -> (int, int, int) {
    if k < 16 {
        (0, k / 4, k % 4)
    } else if k < 32 {
        ((k - 16) % 4, (k - 16) / 4, 0)
    } else if k < 48 {
        ((k - 32) / 4, 0, (k - 32) % 4)
    } else if k < 56 {
        (3 * ((k - 48) % 2), (k - 48) / 2, 0)
    } else if k < 64 {
        (3 * ((k - 56) % 2), 0, (k - 56) / 2)
    } else if k < 72 {
        ((k - 64) / 2, 0, 3 * ((k - 64) % 2))
    } else if k == 72 {
        (0, 0, 0)
    } else if k == 73 {
        (3, 0, 0)
    } else if k == 74 {
        (0, 0, 3)
    } else {
        (3, 0, 3)
    }
}

/// Every winning line is four collinear cells of the cube: those from its first cell
/// along the direction of its step.
pub proof fn lemma_line_is_segment(k: int)
    requires
        0 <= k < NUM_LINES,
    ensures
        ({
            let o = line_origin(k);
            let dir = step_direction(line_step(k));
            &&& is_segment(o.0, o.1, o.2, dir.0, dir.1, dir.2)
            &&& line_matches(k, o.0, o.1, o.2, dir.0, dir.1, dir.2)
        }),
{
    let o = line_origin(k);
    let d = line_step(k);
    let dir = step_direction(d);
    assert(cell_index(o.0, o.1, o.2) == line_start(k));
    assert(16 * dir.1 + 4 * dir.2 + dir.0 == d);
    assert(is_segment(o.0, o.1, o.2, dir.0, dir.1, dir.2));
}

/// A segment whose linear step is positive starts a winning line and follows its step.
proof fn lemma_forward_segment_is_line(x: int, y: int, z: int, dx: int, dy: int, dz: int) -> (k: int)
    requires
        is_segment(x, y, z, dx, dy, dz),
        16 * dy + 4 * dz + dx > 0,
    ensures
        0 <= k < NUM_LINES,
        line_start(k) == cell_index(x, y, z),
        line_step(k) == 16 * dy + 4 * dz + dx,
{
    if dy == 0 && dz == 0 {
        4 * y + z
    } else if dy == 0 && dx == 0 {
        16 + 4 * y + x
    } else if dy == 0 && dx == 1 {
        48 + 2 * y
    } else if dy == 0 {
        49 + 2 * y
    } else if dx == 0 && dz == 0 {
        32 + 4 * x + z
    } else if dz == 0 && dx == 1 {
        56 + 2 * z
    } else if dz == 0 {
        57 + 2 * z
    } else if dx == 0 && dz == 1 {
        64 + 2 * x
    } else if dx == 0 {
        65 + 2 * x
    } else if dx == 1 && dz == 1 {
        72
    } else if dz == 1 {
        73
    } else if dx == 1 {
        74
    } else {
        75
    }
}

/// Every set of four collinear cells of the cube is a winning line.
pub proof fn lemma_segment_is_line(x: int, y: int, z: int, dx: int, dy: int, dz: int)
    requires
        is_segment(x, y, z, dx, dy, dz),
    ensures
        exists|k: int| 0 <= k < NUM_LINES && #[trigger] line_matches(k, x, y, z, dx, dy, dz),
{
    if 16 * dy + 4 * dz + dx > 0 {
        let k = lemma_forward_segment_is_line(x, y, z, dx, dy, dz);
        assert(line_matches(k, x, y, z, dx, dy, dz));
    } else {
        let k = lemma_forward_segment_is_line(x + 3 * dx, y + 3 * dy, z + 3 * dz, -dx, -dy, -dz);
        assert(line_matches(k, x, y, z, dx, dy, dz));
    }
}

/// A winning line: its first cell, the distance between its cells, and its mask.
#[derive(Clone, Copy)]
pub struct Line {
    pub start: u8,
    pub step: u8,
    pub mask: u64,
}

impl Line {
    /// This value describes line `k` of the index.
    pub open spec fn is_line(self, k: int) -> bool {
        &&& self.start == line_start(k)
        &&& self.step == line_step(k)
        &&& self.mask == line_mask(k)
    }
}

/// The winning lines, generated once and read-only afterwards.
pub struct LineIndex {
    lines: Vec<Line>,
}

impl LineIndex {
    /// Holds every line in the fixed order.
    pub closed spec fn wf(&self) -> bool {
        &&& self.lines@.len() == NUM_LINES
        &&& forall|k: int| 0 <= k < NUM_LINES ==> (#[trigger] self.lines@[k]).is_line(k)
    }

    /// Line `k`.
    pub fn get(&self, k: usize) -> (r: Line)
        requires
            self.wf(),
            k < NUM_LINES,
        ensures
            r.is_line(k as int),
    {
        self.lines[k]
    }

    /// The masks of the lines, in order.
    pub fn masks(&self) -> (r: Vec<u64>)
        requires
            self.wf(),
        ensures
            r@ == line_index(),
    {
        let mut r: Vec<u64> = Vec::new();
        let mut k: usize = 0;
        while k < NUM_LINES
            invariant
                self.wf(),
                k <= NUM_LINES,
                r@.len() == k,
                forall|i: int| 0 <= i < k ==> r@[i] == line_mask(i),
            decreases NUM_LINES - k,
        {
            r.push(self.lines[k].mask);
            k = k + 1;
        }
        assert(r@ =~= line_index());
        r
    }
}

/// The one-cell mask of cell `c`.
pub fn cell_bit(c: u8) -> (r: u64)
    requires
        c < 64,
    ensures
        r == bit_of(c as int),
{
    1u64 << c
}

/// Whether cell `c` is set in `m`.
pub fn is_set(m: u64, c: u8) -> (r: bool)
    requires
        c < 64,
    ensures
        r == has_bit(m, c as int),
{
    (m >> c) & 1u64 == 1u64
}

/// First cell and step of line `k`.
fn line_params(k: u8) -> (r: (u8, u8))
    requires
        k < NUM_LINES,
    ensures
        r.0 == line_start(k as int),
        r.1 == line_step(k as int),
{
    if k < 16 {
        (4 * k, 1)
    } else if k < 32 {
        ((k - 16) / 4 * 16 + (k - 16) % 4, 4)
    } else if k < 48 {
        ((k - 32) / 4 + (k - 32) % 4 * 4, 16)
    } else if k < 56 {
        if (k - 48) % 2 == 0 {
            (16 * ((k - 48) / 2), 5)
        } else {
            (16 * ((k - 48) / 2) + 3, 3)
        }
    } else if k < 64 {
        if (k - 56) % 2 == 0 {
            (4 * ((k - 56) / 2), 17)
        } else {
            (4 * ((k - 56) / 2) + 3, 15)
        }
    } else if k < 72 {
        if (k - 64) % 2 == 0 {
            ((k - 64) / 2, 20)
        } else {
            ((k - 64) / 2 + 12, 12)
        }
    } else if k == 72 {
        (0, 21)
    } else if k == 73 {
        (3, 19)
    } else if k == 74 {
        (12, 13)
    } else {
        (15, 11)
    }
}

/// Builds the index of the 76 winning lines: 16 rows along x, 16 columns along z,
/// 16 pillars along y, 24 face diagonals and 4 space diagonals.
pub fn generate_winning_lines() -> (r: LineIndex)
    ensures
        r.wf(),
{
    let mut lines: Vec<Line> = Vec::new();
    let mut k: u8 = 0;
    while k < 76
        invariant
            k <= NUM_LINES,
            lines@.len() == k,
            forall|i: int| 0 <= i < k ==> (#[trigger] lines@[i]).is_line(i),
        decreases NUM_LINES - k,
    {
        let (start, step) = line_params(k);
        proof {
            lemma_line_geometry(k as int);
        }
        let mask = cell_bit(start) | cell_bit(start + step) | cell_bit(start + 2 * step) | cell_bit(
            start + 3 * step,
        );
        lines.push(Line { start, step, mask });
        k = k + 1;
    }
    LineIndex { lines }
}

/// Whether `mask` holds a complete winning line.
pub fn check_win(lines: &LineIndex, mask: u64) -> (r: bool)
    requires
        lines.wf(),
    ensures
        r == is_win(mask),
{
    let mut k: usize = 0;
    while k < NUM_LINES
        invariant
            lines.wf(),
            k <= NUM_LINES,
            forall|i: int| 0 <= i < k ==> (mask & #[trigger] line_mask(i)) != line_mask(i),
        decreases NUM_LINES - k,
    {
        let line = lines.get(k);
        if mask & line.mask == line.mask {
            return true;
        }
        k = k + 1;
    }
    false
}

} // verus!

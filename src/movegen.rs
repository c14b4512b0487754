//! Generation and ordering of the legal moves of a position.

use vstd::prelude::*;
use crate::board::is_set;
use crate::eval::{cell_weight, is_empty_cell, positional_weight};

verus! {

/// Bonus that puts the move suggested by the transposition table first.
pub const TT_MOVE_BONUS: i32 = 12800;

/// `hint` names cell `c`.
pub open spec fn is_hint(hint: Option<u8>, c: int) -> bool {
    hint.is_some() && hint.unwrap() as int == c
}

/// Ordering score of cell `c`: its positional weight, plus the bonus if the hint names it.
pub open spec fn order_key(c: int, hint: Option<u8>) -> int {
    cell_weight(c) + if is_hint(hint, c) { TT_MOVE_BONUS as int } else { 0int }
}

/// Cell `a` is listed before cell `b`: higher score first, then lower index.
pub open spec fn comes_before(a: int, b: int, hint: Option<u8>) -> bool {
    order_key(a, hint) > order_key(b, hint) || (order_key(a, hint) == order_key(b, hint) && a < b)
}

/// Position of cell `c`'s weight among the four weights, from the largest.
spec fn weight_rank(c: int) -> int {
    let w = cell_weight(c);
    if w == 200 {
        0
    } else if w == 50 {
        1
    } else if w == 10 {
        2
    } else {
        3
    }
}

/// The weight of rank `wi`.
pub open spec fn weight_of_rank(wi: int) -> int {
    if wi == 0 {
        200
    } else if wi == 1 {
        50
    } else if wi == 2 {
        10
    } else {
        5
    }
}

/// The hint's cell, when it names an empty cell.
pub open spec fn hint_part(p1: u64, p2: u64, hint: Option<u8>) -> Seq<u8> {
    if hint.is_some() && hint.unwrap() < 64 && is_empty_cell(p1, p2, hint.unwrap() as int) {
        seq![hint.unwrap()]
    } else {
        Seq::empty()
    }
}

/// The list after scanning weight ranks below `wi` fully and rank `wi` up to cell `c`.
pub open spec fn listed(p1: u64, p2: u64, hint: Option<u8>, wi: int, c: int) -> Seq<u8>
    decreases wi, c,
{
    if wi <= 0 && c <= 0 {
        hint_part(p1, p2, hint)
    } else if c <= 0 {
        listed(p1, p2, hint, wi - 1, 64)
    } else {
        let prev = listed(p1, p2, hint, wi, c - 1);
        let x = c - 1;
        if is_empty_cell(p1, p2, x) && cell_weight(x) == weight_of_rank(wi) && !is_hint(hint, x) {
            prev.push(x as u8)
        } else {
            prev
        }
    }
}

/// Every listed cell is an empty cell of the board.
pub proof fn lemma_listed_empty(p1: u64, p2: u64, hint: Option<u8>, wi: int, c: int)
    requires
        0 <= wi,
        0 <= c <= 64,
    ensures
        forall|j: int|
            0 <= j < listed(p1, p2, hint, wi, c).len() ==> #[trigger] listed(p1, p2, hint, wi, c)[j] < 64
                && is_empty_cell(p1, p2, listed(p1, p2, hint, wi, c)[j] as int),
    decreases wi, c,
{
    if wi <= 0 && c <= 0 {
        if hint_part(p1, p2, hint).len() > 0 {
            assert(hint_part(p1, p2, hint)[0] == hint.unwrap());
        }
    } else if c <= 0 {
        lemma_listed_empty(p1, p2, hint, wi - 1, 64);
        assert(listed(p1, p2, hint, wi, c) == listed(p1, p2, hint, wi - 1, 64));
    } else {
        lemma_listed_empty(p1, p2, hint, wi, c - 1);
        let prev = listed(p1, p2, hint, wi, c - 1);
        let x = c - 1;
        if is_empty_cell(p1, p2, x) && cell_weight(x) == weight_of_rank(wi) && !is_hint(hint, x) {
            let cur = listed(p1, p2, hint, wi, c);
            assert(cur == prev.push(x as u8));
            assert((x as u8) as int == x);
            assert forall|j: int| 0 <= j < cur.len() implies #[trigger] cur[j] < 64 && is_empty_cell(
                p1,
                p2,
                cur[j] as int,
            ) by {
                if j < prev.len() {
                    assert(cur[j] == prev[j]);
                }
            }
        } else {
            assert(listed(p1, p2, hint, wi, c) == prev);
        }
    }
}

/// The ordered list of moves.
pub open spec fn ordered_moves(p1: u64, p2: u64, hint: Option<u8>) -> Seq<u8> {
    listed(p1, p2, hint, 3, 64)
}

/// The weight of rank `i`.
fn rank_weight(i: usize) -> (r: i32)
    requires
        i < 4,
    ensures
        r == (if i == 0 { 200int } else if i == 1 { 50int } else if i == 2 { 10int } else { 5int }),
{
    if i == 0 {
        200
    } else if i == 1 {
        50
    } else if i == 2 {
        10
    } else {
        5
    }
}

/// The empty cells of the position, best first: by descending positional weight plus the
/// bonus of the suggested move, ties by ascending cell index.
pub fn order_moves(p1: u64, p2: u64, hint: Option<u8>) -> (r: Vec<u8>)
    ensures
        forall|i: int| 0 <= i < r@.len() ==> #[trigger] r@[i] < 64 && is_empty_cell(p1, p2, r@[i] as int),
        r@ == ordered_moves(p1, p2, hint),
        r@.no_duplicates(),
        forall|c: int| 0 <= c < 64 && is_empty_cell(p1, p2, c) ==> r@.contains(c as u8),
        forall|i: int, j: int|
            0 <= i < j < r@.len() ==> comes_before(#[trigger] r@[i] as int, #[trigger] r@[j] as int, hint),
{
    let mut r: Vec<u8> = Vec::new();
    match hint {
        Some(h) => {
            if h < 64 && !is_set(p1, h) && !is_set(p2, h) {
                r.push(h);
            }
        },
        None => {},
    }
    assert(r@ =~= listed(p1, p2, hint, 0, 0));
    assert(forall|x: int| 0 <= x < 64 ==> (#[trigger] r@.contains(x as u8) <==> (is_empty_cell(p1, p2, x)
        && is_hint(hint, x)))) by {
        assert forall|x: int| 0 <= x < 64 implies (r@.contains(x as u8) <==> (is_empty_cell(p1, p2, x)
            && is_hint(hint, x))) by {
            if r@.len() == 1 {
                assert(r@[0] == hint.unwrap());
            }
        }
    }
    let mut wi: usize = 0;
    while wi < 4
        invariant
            wi <= 4,
            r@ == listed(p1, p2, hint, wi as int, 0),
            forall|i: int| 0 <= i < r@.len() ==> #[trigger] r@[i] < 64 && is_empty_cell(p1, p2, r@[i] as int),
            r@.no_duplicates(),
            forall|x: int|
                0 <= x < 64 ==> (#[trigger] r@.contains(x as u8) <==> (is_empty_cell(p1, p2, x) && (is_hint(hint, x)
                    || weight_rank(x) < wi))),
            forall|i: int, j: int|
                0 <= i < j < r@.len() ==> comes_before(#[trigger] r@[i] as int, #[trigger] r@[j] as int, hint),
        decreases 4 - wi,
    {
        let w = rank_weight(wi);
        let mut c: u8 = 0;
        assert(forall|x: int|
            0 <= x < 64 ==> (#[trigger] r@.contains(x as u8) <==> (is_empty_cell(p1, p2, x) && (
            is_hint(hint, x) || weight_rank(x) < wi || (weight_rank(x) == wi && x < c)))));
        while c < 64
            invariant
                wi < 4,
                c <= 64,
                r@ == listed(p1, p2, hint, wi as int, c as int),
                w == (if wi == 0 { 200int } else if wi == 1 { 50int } else if wi == 2 { 10int } else { 5int }),
                forall|i: int| 0 <= i < r@.len() ==> #[trigger] r@[i] < 64 && is_empty_cell(p1, p2, r@[i] as int),
                r@.no_duplicates(),
                forall|x: int|
                    0 <= x < 64 ==> (#[trigger] r@.contains(x as u8) <==> (is_empty_cell(p1, p2, x) && (is_hint(hint, x)
                        || weight_rank(x) < wi || (weight_rank(x) == wi && x < c)))),
                forall|i: int, j: int|
                    0 <= i < j < r@.len() ==> comes_before(#[trigger] r@[i] as int, #[trigger] r@[j] as int, hint),
            decreases 64 - c,
        {
            let named = match hint {
                Some(h) => h == c,
                None => false,
            };
            if !is_set(p1, c) && !is_set(p2, c) && positional_weight(c) == w && !named {
                let ghost before = r@;
                proof {
                    assert forall|i: int| 0 <= i < before.len() implies comes_before(
                        #[trigger] before[i] as int,
                        c as int,
                        hint,
                    ) && before[i] != c by {
                        let y = before[i] as int;
                        assert(before[i] == y as u8);
                        assert(before.contains(y as u8));
                        assert(is_empty_cell(p1, p2, y) && (is_hint(hint, y) || weight_rank(y) < wi
                            || (weight_rank(y) == wi && y < c)));
                        assert(!before.contains(c as int as u8));
                    }
                }
                r.push(c);
                proof {
                    assert forall|x: int| 0 <= x < 64 implies (r@.contains(x as u8) <==> (
                    is_empty_cell(p1, p2, x) && (is_hint(hint, x) || weight_rank(x) < wi || (
                    weight_rank(x) == wi && x < c + 1)))) by {
                        if r@.contains(x as u8) {
                            let i = choose|i: int| 0 <= i < r@.len() && r@[i] == x as u8;
                            if i < before.len() {
                                assert(before.contains(x as u8));
                            }
                        }
                        if x != c as int && is_empty_cell(p1, p2, x) && (is_hint(hint, x)
                            || weight_rank(x) < wi || (weight_rank(x) == wi && x < c + 1)) {
                            assert(before.contains(x as u8));
                            let i = choose|i: int| 0 <= i < before.len() && before[i] == x as u8;
                            assert(r@[i] == x as u8);
                        }
                        if x == c as int {
                            assert(r@[before.len() as int] == c);
                        }
                    }
                }
            }
            c = c + 1;
        }
        assert(listed(p1, p2, hint, wi + 1, 0) == listed(p1, p2, hint, wi as int, 64));
        wi = wi + 1;
    }
    assert(listed(p1, p2, hint, 4, 0) == listed(p1, p2, hint, 3, 64));
    r
}

} // verus!

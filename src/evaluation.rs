//! The static evaluation of a position for the machine.
use vstd::prelude::*;
use crate::bits::{bit, lemma_bit_and_or, lemma_bit_shr, lemma_bit_xor};
use crate::board::{on_grid, lemma_fullboard_bits};
use crate::board::{Board, FULLBOARD};

verus! {

/// Weight of two aligned tokens inside an open window.
pub const PAIR_WEIGHT: i32 = 15;

/// Weight of three aligned tokens inside an open window.
pub const TRIPLE_WEIGHT: i32 = 50;

/// Number of set bits of `x` below position `n`.
pub open spec fn ones_below(x: u64, n: nat) -> nat
    decreases n,
{
    if n == 0 {
        0
    } else {
        ones_below(x, (n - 1) as nat) + if bit(x, (n - 1) as u64) {
            1nat
        } else {
            0nat
        }
    }
}

/// Number of set bits of `x`.
pub open spec fn popcount(x: u64) -> nat {
    ones_below(x, 64)
}

proof fn lemma_ones_below_bound(x: u64, n: nat)
    ensures
        ones_below(x, n) <= n,
    decreases n,
{
    if n > 0 {
        lemma_ones_below_bound(x, (n - 1) as nat);
    }
}

/// Counts the set bits of `x`.
pub fn count_ones(x: u64) -> (r: u32)
    ensures
        r == popcount(x),
        r <= 64,
{
    let mut count: u32 = 0;
    let mut i: u64 = 0;
    while i < 64
        invariant
            i <= 64,
            count == ones_below(x, i as nat),
            count <= i,
        decreases 64 - i,
    {
        if (x >> i) & 1 == 1 {
            count = count + 1;
        }
        i = i + 1;
    }
    count
}

/// Cells not taken by `opp`: where the side facing `opp` can still align.
pub open spec fn free_of(opp: u64) -> u64 {
    opp ^ FULLBOARD
}

/// Starts of four-cell windows along stride `s` that `opp` does not block.
pub open spec fn open_windows(opp: u64, s: u64) -> u64 {
    let slot = free_of(opp);
    let slot2 = slot & (slot >> s);
    slot2 & (slot2 >> ((2 * s) as u64))
}

/// Starts of two of `own`'s tokens aligned along `s` in an open window.
pub open spec fn pairs(own: u64, opp: u64, s: u64) -> u64 {
    own & (own >> s) & open_windows(opp, s)
}

/// Starts of three of `own`'s tokens aligned along `s` in an open window.
pub open spec fn triples(own: u64, opp: u64, s: u64) -> u64 {
    pairs(own, opp, s) & (own >> ((2 * s) as u64)) & open_windows(opp, s)
}

/// Whether bit `j` is a playable cell that `opp` has not taken.
pub open spec fn free_cell(opp: u64, j: int) -> bool {
    0 <= j < 64 && bit(FULLBOARD, j as u64) && !bit(opp, j as u64)
}

/// Whether the four cells from bit `i` in steps of `s` are all free of `opp`.
pub open spec fn open_window(opp: u64, s: u64, i: u64) -> bool {
    free_cell(opp, i as int) && free_cell(opp, i + s) && free_cell(opp, i + 2 * s) && free_cell(
        opp,
        i + 3 * s,
    )
}

/// What the evaluation counts, cell by cell: with `opp` on the grid, a
/// window is open when its four cells are free of `opp`; a pair starts at
/// `i` when `own` holds `i` and the next cell and the window from `i` is
/// open; a triple when `own` also holds the third cell.
pub proof fn lemma_counted_patterns(own: u64, opp: u64, s: u64, i: u64)
    requires
        on_grid(opp),
        1 <= s <= 8,
        i < 64,
    ensures
        bit(open_windows(opp, s), i) == open_window(opp, s, i),
        bit(pairs(own, opp, s), i) == (bit(own, i) && bit(own, (i + s) as u64) && open_window(
            opp,
            s,
            i,
        )),
        bit(triples(own, opp, s), i) == (bit(own, i) && bit(own, (i + s) as u64) && bit(
            own,
            (i + 2 * s) as u64,
        ) && open_window(opp, s, i)),
{
    let slot = free_of(opp);
    let slot2 = slot & (slot >> s);
    let s2 = (2 * s) as u64;
    let j = (i + s2) as u64;
    assert forall|k: u64| #[trigger] bit(slot, k) == free_cell(opp, k as int) by {
        lemma_bit_xor(opp, FULLBOARD, k);
        lemma_fullboard_bits(k);
    }
    lemma_bit_and_or(slot2, slot2 >> s2, i);
    lemma_bit_shr(slot2, s2, i);
    lemma_bit_and_or(slot, slot >> s, i);
    lemma_bit_shr(slot, s, i);
    lemma_bit_and_or(slot, slot >> s, j);
    if j < 64 {
        lemma_bit_shr(slot, s, j);
    }
    let w = open_windows(opp, s);
    lemma_bit_and_or(own, own >> s, i);
    lemma_bit_shr(own, s, i);
    lemma_bit_and_or(own & (own >> s), w, i);
    lemma_bit_and_or(pairs(own, opp, s), own >> s2, i);
    lemma_bit_shr(own, s2, i);
    lemma_bit_and_or(pairs(own, opp, s) & (own >> s2), w, i);
}

/// What `own`'s alignments along `s` are worth against `opp`.
pub open spec fn side_value(own: u64, opp: u64, s: u64) -> int {
    PAIR_WEIGHT * popcount(pairs(own, opp, s)) + TRIPLE_WEIGHT * popcount(triples(own, opp, s))
}

/// What `own`'s alignments along all four directions are worth against `opp`.
pub open spec fn side_total(own: u64, opp: u64) -> int {
    side_value(own, opp, 1) + side_value(own, opp, 6) + side_value(own, opp, 7) + side_value(
        own,
        opp,
        8,
    )
}

/// The heuristic score of a position from `own`'s point of view.
pub open spec fn score(own: u64, opp: u64) -> int {
    side_total(own, opp) - side_total(opp, own)
}

/// Swapping the two sides negates the score.
pub proof fn lemma_score_antisymmetric(own: u64, opp: u64)
    ensures
        score(opp, own) == -score(own, opp),
{
}

/// The score of a position for the machine (`player2`) against the human
/// (`player1`).
pub open spec fn evaluation_spec(board: Board) -> int {
    score(board.player2, board.player1)
}

/// The board with the two sides' tokens exchanged.
pub open spec fn swapped(board: Board) -> Board {
    Board { player1: board.player2, player2: board.player1, heights: board.heights }
}

/// The evaluation is antisymmetric: exchanging the sides' tokens negates it.
pub proof fn lemma_evaluation_antisymmetric(board: Board)
    ensures
        evaluation_spec(swapped(board)) == -evaluation_spec(board),
{
    lemma_score_antisymmetric(board.player2, board.player1);
}

/// Bound on how far an evaluation can be from zero.
pub const EVAL_BOUND: i32 = 33280;

/// The evaluation stays within `EVAL_BOUND` of zero.
pub proof fn lemma_score_bounds(own: u64, opp: u64)
    ensures
        -EVAL_BOUND <= score(own, opp) <= EVAL_BOUND,
{
    assert forall|a: u64, b: u64, s: u64| 0 <= #[trigger] side_value(a, b, s) <= 4160 by {
        lemma_ones_below_bound(pairs(a, b, s), 64);
        lemma_ones_below_bound(triples(a, b, s), 64);
    }
}

/// What one side's alignments along stride `s` are worth, by counting.
fn side_count(own: u64, opp: u64, s: u64) -> (r: i32)
    requires
        1 <= s <= 8,
    ensures
        r == side_value(own, opp, s),
        0 <= r <= 4160,
{
    let slot: u64 = opp ^ FULLBOARD;
    let slot2: u64 = slot & (slot >> s);
    let slot4: u64 = slot2 & (slot2 >> (2 * s));
    let con2: u64 = own & (own >> s) & slot4;
    let con3: u64 = con2 & (own >> (2 * s)) & slot4;
    let n2: u32 = count_ones(con2);
    let n3: u32 = count_ones(con3);
    PAIR_WEIGHT * n2 as i32 + TRIPLE_WEIGHT * n3 as i32
}

/// The static score of `board`: the machine's alignments in open windows
/// minus the human's, pairs weighing `PAIR_WEIGHT` and triples `TRIPLE_WEIGHT`.
pub fn evaluation(board: Board) -> (r: i32)
    ensures
        r == evaluation_spec(board),
        -EVAL_BOUND <= r <= EVAL_BOUND,
{
    let own: u64 = board.player2;
    let adv: u64 = board.player1;
    let mut score: i32 = 0;
    score = score + side_count(own, adv, 1) - side_count(adv, own, 1);
    score = score + side_count(own, adv, 6) - side_count(adv, own, 6);
    score = score + side_count(own, adv, 7) - side_count(adv, own, 7);
    score = score + side_count(own, adv, 8) - side_count(adv, own, 8);
    proof {
        lemma_score_bounds(own, adv);
    }
    score
}

} // verus!

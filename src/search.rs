//! Fixed-depth minimax search over the board.
use vstd::prelude::*;
use crate::board::{Board, has_four, FULLBOARD, COLUMNS};
use crate::evaluation::{evaluation, evaluation_spec, lemma_score_bounds};

verus! {

/// Score of a position where the machine has won.
pub const WIN_SCORE: i32 = 1_000_000;

/// Score of a position where the machine has lost.
pub const LOSS_SCORE: i32 = -1_000_000;

/// Number of plies the machine looks ahead.
pub const MAXDEPTH: u8 = 7;

/// Whether `board` is a leaf of the search when `botplayer`'s side is to
/// move with `depth` plies left: that side has lost, the board is full, or
/// no ply is left.
pub open spec fn is_leaf(board: Board, botplayer: bool, depth: nat) -> bool {
    has_four(board.mask(!botplayer)) || board.player1 | board.player2 == FULLBOARD || depth == 0
}

/// The column chosen and the score of `board` with `botplayer`'s side to move
/// and `depth` plies left. The machine maximises, the human minimises.
pub open spec fn minimax(board: Board, botplayer: bool, depth: nat) -> (u8, int)
    decreases depth, 8nat,
{
    if has_four(board.mask(!botplayer)) {
        (0, if botplayer { LOSS_SCORE as int } else { WIN_SCORE as int })
    } else if board.player1 | board.player2 == FULLBOARD || depth == 0 {
        (0, evaluation_spec(board))
    } else {
        best(board, botplayer, (depth - 1) as nat, 7)
    }
}

/// The score of playing column `col` for `botplayer`'s side, with `depth`
/// plies left after it.
pub open spec fn child_score(board: Board, botplayer: bool, depth: nat, col: int) -> int
    decreases depth, 9nat,
{
    minimax(board.played(col, botplayer), !botplayer, depth).1
}

/// Whether `v` beats the incumbent score `s` for `botplayer`'s side.
pub open spec fn improves(botplayer: bool, v: int, s: int) -> bool {
    if botplayer {
        v > s
    } else {
        v < s
    }
}

/// The best column among the first `n` and its score, when each child has
/// `depth` plies left; on equal scores the lowest column is kept.
pub open spec fn best(board: Board, botplayer: bool, depth: nat, n: nat) -> (u8, int)
    decreases depth + 1, n,
{
    if n == 0 {
        (0, if botplayer { i32::MIN as int } else { i32::MAX as int })
    } else {
        let prev = best(board, botplayer, depth, (n - 1) as nat);
        let col = n - 1;
        if board.heights[col] < 6 {
            let v = child_score(board, botplayer, depth, col);
            if improves(botplayer, v, prev.1) {
                (col as u8, v)
            } else {
                prev
            }
        } else {
            prev
        }
    }
}

/// Whether column `col` of `board` can take a token.
pub open spec fn playable(board: Board, col: int) -> bool {
    0 <= col < 7 && board.heights[col] < 6
}

/// What the scan over the first `n` columns yields, given that every playable
/// column scores between the loss and win scores: with no playable column the
/// start value; otherwise a playable column whose score no playable column
/// among the first `n` beats, and which every lower playable column scores
/// strictly worse than.
proof fn lemma_best(board: Board, botplayer: bool, depth: nat, n: nat)
    requires
        n <= 7,
        forall|j: int|
            playable(board, j) ==> LOSS_SCORE <= #[trigger] child_score(
                board,
                botplayer,
                depth,
                j,
            ) <= WIN_SCORE,
    ensures
        ({
            let r = best(board, botplayer, depth, n);
            &&& (forall|j: int| 0 <= j < n ==> !playable(board, j)) ==> r == (
                0u8,
                if botplayer { i32::MIN as int } else { i32::MAX as int },
            )
            &&& (exists|j: int| 0 <= j < n && playable(board, j)) ==> {
                &&& r.0 < n
                &&& playable(board, r.0 as int)
                &&& r.1 == child_score(board, botplayer, depth, r.0 as int)
                &&& forall|j: int|
                    0 <= j < n && playable(board, j) ==> !improves(
                        botplayer,
                        #[trigger] child_score(board, botplayer, depth, j),
                        r.1,
                    )
                &&& forall|j: int|
                    0 <= j < r.0 && playable(board, j) ==> improves(
                        botplayer,
                        r.1,
                        #[trigger] child_score(board, botplayer, depth, j),
                    )
            }
        }),
    decreases n,
{
    if n > 0 {
        let m = (n - 1) as nat;
        lemma_best(board, botplayer, depth, m);
        let prev = best(board, botplayer, depth, m);
        let r = best(board, botplayer, depth, n);
        if playable(board, m as int) {
            let v = child_score(board, botplayer, depth, m as int);
            if !(exists|j: int| 0 <= j < m && playable(board, j)) {
                assert(improves(botplayer, v, prev.1));
                assert(r == (m as u8, v));
                assert forall|j: int| 0 <= j < n && playable(board, j) implies !improves(
                    botplayer,
                    #[trigger] child_score(board, botplayer, depth, j),
                    r.1,
                ) by {
                    assert(j == m);
                }
            }
        } else {
            assert(r == prev);
            if exists|j: int| 0 <= j < n && playable(board, j) {
                let j = choose|j: int| 0 <= j < n && playable(board, j);
                assert(j < m);
            }
        }
    }
}

/// Every score of the search lies between the loss and win scores.
pub proof fn lemma_minimax_bounds(board: Board, botplayer: bool, depth: nat)
    requires
        board.wf(),
    ensures
        LOSS_SCORE <= minimax(board, botplayer, depth).1 <= WIN_SCORE,
    decreases depth,
{
    lemma_score_bounds(board.player2, board.player1);
    if !is_leaf(board, botplayer, depth) {
        let d = (depth - 1) as nat;
        assert forall|j: int| playable(board, j) implies LOSS_SCORE <= #[trigger] child_score(
            board,
            botplayer,
            d,
            j,
        ) <= WIN_SCORE by {
            board.lemma_played_wf(j, botplayer);
            lemma_minimax_bounds(board.played(j, botplayer), !botplayer, d);
        }
        lemma_best(board, botplayer, d, 7);
        board.lemma_full_iff();
        let c = choose|c: int| 0 <= c < 7 && board.heights[c] != 6;
        assert(playable(board, c));
    }
}

/// Whenever the search has a move to make (the side to move has not lost,
/// the board is not full, and a ply is left), the column it picks is playable.
pub proof fn lemma_move_playable(board: Board, botplayer: bool, depth: nat)
    requires
        board.wf(),
        !is_leaf(board, botplayer, depth),
    ensures
        playable(board, minimax(board, botplayer, depth).0 as int),
{
    lemma_search_choice(board, botplayer, depth);
}

/// At a position with a move to make, the search returns the score of the
/// column it picks; no playable column scores better for the side to move,
/// and every lower playable column scores strictly worse, so of two columns
/// with the same best score the lower one is chosen.
pub proof fn lemma_search_choice(board: Board, botplayer: bool, depth: nat)
    requires
        board.wf(),
        !is_leaf(board, botplayer, depth),
    ensures
        ({
            let (c, v) = minimax(board, botplayer, depth);
            let d = (depth - 1) as nat;
            &&& playable(board, c as int)
            &&& v == child_score(board, botplayer, d, c as int)
            &&& forall|j: int|
                playable(board, j) ==> !improves(
                    botplayer,
                    #[trigger] child_score(board, botplayer, d, j),
                    v,
                )
            &&& forall|j: int|
                0 <= j < c && playable(board, j) ==> #[trigger] child_score(
                    board,
                    botplayer,
                    d,
                    j,
                ) != v
        }),
{
    let d = (depth - 1) as nat;
    assert forall|j: int| playable(board, j) implies LOSS_SCORE <= #[trigger] child_score(
        board,
        botplayer,
        d,
        j,
    ) <= WIN_SCORE by {
        board.lemma_played_wf(j, botplayer);
        lemma_minimax_bounds(board.played(j, botplayer), !botplayer, d);
    }
    lemma_best(board, botplayer, d, 7);
    board.lemma_full_iff();
    let c = choose|c: int| 0 <= c < 7 && board.heights[c] != 6;
    assert(playable(board, c));
}

/// The column and score of `board` for `botplayer`'s side to move with
/// `depth` plies left; the board is left as it was.
pub fn minmax(board: &mut Board, botplayer: bool, depth: u8) -> (r: (u8, i32))
    requires
        old(board).wf(),
    ensures
        *final(board) == *old(board),
        r.0 == minimax(*old(board), botplayer, depth as nat).0,
        r.1 == minimax(*old(board), botplayer, depth as nat).1,
    decreases depth,
{
    if board.is_defeated(botplayer) {
        let score: i32 = if botplayer {
            LOSS_SCORE
        } else {
            WIN_SCORE
        };
        return (0, score);
    } else if board.is_draw() || depth == 0 {
        let score: i32 = evaluation(*board);
        return (0, score);
    }
    let ghost b0 = *board;
    let mut column: u8 = 0;
    let mut score: i32 = if botplayer {
        i32::MIN
    } else {
        i32::MAX
    };
    let mut col: u8 = 0;
    while col < COLUMNS
        invariant
            b0.wf(),
            *board == b0,
            col <= 7,
            depth > 0,
            !is_leaf(b0, botplayer, depth as nat),
            (column, score as int) == best(b0, botplayer, (depth - 1) as nat, col as nat),
        decreases 7 - col,
    {
        if board.is_valid(col) {
            proof {
                b0.lemma_play_unplay(col as int, botplayer);
            }
            board.play(col, botplayer);
            let (_c, s) = minmax(board, !botplayer, depth - 1);
            assert(s == child_score(b0, botplayer, (depth - 1) as nat, col as int));
            board.unplay(col, botplayer);
            if (botplayer && s > score) || (!botplayer && s < score) {
                column = col;
                score = s;
            }
        }
        col = col + 1;
    }
    (column, score)
}

/// The column the machine plays on `board`, searching `MAXDEPTH` plies.
pub fn bot(board: &Board) -> (r: u8)
    requires
        board.wf(),
    ensures
        r == minimax(*board, true, MAXDEPTH as nat).0,
        !is_leaf(*board, true, MAXDEPTH as nat) ==> playable(*board, r as int),
{
    let mut copyboard = *board;
    let (col, _score) = minmax(&mut copyboard, true, MAXDEPTH);
    proof {
        if !is_leaf(*board, true, MAXDEPTH as nat) {
            lemma_move_playable(*board, true, MAXDEPTH as nat);
        }
    }
    col
}

} // verus!

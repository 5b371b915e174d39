use connect_four::board::{Board, FULLBOARD};
use connect_four::evaluation::{count_ones, evaluation};
use connect_four::search::{bot, minmax, LOSS_SCORE, MAXDEPTH, WIN_SCORE};

fn board_of(moves: &[(u8, bool)]) -> Board {
    let mut b = Board::new();
    for &(col, botplayer) in moves {
        assert!(b.is_valid(col));
        b.play(col, botplayer);
    }
    b
}

#[test]
fn new_board_is_empty() {
    let b = Board::new();
    assert_eq!(b.player1, 0);
    assert_eq!(b.player2, 0);
    assert_eq!(b.heights, [0u8; 7]);
    assert!(!b.is_draw());
    assert!(!b.is_defeated(true));
    assert!(!b.is_defeated(false));
}

#[test]
fn play_sets_the_cell_and_height() {
    let mut b = Board::new();
    b.play(3, true);
    assert_eq!(b.player2, 1u64 << 21);
    assert_eq!(b.player1, 0);
    assert_eq!(b.heights[3], 1);
    b.play(3, false);
    assert_eq!(b.player1, 1u64 << 22);
    assert_eq!(b.heights[3], 2);
}

#[test]
fn masks_stay_disjoint() {
    let mut b = Board::new();
    let cols: [u8; 12] = [3, 3, 2, 4, 4, 0, 6, 6, 3, 1, 5, 2];
    let mut side = false;
    for &c in cols.iter() {
        b.play(c, side);
        assert_eq!(b.player1 & b.player2, 0);
        side = !side;
    }
    for &c in cols.iter().rev() {
        side = !side;
        b.unplay(c, side);
        assert_eq!(b.player1 & b.player2, 0);
    }
    assert_eq!(b.player1, 0);
    assert_eq!(b.player2, 0);
    assert_eq!(b.heights, [0u8; 7]);
}

#[test]
fn play_then_unplay_restores_board() {
    let base = board_of(&[(3, true), (3, false), (2, true), (5, false)]);
    for col in 0..7u8 {
        for &side in [true, false].iter() {
            let mut b = base;
            b.play(col, side);
            assert_ne!((b.player1, b.player2), (base.player1, base.player2));
            b.unplay(col, side);
            assert_eq!(b.player1, base.player1);
            assert_eq!(b.player2, base.player2);
            assert_eq!(b.heights, base.heights);
        }
    }
}

#[test]
fn is_valid_tracks_full_columns() {
    let mut b = Board::new();
    for i in 0..6 {
        assert!(b.is_valid(2));
        b.play(2, i % 2 == 0);
    }
    assert!(!b.is_valid(2));
    assert!(b.is_valid(1));
}

#[test]
fn horizontal_four_wins_and_three_does_not() {
    let mut b = board_of(&[(0, false), (1, false), (2, false), (3, false)]);
    assert!(b.is_defeated(true));
    assert!(!b.is_defeated(false));
    b.unplay(3, false);
    assert!(!b.is_defeated(true));
    assert!(!b.is_defeated(false));
}

#[test]
fn vertical_and_diagonal_fours_win() {
    let v = board_of(&[(4, true), (4, true), (4, true), (4, true)]);
    assert!(v.is_defeated(false));
    assert!(!v.is_defeated(true));
    let rising = board_of(&[
        (0, true),
        (1, false),
        (1, true),
        (2, false),
        (2, false),
        (2, true),
        (3, false),
        (3, false),
        (3, false),
        (3, true),
    ]);
    assert!(rising.is_defeated(false));
    assert!(!rising.is_defeated(true));
    let falling = board_of(&[
        (3, true),
        (2, false),
        (2, true),
        (1, false),
        (1, false),
        (1, true),
        (0, false),
        (0, false),
        (0, false),
        (0, true),
    ]);
    assert!(falling.is_defeated(false));
}

#[test]
fn guard_bit_blocks_wrap_between_columns() {
    // column 0 rows 3..5 and column 1 row 0 sit at bits 3, 4, 5 and 7
    let b = board_of(&[
        (0, true),
        (0, true),
        (0, true),
        (0, false),
        (0, false),
        (0, false),
        (1, false),
    ]);
    assert!(!b.is_defeated(true));
}

#[test]
fn count_ones_counts_bits() {
    assert_eq!(count_ones(0), 0);
    assert_eq!(count_ones(1), 1);
    assert_eq!(count_ones(u64::MAX), 64);
    assert_eq!(count_ones(FULLBOARD), 42);
    assert_eq!(count_ones(0b1011_0000), 3);
}

#[test]
fn evaluation_exact_values() {
    assert_eq!(evaluation(Board::new()), 0);
    let b = board_of(&[(2, false), (2, true), (3, false), (3, true), (4, false)]);
    assert_eq!(evaluation(b), -65);
    let pair = board_of(&[(3, true), (0, false), (4, true)]);
    assert_eq!(evaluation(pair), 15);
}

#[test]
fn evaluation_flips_sign_when_sides_swap() {
    let b = board_of(&[(2, false), (2, true), (3, false), (3, true), (4, false)]);
    let mut s = b;
    s.player1 = b.player2;
    s.player2 = b.player1;
    assert_eq!(evaluation(s), -evaluation(b));
    assert_eq!(evaluation(s), 65);
}

#[test]
fn search_on_empty_board_picks_playable_column() {
    for depth in 1..5u8 {
        let mut b = Board::new();
        let (col, _score) = minmax(&mut b, true, depth);
        assert!(col < 7);
        assert!(b.is_valid(col));
        assert_eq!(b.heights, [0u8; 7]);
        assert_eq!(b.player1 | b.player2, 0);
    }
}

#[test]
fn search_exact_results_on_empty_board() {
    let mut b = Board::new();
    assert_eq!(minmax(&mut b, true, 1), (0, 0));
    assert_eq!(minmax(&mut b, true, 3), (0, 15));
    assert_eq!(minmax(&mut b, true, 0), (0, 0));
}

#[test]
fn tie_goes_to_lower_column() {
    // columns 2 and 4 both give the best score
    let mut b = board_of(&[(3, true), (3, false)]);
    assert_eq!(minmax(&mut b, true, 1), (2, 15));
}

#[test]
fn search_is_reproducible() {
    let mut a = Board::new();
    let mut b = Board::new();
    assert_eq!(minmax(&mut a, true, 1), minmax(&mut b, true, 1));
    assert_eq!(minmax(&mut a, true, 1), (0, 0));
    let start = board_of(&[(3, false)]);
    assert_eq!(bot(&start), bot(&start));
}

#[test]
fn machine_blocks_open_three() {
    let mut b = board_of(&[(2, false), (2, true), (3, false), (3, true), (4, false)]);
    let (col, score) = minmax(&mut b, true, 1);
    assert!(col == 1 || col == 5);
    assert_eq!((col, score), (5, 15));
}

#[test]
fn terminal_scores() {
    let mut lost = board_of(&[(0, false), (1, false), (2, false), (3, false)]);
    assert_eq!(minmax(&mut lost, true, 3), (0, LOSS_SCORE));
    let mut won = board_of(&[(0, true), (1, true), (2, true), (3, true)]);
    assert_eq!(minmax(&mut won, false, 3), (0, WIN_SCORE));
}

const DRAWN: [[u8; 6]; 7] = [
    [0, 0, 0, 1, 0, 0],
    [0, 1, 0, 1, 1, 0],
    [0, 1, 1, 0, 0, 1],
    [1, 0, 0, 1, 1, 0],
    [0, 1, 1, 1, 0, 1],
    [0, 0, 0, 1, 0, 1],
    [0, 0, 1, 0, 0, 1],
];

#[test]
fn last_cell_makes_a_draw() {
    let mut b = Board::new();
    for c in 0..7usize {
        for r in 0..6usize {
            if c == 6 && r == 5 {
                continue;
            }
            b.play(c as u8, DRAWN[c][r] == 1);
        }
    }
    assert!(!b.is_draw());
    assert!(b.is_valid(6));
    assert!(!b.is_defeated(true));
    assert!(!b.is_defeated(false));
    assert_eq!(bot(&b), 6);
    b.play(6, DRAWN[6][5] == 1);
    assert!(b.is_draw());
    assert_eq!(b.player1 | b.player2, FULLBOARD);
    assert!(!b.is_defeated(true));
    assert!(!b.is_defeated(false));
}

#[test]
fn bot_returns_playable_column() {
    let b = board_of(&[(3, false), (3, true), (2, false)]);
    let col = bot(&b);
    assert!(col < 7);
    assert!(b.is_valid(col));
    assert_eq!(MAXDEPTH, 7);
}

#[test]
fn evaluation_counts_only_open_windows() {
    let blocked_row = board_of(&[(3, true), (6, false), (4, true)]);
    assert_eq!(evaluation(blocked_row), 0);
    let open_column = board_of(&[(0, true), (0, true), (0, true)]);
    assert_eq!(evaluation(open_column), 80);
    let capped_column = board_of(&[(0, true), (0, true), (0, true), (0, false)]);
    assert_eq!(evaluation(capped_column), 0);
}

//! The board: two occupancy masks over a 7×6 grid packed with a stride of
//! seven bits per column (six rows and one guard bit), and the fill level of
//! each column.
use vstd::prelude::*;
use vstd::array::spec_array_update;
use crate::bits::{
    bit, aligned, lemma_bit_shr, lemma_bit_and_or, lemma_bit_set, lemma_bit_clear,
    lemma_nonzero_has_bit, lemma_bits_equal, lemma_bit_zero,
};

verus! {

/// Number of columns.
pub const COLUMNS: u8 = 7;

/// Number of playable rows in a column.
pub const ROWS: u8 = 6;

/// Bits per column in a mask: the rows and one guard bit above them.
pub const STRIDE: u8 = 7;

/// Every playable cell set, every guard bit clear.
pub const FULLBOARD: u64 = 279258638311359;

/// Index of the bit for cell (`col`, `row`).
pub open spec fn cell(col: int, row: int) -> u64 {
    (7 * col + row) as u64
}

/// A Connect-Four position. `player1` is the human's mask, `player2` the
/// machine's; `heights[c]` is the next free row of column `c`.
#[derive(Copy, Clone, Debug)]
pub struct Board {
    pub player1: u64,
    pub player2: u64,
    pub heights: [u8; 7],
}

/// Whether two words share no set bit, stated bit by bit.
proof fn lemma_disjoint(a: u64, b: u64)
    requires
        forall|i: u64| !(#[trigger] bit(a, i) && bit(b, i)),
    ensures
        a & b == 0,
{
    if a & b != 0 {
        lemma_nonzero_has_bit(a & b);
        let i = choose|i: u64| bit(a & b, i);
        lemma_bit_and_or(a, b, i);
    }
}

/// Whether `m` holds four in a row along one of the four directions: a
/// column (stride 1), a row (stride 7) or a diagonal (strides 6 and 8).
pub open spec fn has_four(m: u64) -> bool {
    aligned(m, 1) || aligned(m, 6) || aligned(m, 7) || aligned(m, 8)
}

/// Whether `m` holds four set bits spaced `s` apart, found by two
/// shift-and-mask steps.
fn four_along(m: u64, s: u64) -> (r: bool)
    requires
        1 <= s <= 8,
    ensures
        r == aligned(m, s),
{
    let con2: u64 = m & (m >> s);
    let con4: u64 = con2 & (con2 >> (2 * s));
    proof {
        assert forall|i: u64| i < 64 implies #[trigger] bit(con4, i) == (bit(m, i) && bit(
            m,
            (i + s) as u64,
        ) && bit(m, (i + 2 * s) as u64) && bit(m, (i + 3 * s) as u64)) by {
            let j = (i + 2 * s) as u64;
            lemma_bit_and_or(con2, con2 >> ((2 * s) as u64), i);
            lemma_bit_shr(con2, (2 * s) as u64, i);
            lemma_bit_and_or(m, m >> s, i);
            lemma_bit_shr(m, s, i);
            lemma_bit_and_or(m, m >> s, j);
            if j < 64 {
                lemma_bit_shr(m, s, j);
            }
        }
        lemma_nonzero_has_bit(con4);
        if con4 != 0 {
            let i = choose|i: u64| bit(con4, i);
            assert(bit(m, i));
        }
        if aligned(m, s) {
            let i = choose|i: u64|
                #![trigger bit(m, i)]
                bit(m, i) && bit(m, (i + s) as u64) && bit(m, (i + 2 * s) as u64) && bit(
                    m,
                    (i + 3 * s) as u64,
                );
            assert(bit(con4, i));
        }
    }
    con4 != 0
}

/// Whether mask `m` holds the cell in column `c`, row `r` of the grid.
pub open spec fn holds(m: u64, c: int, r: int) -> bool {
    0 <= c < 7 && 0 <= r < 6 && bit(m, cell(c, r))
}

/// Whether `m` holds the four cells from (`c`, `r`) in steps of (`dc`, `dr`).
pub open spec fn line_of_four(m: u64, c: int, r: int, dc: int, dr: int) -> bool {
    holds(m, c, r) && holds(m, c + dc, r + dr) && holds(m, c + 2 * dc, r + 2 * dr) && holds(
        m,
        c + 3 * dc,
        r + 3 * dr,
    )
}

/// Whether `m` holds four cells in a line: up a column, along a row, or
/// along either diagonal.
pub open spec fn four_in_a_row(m: u64) -> bool {
    exists|c: int, r: int|
        #![trigger holds(m, c, r)]
        line_of_four(m, c, r, 0, 1) || line_of_four(m, c, r, 1, 0) || line_of_four(m, c, r, 1, 1)
            || line_of_four(m, c, r, 1, -1)
}

/// Whether every set bit of `m` is a playable cell.
pub open spec fn on_grid(m: u64) -> bool {
    forall|i: u64| #[trigger] bit(m, i) ==> i < 49 && i % 7 < 6
}

/// Four bits spaced `7 * dc + dr` apart on the grid are four cells in a
/// line in steps of (`dc`, `dr`): the guard bits keep a run from wrapping
/// from one column into the next.
proof fn lemma_aligned_line(m: u64, dc: int, dr: int)
    requires
        on_grid(m),
        (dc == 0 && dr == 1) || (dc == 1 && (dr == 0 || dr == 1 || dr == -1)),
    ensures
        aligned(m, (7 * dc + dr) as u64) == exists|c: int, r: int|
            #![trigger holds(m, c, r)]
            line_of_four(m, c, r, dc, dr),
{
    let s = (7 * dc + dr) as u64;
    if aligned(m, s) {
        let i = choose|i: u64|
            #![trigger bit(m, i)]
            bit(m, i) && bit(m, (i + s) as u64) && bit(m, (i + 2 * s) as u64) && bit(
                m,
                (i + 3 * s) as u64,
            );
        let c: int = (i / 7) as int;
        let r: int = (i % 7) as int;
        assert(i == 7 * c + r);
        let i1 = (i + s) as u64;
        let i2 = (i + 2 * s) as u64;
        let i3 = (i + 3 * s) as u64;
        assert(i1 < 49 && i1 % 7 < 6);
        assert(i2 < 49 && i2 % 7 < 6);
        assert(i3 < 49 && i3 % 7 < 6);
        if dr == 1 {
            assert(r + 3 < 6) by {
                if r + 3 >= 6 {
                    if r == 5 {
                        assert(i1 == 7 * (c + dc) + 6);
                    } else if r == 4 {
                        assert(i2 == 7 * (c + 2 * dc) + 6);
                    } else {
                        assert(i3 == 7 * (c + 3 * dc) + 6);
                    }
                }
            }
        } else if dr == -1 {
            assert(r >= 3) by {
                if r < 3 {
                    if r == 0 {
                        assert(i1 == 7 * c + 6);
                    } else if r == 1 {
                        assert(i2 == 7 * (c + 1) + 6);
                    } else {
                        assert(i3 == 7 * (c + 2) + 6);
                    }
                }
            }
        }
        assert(i1 == cell(c + dc, r + dr));
        assert(i2 == cell(c + 2 * dc, r + 2 * dr));
        assert(i3 == cell(c + 3 * dc, r + 3 * dr));
        assert(line_of_four(m, c, r, dc, dr));
    }
    if exists|c: int, r: int| #![trigger holds(m, c, r)] line_of_four(m, c, r, dc, dr) {
        let (c, r) = choose|c: int, r: int|
            #![trigger holds(m, c, r)]
            line_of_four(m, c, r, dc, dr);
        let i = cell(c, r);
        assert(cell(c + dc, r + dr) == (i + s) as u64);
        assert(cell(c + 2 * dc, r + 2 * dr) == (i + 2 * s) as u64);
        assert(cell(c + 3 * dc, r + 3 * dr) == (i + 3 * s) as u64);
        assert(bit(m, i));
    }
}

/// On the grid, four set bits along one of the four strides are exactly
/// four tokens in a line.
pub proof fn lemma_has_four_is_line(m: u64)
    requires
        on_grid(m),
    ensures
        has_four(m) == four_in_a_row(m),
{
    lemma_aligned_line(m, 0, 1);
    lemma_aligned_line(m, 1, 0);
    lemma_aligned_line(m, 1, 1);
    lemma_aligned_line(m, 1, -1);
    if four_in_a_row(m) {
        let (c, r) = choose|c: int, r: int|
            #![trigger holds(m, c, r)]
            line_of_four(m, c, r, 0, 1) || line_of_four(m, c, r, 1, 0) || line_of_four(
                m,
                c,
                r,
                1,
                1,
            ) || line_of_four(m, c, r, 1, -1);
        assert(holds(m, c, r));
    }
}

/// The set bits of the full-board mask are exactly the playable cells.
pub proof fn lemma_fullboard_bits(i: u64)
    ensures
        bit(FULLBOARD, i) == (i < 49 && i % 7 < 6),
{
    assert(i < 64 ==> (((279258638311359u64 >> i) & 1 == 1) == (i < 49 && i % 7 < 6)))
        by (bit_vector);
}

impl Board {
    /// The mask of one side: the machine's when `botplayer`, else the human's.
    pub open spec fn mask(self, botplayer: bool) -> u64 {
        if botplayer {
            self.player2
        } else {
            self.player1
        }
    }

    /// Whether the cell with bit index `i` holds a token, by the column heights.
    pub open spec fn stacked(self, i: u64) -> bool {
        i < 49 && i % 7 < self.heights[(i / 7) as int]
    }

    /// The board's invariant: the masks are disjoint, every height is at most
    /// six, and the occupied cells of each column are exactly the rows below
    /// its height (no floating tokens, no guard bits).
    pub open spec fn wf(self) -> bool {
        &&& self.player1 & self.player2 == 0
        &&& forall|c: int| 0 <= c < 7 ==> #[trigger] self.heights[c] <= 6
        &&& forall|i: u64| #[trigger] bit(self.player1 | self.player2, i) == self.stacked(i)
    }

    /// Whether every column is full.
    pub open spec fn full(self) -> bool {
        forall|c: int| 0 <= c < 7 ==> #[trigger] self.heights[c] == 6
    }

    /// The board after `botplayer`'s side drops a token into column `col`.
    pub open spec fn played(self, col: int, botplayer: bool) -> Board {
        let b = 1u64 << cell(col, self.heights[col] as int);
        Board {
            player1: if botplayer { self.player1 } else { self.player1 | b },
            player2: if botplayer { self.player2 | b } else { self.player2 },
            heights: spec_array_update(self.heights, col, (self.heights[col] + 1) as u8),
        }
    }

    /// The board after `botplayer`'s side takes back the top token of column `col`.
    pub open spec fn unplayed(self, col: int, botplayer: bool) -> Board {
        let b = u64::MAX ^ (1u64 << cell(col, self.heights[col] - 1));
        Board {
            player1: if botplayer { self.player1 } else { self.player1 & b },
            player2: if botplayer { self.player2 & b } else { self.player2 },
            heights: spec_array_update(self.heights, col, (self.heights[col] - 1) as u8),
        }
    }

    /// Dropping a token into a column that is not full keeps the invariant.
    pub proof fn lemma_played_wf(self, col: int, botplayer: bool)
        requires
            self.wf(),
            0 <= col < 7,
            self.heights[col] < 6,
        ensures
            self.played(col, botplayer).wf(),
    {
        let pre = self;
        let post = self.played(col, botplayer);
        let row = self.heights[col];
        let k = cell(col, row as int);
        assert(post.heights@ == pre.heights@.update(col, (row + 1) as u8));
        assert(!bit(pre.player1 | pre.player2, k));
        assert forall|i: u64| #[trigger] bit(post.player1 | post.player2, i) == post.stacked(i) by {
            lemma_bit_and_or(post.player1, post.player2, i);
            lemma_bit_and_or(pre.player1, pre.player2, i);
            lemma_bit_set(pre.player1, k, i);
            lemma_bit_set(pre.player2, k, i);
            if i < 49 {
                assert(post.heights[(i / 7) as int] == if i / 7 == col {
                    row + 1
                } else {
                    pre.heights[(i / 7) as int] as int
                });
            }
        }
        assert forall|i: u64| !(#[trigger] bit(post.player1, i) && bit(post.player2, i)) by {
            lemma_bit_zero(i);
            lemma_bit_and_or(pre.player1, pre.player2, i);
            lemma_bit_and_or(pre.player1, pre.player2, k);
            lemma_bit_set(pre.player1, k, i);
            lemma_bit_set(pre.player2, k, i);
        }
        lemma_disjoint(post.player1, post.player2);
        assert forall|c: int| 0 <= c < 7 implies #[trigger] post.heights[c] <= 6 by {
            assert(post.heights[c] == if c == col { row + 1 } else { pre.heights[c] as int });
        }
    }

    /// Taking back the top token of a column, when it belongs to the side
    /// named, keeps the invariant.
    pub proof fn lemma_unplayed_wf(self, col: int, botplayer: bool)
        requires
            self.wf(),
            0 <= col < 7,
            self.heights[col] > 0,
            bit(self.mask(botplayer), cell(col, self.heights[col] - 1)),
        ensures
            self.unplayed(col, botplayer).wf(),
    {
        let pre = self;
        let post = self.unplayed(col, botplayer);
        let row = self.heights[col];
        let k = cell(col, row - 1);
        assert(post.heights@ == pre.heights@.update(col, (row - 1) as u8));
        assert forall|i: u64| #[trigger] bit(post.player1 | post.player2, i) == post.stacked(i) by {
            lemma_bit_and_or(post.player1, post.player2, i);
            lemma_bit_and_or(pre.player1, pre.player2, i);
            lemma_bit_and_or(pre.player1, pre.player2, k);
            lemma_bit_zero(k);
            lemma_bit_clear(pre.player1, k, i);
            lemma_bit_clear(pre.player2, k, i);
            if i < 49 {
                assert(post.heights[(i / 7) as int] == if i / 7 == col {
                    row - 1
                } else {
                    pre.heights[(i / 7) as int] as int
                });
            }
        }
        assert forall|i: u64| !(#[trigger] bit(post.player1, i) && bit(post.player2, i)) by {
            lemma_bit_zero(i);
            lemma_bit_and_or(pre.player1, pre.player2, i);
            lemma_bit_clear(pre.player1, k, i);
            lemma_bit_clear(pre.player2, k, i);
        }
        lemma_disjoint(post.player1, post.player2);
        assert forall|c: int| 0 <= c < 7 implies #[trigger] post.heights[c] <= 6 by {
            assert(post.heights[c] == if c == col { row - 1 } else { pre.heights[c] as int });
        }
    }

    /// Dropping a token and taking it back restores the board exactly; the
    /// token taken back is the one dropped.
    pub proof fn lemma_play_unplay(self, col: int, botplayer: bool)
        requires
            self.wf(),
            0 <= col < 7,
            self.heights[col] < 6,
        ensures
            self.played(col, botplayer).wf(),
            self.played(col, botplayer).heights[col] == self.heights[col] + 1,
            bit(
                self.played(col, botplayer).mask(botplayer),
                cell(col, self.played(col, botplayer).heights[col] - 1),
            ),
            self.played(col, botplayer).unplayed(col, botplayer) == self,
    {
        let post = self.played(col, botplayer);
        let back = post.unplayed(col, botplayer);
        let k = cell(col, self.heights[col] as int);
        self.lemma_played_wf(col, botplayer);
        assert(post.heights@ == self.heights@.update(col, (self.heights[col] + 1) as u8));
        assert(back.heights@ == post.heights@.update(col, self.heights[col]));
        assert(back.heights =~= self.heights);
        assert(!bit(self.player1 | self.player2, k));
        lemma_bit_and_or(self.player1, self.player2, k);
        lemma_bit_set(self.mask(botplayer), k, k);
        assert forall|i: u64| #[trigger] bit(back.player1, i) == bit(self.player1, i) by {
            lemma_bit_set(self.player1, k, i);
            lemma_bit_clear(self.player1 | (1u64 << k), k, i);
        }
        assert forall|i: u64| #[trigger] bit(back.player2, i) == bit(self.player2, i) by {
            lemma_bit_set(self.player2, k, i);
            lemma_bit_clear(self.player2 | (1u64 << k), k, i);
        }
        lemma_bits_equal(back.player1, self.player1);
        lemma_bits_equal(back.player2, self.player2);
    }

    /// On a well-formed board, the occupied cells are all the playable cells
    /// exactly when every column is full.
    pub proof fn lemma_full_iff(self)
        requires
            self.wf(),
        ensures
            (self.player1 | self.player2 == FULLBOARD) == self.full(),
    {
        if self.full() {
            assert forall|i: u64| #[trigger]
                bit(self.player1 | self.player2, i) == bit(FULLBOARD, i) by {
                lemma_fullboard_bits(i);
            }
            lemma_bits_equal(self.player1 | self.player2, FULLBOARD);
        }
        if self.player1 | self.player2 == FULLBOARD {
            assert forall|c: int| 0 <= c < 7 implies #[trigger] self.heights[c] == 6 by {
                let i = cell(c, 5);
                lemma_fullboard_bits(i);
                assert(i / 7 == c && i % 7 == 5);
            }
        }
    }

    /// On a well-formed board both sides' tokens lie on playable cells.
    pub proof fn lemma_masks_on_grid(self)
        requires
            self.wf(),
        ensures
            on_grid(self.player1),
            on_grid(self.player2),
    {
        assert forall|i: u64| #[trigger] bit(self.player1, i) implies i < 49 && i % 7 < 6 by {
            lemma_bit_and_or(self.player1, self.player2, i);
        }
        assert forall|i: u64| #[trigger] bit(self.player2, i) implies i < 49 && i % 7 < 6 by {
            lemma_bit_and_or(self.player1, self.player2, i);
        }
    }

    /// The empty board.
    pub fn new() -> (r: Self)
        ensures
            r.wf(),
            r.player1 == 0,
            r.player2 == 0,
            forall|c: int| 0 <= c < 7 ==> #[trigger] r.heights[c] == 0,
    {
        let r = Board { player1: 0, player2: 0, heights: [0;7] };
        proof {
            assert forall|i: u64| #[trigger] bit(r.player1 | r.player2, i) == r.stacked(i) by {
                assert((0u64 | 0u64) >> i & 1 == 0) by (bit_vector);
            }
            assert(0u64 & 0u64 == 0) by (bit_vector);
        }
        r
    }

    /// Whether column `col` can take another token.
    pub fn is_valid(&self, col: u8) -> (r: bool)
        requires
            col < 7,
        ensures
            r == (self.heights[col as int] < 6),
    {
        self.heights[col as usize] < ROWS
    }
    /// Drops a token of `botplayer`'s side into column `col`, which must not be full.
    pub fn play(&mut self, col: u8, botplayer: bool)
        requires
            old(self).wf(),
            col < 7,
            old(self).heights[col as int] < 6,
        ensures
            *final(self) == old(self).played(col as int, botplayer),
            final(self).wf(),
    {
        let row: u8 = self.heights[col as usize];
        let b: u64 = 1u64 << (STRIDE as u64 * col as u64 + row as u64);
        if botplayer {
            self.player2 = self.player2 | b;
        } else {
            self.player1 = self.player1 | b;
        }
        self.heights[col as usize] = row + 1;
        proof {
            assert(self.heights =~= old(self).played(col as int, botplayer).heights);
            old(self).lemma_played_wf(col as int, botplayer);
        }
    }

    /// Takes back the top token of column `col`, which must belong to
    /// `botplayer`'s side.
    pub fn unplay(&mut self, col: u8, botplayer: bool)
        requires
            old(self).wf(),
            col < 7,
            old(self).heights[col as int] > 0,
            bit(old(self).mask(botplayer), cell(col as int, old(self).heights[col as int] - 1)),
        ensures
            *final(self) == old(self).unplayed(col as int, botplayer),
            final(self).wf(),
    {
        let row: u8 = self.heights[col as usize];
        let b: u64 = u64::MAX ^ (1u64 << (STRIDE as u64 * col as u64 + row as u64 - 1));
        if botplayer {
            self.player2 = self.player2 & b;
        } else {
            self.player1 = self.player1 & b;
        }
        self.heights[col as usize] = row - 1;
        proof {
            assert(self.heights =~= old(self).unplayed(col as int, botplayer).heights);
            old(self).lemma_unplayed_wf(col as int, botplayer);
        }
    }

    /// Whether the side that is not `botplayer` has four in a row, which
    /// means `botplayer`'s side has lost.
    pub fn is_defeated(&self, botplayer: bool) -> (r: bool)
        ensures
            r == has_four(self.mask(!botplayer)),
            self.wf() ==> (r == four_in_a_row(self.mask(!botplayer))),
    {
        let current: u64 = if botplayer {
            self.player1
        } else {
            self.player2
        };
        let r = four_along(current, 1) || four_along(current, 6) || four_along(current, 7)
            || four_along(current, 8);
        proof {
            if self.wf() {
                self.lemma_masks_on_grid();
                lemma_has_four_is_line(current);
            }
        }
        r
    }

    /// Whether every cell is taken.
    pub fn is_draw(&self) -> (r: bool)
        ensures
            r == (self.player1 | self.player2 == FULLBOARD),
            self.wf() ==> (r == self.full()),
    {
        let r = (self.player1 | self.player2) == FULLBOARD;
        proof {
            if self.wf() {
                self.lemma_full_iff();
            }
        }
        r
    }
}

} // verus!

use vstd::multiset::Multiset;
use vstd::prelude::*;

use crate::model::stack_vec::StackVec;
use crate::model::token::GemType;

verus! {

broadcast use vstd::multiset::group_multiset_axioms;

/// The `k`-th cell (row, column) of the clockwise spiral that the board is refilled
/// along, starting at the centre (2, 2) and ending at the corner (4, 4).
pub open spec fn spec_spiral(k: int) -> (int, int) {
    if k == 0 { (2, 2) }
    else if k == 1 { (3, 2) }
    else if k == 2 { (3, 1) }
    else if k == 3 { (2, 1) }
    else if k == 4 { (1, 1) }
    else if k == 5 { (1, 2) }
    else if k == 6 { (1, 3) }
    else if k == 7 { (2, 3) }
    else if k == 8 { (3, 3) }
    else if k == 9 { (4, 3) }
    else if k == 10 { (4, 2) }
    else if k == 11 { (4, 1) }
    else if k == 12 { (4, 0) }
    else if k == 13 { (3, 0) }
    else if k == 14 { (2, 0) }
    else if k == 15 { (1, 0) }
    else if k == 16 { (0, 0) }
    else if k == 17 { (0, 1) }
    else if k == 18 { (0, 2) }
    else if k == 19 { (0, 3) }
    else if k == 20 { (0, 4) }
    else if k == 21 { (1, 4) }
    else if k == 22 { (2, 4) }
    else if k == 23 { (3, 4) }
    else { (4, 4) }
}

/// The 25 cells of the board in refill order.
pub fn spiral_order() -> (r: [(usize, usize); 25])
    ensures
        forall|k: int|
            0 <= k < 25 ==> r@[k].0 == spec_spiral(k).0 && r@[k].1 == spec_spiral(k).1,
{
    [
        (2, 2), (3, 2), (3, 1), (2, 1), (1, 1), (1, 2), (1, 3), (2, 3), (3, 3), (4, 3),
        (4, 2), (4, 1), (4, 0), (3, 0), (2, 0), (1, 0), (0, 0), (0, 1), (0, 2), (0, 3),
        (0, 4), (1, 4), (2, 4), (3, 4), (4, 4),
    ]
}

/// A line of 1 to 3 adjacent non-gold tokens that can be taken together.
/// Only the first `count` entries of `positions` and `gems` are meaningful; the others
/// hold (0, 0) and a repeat of a meaningful gem.
#[derive(Debug, Clone, Copy, PartialEq, Eq)]
pub struct LineCandidate {
    pub count: u8,
    pub positions: [(usize, usize); 3],
    pub gems: [GemType; 3],
}

/// The 5x5 board; `None` is an empty cell.
#[derive(Debug, Clone, Copy, PartialEq, Eq)]
pub struct Board {
    pub grid: [[Option<GemType>; 5]; 5],
}

pub open spec fn in_range(r: int, c: int) -> bool {
    0 <= r < 5 && 0 <= c < 5
}

/// Row step of direction `d`: right, down, down-right, down-left.
pub open spec fn dir_r(d: int) -> int {
    if d == 0 { 0 } else { 1 }
}

/// Column step of direction `d`: right, down, down-right, down-left.
pub open spec fn dir_c(d: int) -> int {
    if d == 0 { 1 } else if d == 1 { 0 } else if d == 2 { 1 } else { -1 }
}

/// The `j`-th position of the line of `count` cells that starts at (r, c) and runs in
/// direction `d`; positions past `count` are (0, 0).
pub open spec fn line_cell(count: int, d: int, r: int, c: int, j: int) -> (int, int) {
    if j >= count {
        (0, 0)
    } else if j == 0 {
        (r, c)
    } else if j == 1 {
        (r + dir_r(d), c + dir_c(d))
    } else {
        (r + 2 * dir_r(d), c + 2 * dir_c(d))
    }
}

/// The `j`-th position held by a triple of coordinates.
pub open spec fn pos_at(positions: [(usize, usize); 3], j: int) -> (int, int) {
    (positions@[j].0 as int, positions@[j].1 as int)
}

/// The coordinates `positions` with count `count` describe exactly the line of
/// `count` cells from (r, c) in direction `d`.
pub open spec fn is_line_at(
    count: int,
    positions: [(usize, usize); 3],
    d: int,
    r: int,
    c: int,
) -> bool {
    &&& pos_at(positions, 0) == line_cell(count, d, r, c, 0)
    &&& pos_at(positions, 1) == line_cell(count, d, r, c, 1)
    &&& pos_at(positions, 2) == line_cell(count, d, r, c, 2)
}

/// Multiset of the tokens held by the first `k` cells in row-major order.
pub open spec fn tokens_upto(cells: Seq<Seq<Option<GemType>>>, k: int) -> Multiset<GemType>
    decreases k,
{
    if k <= 0 {
        Multiset::empty()
    } else {
        tokens_upto(cells, k - 1).add(opt_token(cells[(k - 1) / 5][(k - 1) % 5]))
    }
}

/// The one-element multiset of a token, or the empty multiset for an empty cell.
pub open spec fn opt_token(o: Option<GemType>) -> Multiset<GemType> {
    match o {
        Some(g) => Multiset::singleton(g),
        None => Multiset::empty(),
    }
}

/// Result of refilling cells `k..25` of the spiral from `bag` (drawing from its end)
/// until the bag runs out: the new cells and what is left of the bag.
pub open spec fn spiral_fill(
    cells: Seq<Seq<Option<GemType>>>,
    bag: Seq<GemType>,
    k: int,
) -> (Seq<Seq<Option<GemType>>>, Seq<GemType>)
    decreases 25 - k,
{
    if k >= 25 || k < 0 {
        (cells, bag)
    } else {
        let (r, c) = spec_spiral(k);
        if cells[r][c] is None && bag.len() > 0 {
            spiral_fill(
                cells.update(r, cells[r].update(c, Some(bag.last()))),
                bag.drop_last(),
                k + 1,
            )
        } else {
            spiral_fill(cells, bag, k + 1)
        }
    }
}

/// `row` with entry `c` replaced by `v`.
pub open spec fn row_with(row: [Option<GemType>; 5], c: int, v: Option<GemType>) -> [Option<GemType>; 5] {
    [
        if c == 0 { v } else { row@[0] },
        if c == 1 { v } else { row@[1] },
        if c == 2 { v } else { row@[2] },
        if c == 3 { v } else { row@[3] },
        if c == 4 { v } else { row@[4] },
    ]
}

impl Board {
    /// This board with cell (r, c) replaced by `v`.
    pub open spec fn with_cell(self, r: int, c: int, v: Option<GemType>) -> Board {
        Board {
            grid: [
                if r == 0 { row_with(self.grid@[0], c, v) } else { self.grid@[0] },
                if r == 1 { row_with(self.grid@[1], c, v) } else { self.grid@[1] },
                if r == 2 { row_with(self.grid@[2], c, v) } else { self.grid@[2] },
                if r == 3 { row_with(self.grid@[3], c, v) } else { self.grid@[3] },
                if r == 4 { row_with(self.grid@[4], c, v) } else { self.grid@[4] },
            ],
        }
    }

    /// Writing a cell's own content back changes nothing.
    pub proof fn lemma_with_cell_same(self, r: int, c: int)
        requires
            in_range(r, c),
        ensures
            self.with_cell(r, c, self.cell(r, c)) == self,
    {
        assert(row_with(self.grid@[r], c, self.cell(r, c)) =~= self.grid@[r]);
        assert(self.with_cell(r, c, self.cell(r, c)).grid =~= self.grid);
    }

    /// The board as rows of cells.
    pub open spec fn cells(&self) -> Seq<Seq<Option<GemType>>> {
        self.grid@.map_values(|row: [Option<GemType>; 5]| row@)
    }

    pub open spec fn cell(&self, r: int, c: int) -> Option<GemType> {
        self.grid@[r]@[c]
    }

    /// The `k`-th cell in row-major order.
    pub open spec fn cell_k(&self, k: int) -> Option<GemType> {
        self.cell(k / 5, k % 5)
    }

    /// All tokens on the board.
    pub open spec fn tokens(&self) -> Multiset<GemType> {
        tokens_upto(self.cells(), 25)
    }

    /// Cell (r, c) holds a token other than gold.
    pub open spec fn takeable(&self, r: int, c: int) -> bool {
        &&& in_range(r, c)
        &&& self.cell(r, c) matches Some(g)
        &&& g != GemType::Gold
    }

    pub open spec fn spec_has_gold(&self) -> bool {
        exists|r: int, c: int| in_range(r, c) && self.cell(r, c) == Some(GemType::Gold)
    }

    pub open spec fn spec_has_empty_slot(&self) -> bool {
        exists|r: int, c: int| in_range(r, c) && self.cell(r, c) is None
    }

    /// The line of `count` cells from (r, c) in direction `d` lies on the board and
    /// holds only non-gold tokens (a single cell uses direction 0).
    pub open spec fn line_valid(&self, count: int, d: int, r: int, c: int) -> bool {
        &&& 1 <= count <= 3
        &&& 0 <= d < 4
        &&& count == 1 ==> d == 0
        &&& self.takeable(r, c)
        &&& count >= 2 ==> self.takeable(r + dir_r(d), c + dir_c(d))
        &&& count >= 3 ==> self.takeable(r + 2 * dir_r(d), c + 2 * dir_c(d))
    }

    /// `l` is the candidate for a valid line, with the gems that lie on it.
    pub open spec fn candidate_ok(&self, l: LineCandidate) -> bool {
        &&& exists|d: int, r: int, c: int|
            #![trigger self.line_valid(l.count as int, d, r, c)]
            self.line_valid(l.count as int, d, r, c) && is_line_at(
                l.count as int,
                l.positions,
                d,
                r,
                c,
            )
        &&& self.cell(pos_at(l.positions, 0).0, pos_at(l.positions, 0).1) == Some(l.gems@[0])
        &&& l.count >= 2 ==> self.cell(pos_at(l.positions, 1).0, pos_at(l.positions, 1).1)
            == Some(l.gems@[1])
        &&& l.count >= 3 ==> self.cell(pos_at(l.positions, 2).0, pos_at(l.positions, 2).1)
            == Some(l.gems@[2])
        &&& l.count == 1 ==> l.gems@[1] == l.gems@[0] && l.gems@[2] == l.gems@[0]
        &&& l.count == 2 ==> l.gems@[2] == l.gems@[0]
    }

    pub fn new() -> (r: Self)
        ensures
            forall|i: int, j: int| in_range(i, j) ==> r.cell(i, j) is None,
    {
        Board { grid: [[None; 5]; 5] }
    }

    pub fn get(&self, r: usize, c: usize) -> (res: Option<GemType>)
        ensures
            in_range(r as int, c as int) ==> res == self.cell(r as int, c as int),
            !in_range(r as int, c as int) ==> res is None,
    {
        if r < 5 && c < 5 {
            self.grid[r][c]
        } else {
            None
        }
    }

    fn set_cell(&mut self, r: usize, c: usize, gem: Option<GemType>)
        requires
            in_range(r as int, c as int),
        ensures
            *final(self) == old(self).with_cell(r as int, c as int, gem),
            final(self).cells() == old(self).cells().update(
                r as int,
                old(self).cells()[r as int].update(c as int, gem),
            ),
    {
        let mut row = self.grid[r];
        row[c] = gem;
        self.grid[r] = row;
        proof {
            assert(row =~= row_with(old(self).grid@[r as int], c as int, gem));
            assert(self.grid =~= old(self).with_cell(r as int, c as int, gem).grid);
            assert(self.cells() =~= old(self).cells().update(
                r as int,
                old(self).cells()[r as int].update(c as int, gem),
            ));
        }
    }

    /// Puts `gem` in cell (r, c); out-of-range coordinates leave the board unchanged.
    pub fn set(&mut self, r: usize, c: usize, gem: Option<GemType>)
        ensures
            in_range(r as int, c as int) ==> *final(self) == old(self).with_cell(r as int, c as int, gem),
            in_range(r as int, c as int) ==> final(self).cells() == old(self).cells().update(
                r as int,
                old(self).cells()[r as int].update(c as int, gem),
            ),
            !in_range(r as int, c as int) ==> *final(self) == *old(self),
    {
        if r < 5 && c < 5 {
            self.set_cell(r, c, gem);
        }
    }

    /// Removes and returns the token in cell (r, c), if any.
    pub fn take(&mut self, r: usize, c: usize) -> (res: Option<GemType>)
        ensures
            in_range(r as int, c as int) ==> *final(self) == old(self).with_cell(r as int, c as int, None),
            in_range(r as int, c as int) ==> res == old(self).cell(r as int, c as int)
                && final(self).cells() == old(self).cells().update(
                r as int,
                old(self).cells()[r as int].update(c as int, None),
            ),
            !in_range(r as int, c as int) ==> res is None && *final(self) == *old(self),
    {
        if r < 5 && c < 5 {
            let g = self.grid[r][c];
            self.set_cell(r, c, None);
            g
        } else {
            None
        }
    }

    /// Number of tokens on the board.
    pub fn count_tokens(&self) -> (res: usize)
        ensures
            res == self.tokens().len(),
    {
        let mut cnt: usize = 0;
        let mut k: usize = 0;
        while k < 25
            invariant
                0 <= k <= 25,
                cnt == tokens_upto(self.cells(), k as int).len(),
                cnt <= k,
            decreases 25 - k,
        {
            let r = k / 5;
            let c = k % 5;
            if self.grid[r][c].is_some() {
                cnt = cnt + 1;
            }
            k = k + 1;
        }
        cnt
    }

    /// Whether some cell holds gold.
    pub fn has_gold(&self) -> (res: bool)
        ensures
            res == self.spec_has_gold(),
    {
        let mut k: usize = 0;
        while k < 25
            invariant
                0 <= k <= 25,
                forall|j: int| 0 <= j < k ==> #[trigger] self.cell_k(j) != Some(GemType::Gold),
            decreases 25 - k,
        {
            let r = k / 5;
            let c = k % 5;
            if matches!(self.grid[r][c], Some(GemType::Gold)) {
                assert(in_range(r as int, c as int));
                return true;
            }
            k = k + 1;
        }
        proof {
            assert forall|r: int, c: int| in_range(r, c) implies self.cell(r, c) != Some(
                GemType::Gold,
            ) by {
                let j = r * 5 + c;
                assert(j / 5 == r && j % 5 == c);
                assert(self.cell_k(j) == self.cell(r, c));
            }
        }
        false
    }

    /// Whether some cell is empty.
    pub fn has_empty_slot(&self) -> (res: bool)
        ensures
            res == self.spec_has_empty_slot(),
    {
        let mut k: usize = 0;
        while k < 25
            invariant
                0 <= k <= 25,
                forall|j: int| 0 <= j < k ==> #[trigger] self.cell_k(j) is Some,
            decreases 25 - k,
        {
            let r = k / 5;
            let c = k % 5;
            if self.grid[r][c].is_none() {
                assert(in_range(r as int, c as int));
                return true;
            }
            k = k + 1;
        }
        proof {
            assert forall|r: int, c: int| in_range(r, c) implies self.cell(r, c) is Some by {
                let j = r * 5 + c;
                assert(j / 5 == r && j % 5 == c);
                assert(self.cell_k(j) == self.cell(r, c));
            }
        }
        false
    }
}


/// Every row of the board has five cells.
pub open spec fn well_shaped(cells: Seq<Seq<Option<GemType>>>) -> bool {
    cells.len() == 5 && forall|r: int| 0 <= r < 5 ==> #[trigger] cells[r].len() == 5
}

/// Changing one cell changes the board's tokens by what left and what came in.
pub proof fn lemma_tokens_update(
    cells: Seq<Seq<Option<GemType>>>,
    r: int,
    c: int,
    v: Option<GemType>,
    k: int,
)
    requires
        well_shaped(cells),
        in_range(r, c),
        0 <= k <= 25,
    ensures
        k > r * 5 + c ==> tokens_upto(cells.update(r, cells[r].update(c, v)), k).add(
            opt_token(cells[r][c]),
        ) == tokens_upto(cells, k).add(opt_token(v)),
        k <= r * 5 + c ==> tokens_upto(cells.update(r, cells[r].update(c, v)), k) == tokens_upto(
            cells,
            k,
        ),
    decreases k,
{
    let new_cells = cells.update(r, cells[r].update(c, v));
    if k > 0 {
        lemma_tokens_update(cells, r, c, v, k - 1);
        let j = k - 1;
        if j == r * 5 + c {
            assert(j / 5 == r && j % 5 == c);
            assert(new_cells[j / 5][j % 5] == v);
            assert(tokens_upto(new_cells, k - 1) == tokens_upto(cells, k - 1));
            assert(tokens_upto(new_cells, k).add(opt_token(cells[r][c])) =~= tokens_upto(
                cells,
                k,
            ).add(opt_token(v)));
        } else {
            assert(0 <= j / 5 < 5 && 0 <= j % 5 < 5);
            assert(j / 5 != r || j % 5 != c) by {
                if j / 5 == r && j % 5 == c {
                    assert(j == r * 5 + c);
                }
            }
            assert(new_cells[j / 5][j % 5] == cells[j / 5][j % 5]);
            let x = opt_token(cells[j / 5][j % 5]);
            assert(tokens_upto(new_cells, k) == tokens_upto(new_cells, k - 1).add(x));
            assert(tokens_upto(cells, k) == tokens_upto(cells, k - 1).add(x));
            if k > r * 5 + c {
                assert(k - 1 > r * 5 + c);
                let a = tokens_upto(new_cells, k - 1);
                let b = tokens_upto(cells, k - 1);
                assert(a.add(opt_token(cells[r][c])) == b.add(opt_token(v)));
                assert(a.add(x).add(opt_token(cells[r][c])) =~= a.add(opt_token(cells[r][c])).add(x));
                assert(b.add(x).add(opt_token(v)) =~= b.add(opt_token(v)).add(x));
            }
        }
    }
}

/// Refilling along the spiral only moves tokens from the bag onto the board.
pub proof fn lemma_spiral_fill_conserves(cells: Seq<Seq<Option<GemType>>>, bag: Seq<GemType>, k: int)
    requires
        well_shaped(cells),
        0 <= k <= 25,
    ensures
        well_shaped(spiral_fill(cells, bag, k).0),
        tokens_upto(spiral_fill(cells, bag, k).0, 25).add(spiral_fill(cells, bag, k).1.to_multiset())
            == tokens_upto(cells, 25).add(bag.to_multiset()),
        spiral_fill(cells, bag, k).1.len() <= bag.len(),
    decreases 25 - k,
{
    broadcast use vstd::seq_lib::group_to_multiset_ensures;

    if k < 25 {
        let (r, c) = spec_spiral(k);
        if cells[r][c] is None && bag.len() > 0 {
            let nc = cells.update(r, cells[r].update(c, Some(bag.last())));
            assert(well_shaped(nc));
            lemma_spiral_fill_conserves(nc, bag.drop_last(), k + 1);
            lemma_tokens_update(cells, r, c, Some(bag.last()), 25);
            assert(bag =~= bag.drop_last().push(bag.last()));
            assert(bag.to_multiset() == bag.drop_last().to_multiset().insert(bag.last()));
            assert(opt_token(cells[r][c]) =~= Multiset::empty());
            assert(opt_token(Some(bag.last())) =~= Multiset::singleton(bag.last()));
            let t = tokens_upto(nc, 25);
            let u = tokens_upto(cells, 25);
            assert(t =~= t.add(opt_token(cells[r][c])));
            assert(t == u.insert(bag.last()));
            assert(t.add(bag.drop_last().to_multiset()) =~= u.add(bag.to_multiset()));
        } else {
            lemma_spiral_fill_conserves(cells, bag, k + 1);
        }
    }
}

/// With an empty bag the refill changes nothing.
pub proof fn lemma_spiral_fill_empty_bag(cells: Seq<Seq<Option<GemType>>>, bag: Seq<GemType>, k: int)
    requires
        bag.len() == 0,
    ensures
        spiral_fill(cells, bag, k) == (cells, bag),
    decreases 25 - k,
{
    if 0 <= k < 25 {
        lemma_spiral_fill_empty_bag(cells, bag, k + 1);
    }
}

/// The position of a cell on the spiral.
pub open spec fn spiral_index(r: int, c: int) -> int {
    if r == 2 && c == 2 { 0 }
    else if r == 3 && c == 2 { 1 }
    else if r == 3 && c == 1 { 2 }
    else if r == 2 && c == 1 { 3 }
    else if r == 1 && c == 1 { 4 }
    else if r == 1 && c == 2 { 5 }
    else if r == 1 && c == 3 { 6 }
    else if r == 2 && c == 3 { 7 }
    else if r == 3 && c == 3 { 8 }
    else if r == 4 && c == 3 { 9 }
    else if r == 4 && c == 2 { 10 }
    else if r == 4 && c == 1 { 11 }
    else if r == 4 && c == 0 { 12 }
    else if r == 3 && c == 0 { 13 }
    else if r == 2 && c == 0 { 14 }
    else if r == 1 && c == 0 { 15 }
    else if r == 0 && c == 0 { 16 }
    else if r == 0 && c == 1 { 17 }
    else if r == 0 && c == 2 { 18 }
    else if r == 0 && c == 3 { 19 }
    else if r == 0 && c == 4 { 20 }
    else if r == 1 && c == 4 { 21 }
    else if r == 2 && c == 4 { 22 }
    else if r == 3 && c == 4 { 23 }
    else { 24 }
}

/// The spiral passes once through every cell of the board.
pub proof fn lemma_spiral_bijective()
    ensures
        forall|k: int| 0 <= k < 25 ==> in_range(#[trigger] spec_spiral(k).0, spec_spiral(k).1)
            && spiral_index(spec_spiral(k).0, spec_spiral(k).1) == k,
        forall|r: int, c: int| in_range(r, c) ==> 0 <= #[trigger] spiral_index(r, c) < 25 && spec_spiral(spiral_index(r, c)) == (r, c),
{
}

/// Filling from spiral position `k` on, where every cell still to be met is empty and
/// the bag holds a token for each of them, fills all of them, leaves the cells met
/// before as they were, and takes one token per cell.
proof fn lemma_spiral_fill_empty_cells(cells: Seq<Seq<Option<GemType>>>, bag: Seq<GemType>, k: int)
    requires
        well_shaped(cells),
        0 <= k <= 25,
        forall|j: int| k <= j < 25 ==> (#[trigger] cells[spec_spiral(j).0][spec_spiral(j).1]) is None,
        bag.len() >= 25 - k,
    ensures
        spiral_fill(cells, bag, k).1.len() == bag.len() - (25 - k),
        forall|j: int| k <= j < 25 ==> (#[trigger] spiral_fill(cells, bag, k).0[spec_spiral(j).0][spec_spiral(j).1]) is Some,
        forall|j: int| 0 <= j < k ==> #[trigger] spiral_fill(cells, bag, k).0[spec_spiral(j).0][spec_spiral(j).1]
            == cells[spec_spiral(j).0][spec_spiral(j).1],
        well_shaped(spiral_fill(cells, bag, k).0),
    decreases 25 - k,
{
    lemma_spiral_bijective();
    if k < 25 {
        let (r, c) = spec_spiral(k);
        let next = cells.update(r, cells[r].update(c, Some(bag.last())));
        assert forall|j: int| k + 1 <= j < 25 implies (#[trigger] next[spec_spiral(j).0][spec_spiral(j).1]) is None by {
            assert(spiral_index(spec_spiral(j).0, spec_spiral(j).1) == j);
            assert(spec_spiral(j) != spec_spiral(k));
            assert(cells[spec_spiral(j).0][spec_spiral(j).1] is None);
        }
        lemma_spiral_fill_empty_cells(next, bag.drop_last(), k + 1);
        let res = spiral_fill(next, bag.drop_last(), k + 1).0;
        assert(res[r][c] == next[r][c]);
        assert forall|j: int| 0 <= j < k implies #[trigger] res[spec_spiral(j).0][spec_spiral(j).1]
            == cells[spec_spiral(j).0][spec_spiral(j).1] by {
            assert(spec_spiral(j) != spec_spiral(k));
        }
    }
}

/// Filling an empty board from a bag of 25 tokens covers every cell and empties the bag.
pub proof fn lemma_spiral_fill_full(cells: Seq<Seq<Option<GemType>>>, bag: Seq<GemType>)
    requires
        well_shaped(cells),
        forall|r: int, c: int| in_range(r, c) ==> (#[trigger] cells[r][c]) is None,
        bag.len() == 25,
    ensures
        spiral_fill(cells, bag, 0).1.len() == 0,
        forall|r: int, c: int| in_range(r, c) ==> (#[trigger] spiral_fill(cells, bag, 0).0[r][c]) is Some,
{
    lemma_spiral_bijective();
    assert forall|j: int| 0 <= j < 25 implies (#[trigger] cells[spec_spiral(j).0][spec_spiral(j).1]) is None by {
        assert(in_range(spec_spiral(j).0, spec_spiral(j).1));
    }
    lemma_spiral_fill_empty_cells(cells, bag, 0);
    assert forall|r: int, c: int| in_range(r, c) implies (#[trigger] spiral_fill(cells, bag, 0).0[r][c]) is Some by {
        let j = spiral_index(r, c);
        assert(spec_spiral(j) == (r, c));
        assert(spiral_fill(cells, bag, 0).0[spec_spiral(j).0][spec_spiral(j).1] is Some);
    }
}

impl Board {
    /// The board is made of five rows of five cells.
    pub proof fn lemma_well_shaped(&self)
        ensures
            well_shaped(self.cells()),
    {
    }

    /// The cells of the board with one cell replaced.
    pub proof fn lemma_with_cell_cells(self, r: int, c: int, v: Option<GemType>)
        requires
            in_range(r, c),
        ensures
            self.with_cell(r, c, v).cells() == self.cells().update(r, self.cells()[r].update(c, v)),
    {
        let t = self.with_cell(r, c, v);
        assert forall|i: int| 0 <= i < 5 implies #[trigger] t.cells()[i] == self.cells().update(
            r,
            self.cells()[r].update(c, v),
        )[i] by {
            if i == r {
                assert(t.cells()[i] =~= self.cells()[r].update(c, v));
            } else {
                assert(t.cells()[i] =~= self.cells()[i]);
            }
        }
        assert(t.cells() =~= self.cells().update(r, self.cells()[r].update(c, v)));
    }

    /// Emptying a cell that holds `g` takes exactly one `g` off the board.
    pub proof fn lemma_take_cell_tokens(self, r: int, c: int, g: GemType)
        requires
            in_range(r, c),
            self.cell(r, c) == Some(g),
        ensures
            self.with_cell(r, c, None).tokens().insert(g) == self.tokens(),
    {
        self.lemma_with_cell_cells(r, c, None);
        self.lemma_well_shaped();
        lemma_tokens_update(self.cells(), r, c, None, 25);
        assert(opt_token(Some(g)) =~= Multiset::singleton(g));
        assert(opt_token(None) =~= Multiset::<GemType>::empty());
        let a = self.with_cell(r, c, None).tokens();
        assert(a.add(Multiset::singleton(g)) =~= a.insert(g));
        assert(self.tokens().add(Multiset::empty()) =~= self.tokens());
    }

    /// Walks the spiral from the centre and puts the bag's last token in every empty
    /// cell met, until the bag is empty.
    pub fn fill_spiral<const CAP: usize>(&mut self, bag: &mut StackVec<GemType, CAP>)
        ensures
            (final(self).cells(), final(bag)@) == spiral_fill(old(self).cells(), old(bag)@, 0),
            final(self).tokens().add(final(bag)@.to_multiset()) == old(self).tokens().add(
                old(bag)@.to_multiset(),
            ),
            final(bag)@.len() <= old(bag)@.len(),
    {
        let order = spiral_order();
        let mut k: usize = 0;
        proof {
            self.lemma_well_shaped();
            lemma_spiral_fill_conserves(self.cells(), bag@, 0);
        }
        while k < 25
            invariant
                0 <= k <= 25,
                forall|j: int|
                    0 <= j < 25 ==> order@[j].0 == spec_spiral(j).0 && order@[j].1 == spec_spiral(
                        j,
                    ).1,
                spiral_fill(self.cells(), bag@, k as int) == spiral_fill(
                    old(self).cells(),
                    old(bag)@,
                    0,
                ),
            decreases 25 - k,
        {
            let (r, c) = order[k];
            proof {
                self.lemma_well_shaped();
            }
            if self.grid[r][c].is_none() {
                let ghost before = bag@;
                match bag.pop() {
                    Some(t) => {
                        self.set_cell(r, c, Some(t));
                    },
                    None => {
                        proof {
                            lemma_spiral_fill_empty_bag(self.cells(), bag@, k as int);
                            lemma_spiral_fill_empty_bag(self.cells(), bag@, k as int + 1);
                        }
                    },
                }
            }
            k = k + 1;
        }
    }
}

/// Some entry of `lines` is the line of `count` cells from (r, c) in direction `d`.
/// The direction index of a step (dr, dc) of a line: right, down, down-right, down-left.
pub open spec fn dir_index(dr: int, dc: int) -> int {
    if dr == 0 {
        0
    } else if dc == 0 {
        1
    } else if dc == 1 {
        2
    } else {
        3
    }
}

/// The place of a line in the search order, read from its length and positions: single
/// cells first by cell, then each (direction, start cell) with its line of two before its
/// line of three.
pub open spec fn line_key(count: u8, positions: [(usize, usize); 3]) -> int {
    let (r, c) = pos_at(positions, 0);
    let (r1, c1) = pos_at(positions, 1);
    if count == 1 {
        r * 5 + c
    } else {
        25 + 2 * (dir_index(r1 - r, c1 - c) * 25 + r * 5 + c) + (count - 2)
    }
}

/// The lines are listed in strictly increasing search order, so no line is listed twice.
pub open spec fn lines_ordered(lines: Seq<LineCandidate>) -> bool {
    forall|i: int, j: int|
        0 <= i < j < lines.len() ==> line_key(lines[i].count, lines[i].positions) < line_key(
            lines[j].count,
            lines[j].positions,
        )
}

pub open spec fn covered(lines: Seq<LineCandidate>, count: int, d: int, r: int, c: int) -> bool {
    exists|i: int|
        0 <= i < lines.len() && #[trigger] lines[i].count == count && is_line_at(
            count,
            lines[i].positions,
            d,
            r,
            c,
        )
}

proof fn lemma_covered_push(
    lines: Seq<LineCandidate>,
    x: LineCandidate,
    count: int,
    d: int,
    r: int,
    c: int,
)
    requires
        covered(lines, count, d, r, c),
    ensures
        covered(lines.push(x), count, d, r, c),
{
    let i = choose|i: int|
        0 <= i < lines.len() && #[trigger] lines[i].count == count && is_line_at(
            count,
            lines[i].positions,
            d,
            r,
            c,
        );
    assert(lines.push(x)[i] == lines[i]);
}

proof fn lemma_covered_new(lines: Seq<LineCandidate>, x: LineCandidate, d: int, r: int, c: int)
    requires
        is_line_at(x.count as int, x.positions, d, r, c),
    ensures
        covered(lines.push(x), x.count as int, d, r, c),
{
    assert(lines.push(x)[lines.len() as int] == x);
}

/// Direction `d` (right, down, down-right, down-left) as a (row, column) step.
fn direction(d: usize) -> (res: (isize, isize))
    requires
        d < 4,
    ensures
        res.0 == dir_r(d as int),
        res.1 == dir_c(d as int),
{
    if d == 0 {
        (0, 1)
    } else if d == 1 {
        (1, 0)
    } else if d == 2 {
        (1, 1)
    } else {
        (1, -1)
    }
}

impl Board {
    /// The line of `count` cells from (r, c) in direction `d`, if it lies on the board
    /// and holds only non-gold tokens.
    fn line_candidate(&self, count: u8, d: usize, r: usize, c: usize) -> (res: Option<
        LineCandidate,
    >)
        requires
            1 <= count <= 3,
            d < 4,
            r < 5,
            c < 5,
            count == 1 ==> d == 0,
        ensures
            res is Some <==> self.line_valid(count as int, d as int, r as int, c as int),
            res matches Some(l) ==> l.count == count && is_line_at(
                count as int,
                l.positions,
                d as int,
                r as int,
                c as int,
            ) && self.candidate_ok(l),
    {
        let (dr, dc) = direction(d);
        let g0 = match self.grid[r][c] {
            Some(g) => g,
            None => return None,
        };
        if g0.is_gold() {
            return None;
        }
        if count == 1 {
            let l = LineCandidate { count: 1, positions: [(r, c), (0, 0), (0, 0)], gems: [g0, g0, g0] };
            proof {
                assert(l.positions@ =~= seq![(r, c), (0usize, 0usize), (0usize, 0usize)]);
                assert(l.gems@ =~= seq![g0, g0, g0]);
                assert(self.line_valid(1, 0, r as int, c as int));
                assert(self.line_valid(l.count as int, 0, r as int, c as int));
                assert(is_line_at(l.count as int, l.positions, 0, r as int, c as int));
                assert(self.candidate_ok(l));
            }
            return Some(l);
        }
        let r1 = r as isize + dr;
        let c1 = c as isize + dc;
        if !(0 <= r1 && r1 < 5 && 0 <= c1 && c1 < 5) {
            return None;
        }
        let r1u = r1 as usize;
        let c1u = c1 as usize;
        let g1 = match self.grid[r1u][c1u] {
            Some(g) => g,
            None => return None,
        };
        if g1.is_gold() {
            return None;
        }
        if count == 2 {
            let l = LineCandidate { count: 2, positions: [(r, c), (r1u, c1u), (0, 0)], gems: [g0, g1, g0] };
            proof {
                assert(l.positions@ =~= seq![(r, c), (r1u, c1u), (0usize, 0usize)]);
                assert(l.gems@ =~= seq![g0, g1, g0]);
                assert(self.line_valid(2, d as int, r as int, c as int));
                assert(self.line_valid(l.count as int, d as int, r as int, c as int));
                assert(is_line_at(l.count as int, l.positions, d as int, r as int, c as int));
                assert(self.candidate_ok(l));
            }
            return Some(l);
        }
        let r2 = r1 + dr;
        let c2 = c1 + dc;
        if !(0 <= r2 && r2 < 5 && 0 <= c2 && c2 < 5) {
            return None;
        }
        let r2u = r2 as usize;
        let c2u = c2 as usize;
        let g2 = match self.grid[r2u][c2u] {
            Some(g) => g,
            None => return None,
        };
        if g2.is_gold() {
            return None;
        }
        let l = LineCandidate {
            count: 3,
            positions: [(r, c), (r1u, c1u), (r2u, c2u)],
            gems: [g0, g1, g2],
        };
        proof {
            assert(l.positions@ =~= seq![(r, c), (r1u, c1u), (r2u, c2u)]);
            assert(l.gems@ =~= seq![g0, g1, g2]);
            assert(self.line_valid(3, d as int, r as int, c as int));
            assert(self.line_valid(l.count as int, d as int, r as int, c as int));
            assert(is_line_at(l.count as int, l.positions, d as int, r as int, c as int));
            assert(self.candidate_ok(l));
        }
        Some(l)
    }

    /// All lines of 1 to 3 adjacent non-gold tokens: first every single token, then for
    /// each direction (right, down, down-right, down-left) and each start cell the line
    /// of two and, where it extends, of three.
    pub fn find_all_lines(&self) -> (lines: Vec<LineCandidate>)
        ensures
            forall|i: int| 0 <= i < lines@.len() ==> self.candidate_ok(#[trigger] lines@[i]),
            forall|count: int, d: int, r: int, c: int|
                #[trigger] self.line_valid(count, d, r, c) ==> covered(lines@, count, d, r, c),
            lines_ordered(lines@),
    {
        let mut lines: Vec<LineCandidate> = Vec::new();
        let mut k: usize = 0;
        while k < 25
            invariant
                0 <= k <= 25,
                lines_ordered(lines@),
                forall|i: int| 0 <= i < lines@.len() ==> line_key(lines@[i].count, lines@[i].positions) < k,
                forall|i: int| 0 <= i < lines@.len() ==> self.candidate_ok(#[trigger] lines@[i]),
                forall|r: int, c: int|
                    0 <= r * 5 + c < k && #[trigger] self.line_valid(1, 0, r, c) ==> covered(
                        lines@,
                        1,
                        0,
                        r,
                        c,
                    ),
            decreases 25 - k,
        {
            let r = k / 5;
            let c = k % 5;
            let ghost prev = lines@;
            if let Some(l) = self.line_candidate(1, 0, r, c) {
                proof {
                    assert(line_key(l.count, l.positions) == k);
                }
                lines.push(l);
                proof {
                    lemma_covered_new(prev, l, 0, r as int, c as int);
                }
            }
            proof {
                assert forall|r2: int, c2: int|
                    0 <= r2 * 5 + c2 < k + 1 && #[trigger] self.line_valid(1, 0, r2, c2) implies covered(
                    lines@,
                    1,
                    0,
                    r2,
                    c2,
                ) by {
                    if r2 * 5 + c2 < k {
                        if lines@.len() > prev.len() {
                            lemma_covered_push(prev, lines@.last(), 1, 0, r2, c2);
                            assert(prev.push(lines@.last()) =~= lines@);
                        }
                    } else {
                        assert(r2 == r && c2 == c);
                    }
                }
            }
            k = k + 1;
        }
        let mut t: usize = 0;
        while t < 100
            invariant
                0 <= t <= 100,
                lines_ordered(lines@),
                forall|i: int| 0 <= i < lines@.len() ==> line_key(lines@[i].count, lines@[i].positions) < 25 + 2 * t,
                forall|i: int| 0 <= i < lines@.len() ==> self.candidate_ok(#[trigger] lines@[i]),
                forall|r: int, c: int|
                    #[trigger] self.line_valid(1, 0, r, c) ==> covered(lines@, 1, 0, r, c),
                forall|count: int, d: int, r: int, c: int|
                    2 <= count <= 3 && 0 <= d * 25 + r * 5 + c < t && #[trigger] self.line_valid(
                        count,
                        d,
                        r,
                        c,
                    ) ==> covered(lines@, count, d, r, c),
            decreases 100 - t,
        {
            let d = t / 25;
            let r = (t % 25) / 5;
            let c = t % 5;
            let ghost prev = lines@;
            if let Some(l2) = self.line_candidate(2, d, r, c) {
                proof {
                    assert(t == d * 25 + r * 5 + c);
                    assert(line_key(l2.count, l2.positions) == 25 + 2 * t);
                }
                lines.push(l2);
                if let Some(l3) = self.line_candidate(3, d, r, c) {
                    proof {
                        assert(line_key(l3.count, l3.positions) == 26 + 2 * t);
                    }
                    lines.push(l3);
                }
            }
            proof {
                self.lemma_extend_lines(prev, lines@, t as int);
            }
            t = t + 1;
        }
        proof {
            assert forall|count: int, d: int, r: int, c: int|
                #[trigger] self.line_valid(count, d, r, c) implies covered(lines@, count, d, r, c) by {
                if count >= 2 {
                    assert(0 <= d * 25 + r * 5 + c < 100);
                }
            }
        }
        lines
    }

    /// One step of the line search keeps every earlier line and adds the lines of two and
    /// three cells that start at the `t`-th (direction, cell) pair.
    proof fn lemma_extend_lines(&self, prev: Seq<LineCandidate>, lines: Seq<LineCandidate>, t: int)
        requires
            0 <= t < 100,
            prev.len() <= lines.len(),
            forall|i: int| 0 <= i < prev.len() ==> lines[i] == prev[i],
            forall|r: int, c: int|
                #[trigger] self.line_valid(1, 0, r, c) ==> covered(prev, 1, 0, r, c),
            forall|count: int, d: int, r: int, c: int|
                2 <= count <= 3 && 0 <= d * 25 + r * 5 + c < t && #[trigger] self.line_valid(
                    count,
                    d,
                    r,
                    c,
                ) ==> covered(prev, count, d, r, c),
            self.line_valid(2, t / 25, (t % 25) / 5, t % 5) ==> lines.len() > prev.len()
                && lines[prev.len() as int].count == 2 && is_line_at(
                2,
                lines[prev.len() as int].positions,
                t / 25,
                (t % 25) / 5,
                t % 5,
            ),
            self.line_valid(3, t / 25, (t % 25) / 5, t % 5) ==> lines.len() > prev.len() + 1
                && lines[prev.len() as int + 1].count == 3 && is_line_at(
                3,
                lines[prev.len() as int + 1].positions,
                t / 25,
                (t % 25) / 5,
                t % 5,
            ),
        ensures
            forall|r: int, c: int|
                #[trigger] self.line_valid(1, 0, r, c) ==> covered(lines, 1, 0, r, c),
            forall|count: int, d: int, r: int, c: int|
                2 <= count <= 3 && 0 <= d * 25 + r * 5 + c < t + 1 && #[trigger] self.line_valid(
                    count,
                    d,
                    r,
                    c,
                ) ==> covered(lines, count, d, r, c),
    {
        assert forall|r2: int, c2: int|
            #[trigger] self.line_valid(1, 0, r2, c2) implies covered(lines, 1, 0, r2, c2) by {
            let i = choose|i: int|
                0 <= i < prev.len() && #[trigger] prev[i].count == 1 && is_line_at(
                    1,
                    prev[i].positions,
                    0,
                    r2,
                    c2,
                );
            assert(lines[i] == prev[i]);
        }
        assert forall|count: int, d2: int, r2: int, c2: int|
            2 <= count <= 3 && 0 <= d2 * 25 + r2 * 5 + c2 < t + 1 && #[trigger] self.line_valid(
                count,
                d2,
                r2,
                c2,
            ) implies covered(lines, count, d2, r2, c2) by {
            if d2 * 25 + r2 * 5 + c2 < t {
                let i = choose|i: int|
                    0 <= i < prev.len() && #[trigger] prev[i].count == count && is_line_at(
                        count,
                        prev[i].positions,
                        d2,
                        r2,
                        c2,
                    );
                assert(lines[i] == prev[i]);
            } else {
                assert(d2 == t / 25 && r2 == (t % 25) / 5 && c2 == t % 5);
                if count == 2 {
                    assert(lines[prev.len() as int].count == 2);
                } else {
                    assert(lines[prev.len() as int + 1].count == 3);
                }
            }
        }
    }
}


impl Board {
    /// Some cell holds `gem`.
    pub open spec fn spec_contains(&self, gem: GemType) -> bool {
        exists|r: int, c: int| in_range(r, c) && self.cell(r, c) == Some(gem)
    }

    /// Whether some cell holds `gem`.
    pub fn contains_gem(&self, gem: GemType) -> (res: bool)
        ensures
            res == self.spec_contains(gem),
    {
        let mut k: usize = 0;
        while k < 25
            invariant
                0 <= k <= 25,
                forall|j: int| 0 <= j < k ==> #[trigger] self.cell_k(j) != Some(gem),
            decreases 25 - k,
        {
            let r = k / 5;
            let c = k % 5;
            if let Some(g) = self.grid[r][c] {
                if g == gem {
                    assert(in_range(r as int, c as int));
                    return true;
                }
            }
            k = k + 1;
        }
        proof {
            assert forall|r: int, c: int| in_range(r, c) implies self.cell(r, c) != Some(gem) by {
                let j = r * 5 + c;
                assert(j / 5 == r && j % 5 == c);
                assert(self.cell_k(j) == self.cell(r, c));
            }
        }
        false
    }
}
} // verus!

use vstd::prelude::*;
use vstd::arithmetic::div_mod::{
    lemma_fundamental_div_mod, lemma_div_is_ordered, lemma_mod_bound,
    lemma_mod_add_multiples_vanish, lemma_small_mod,
};
use vstd::arithmetic::mul::lemma_mul_inequality;

use crate::bits::{
    bit_of, zero_bytes, lemma_zero_byte_clear, lemma_mask_reads_bit, lemma_set_bit,
    lemma_clear_bit,
};
use crate::cell::Cell;
use crate::rng::draw;

verus! {

/// A fixed-size toroidal grid of cells, bit-packed eight cells to a byte in
/// row-major order, low bit first. The dimensions are fixed at construction
/// and never change.
pub struct Universe {
    width: u32,
    height: u32,
    cells: Vec<u8>,
}

/// Toroidal wrap of a coordinate: one step past the last row or column wraps
/// to zero, one step before zero wraps to the last. Euclidean remainder, so
/// it is well defined for the one-step-negative coordinates neighbor lookup
/// produces.
pub open spec fn wrap_spec(v: int, size: int) -> int {
    v % size
}

/// One for a live cell, zero for a dead one.
pub open spec fn b2i(b: bool) -> int {
    if b {
        1
    } else {
        0
    }
}

/// The generational rule applied to one cell: a live cell survives with two
/// or three live neighbors and otherwise dies; a dead cell comes alive with
/// exactly three live neighbors and otherwise stays dead.
pub open spec fn life_rule(alive: bool, neighbors: int) -> bool {
    if alive {
        neighbors == 2 || neighbors == 3
    } else {
        neighbors == 3
    }
}

/// The seed pattern of the fixed demo grid: alive exactly where the linear
/// index is even or divisible by seven.
pub open spec fn seed_alive(i: int) -> bool {
    i % 2 == 0 || i % 7 == 0
}

impl Universe {
    /// The fixed number of columns.
    pub closed spec fn spec_width(self) -> u32 {
        self.width
    }

    /// The fixed number of rows.
    pub closed spec fn spec_height(self) -> u32 {
        self.height
    }

    /// The raw backing bytes.
    pub closed spec fn storage(self) -> Seq<u8> {
        self.cells@
    }

    /// The linear index of a coordinate in the row-major cell order.
    pub closed spec fn cell_index(self, row: int, col: int) -> int {
        row * (self.width as int) + col
    }

    /// Whether a coordinate addresses a cell of the grid.
    pub open spec fn in_bounds(self, row: int, col: int) -> bool {
        0 <= row < self.spec_height() && 0 <= col < self.spec_width()
    }

    /// The storage invariant: the cell count fits the index arithmetic and
    /// the byte buffer holds exactly the cells of a `width * height` grid.
    pub closed spec fn wf(self) -> bool {
        &&& (self.width as int) * (self.height as int) <= u32::MAX as int
        &&& self.cells@.len() == (self.width as int) * (self.height as int) / 8 + 1
    }

    /// The state of one cell, read from its bit of the packed storage.
    pub closed spec fn alive(self, row: int, col: int) -> bool {
        bit_of(
            self.cells@[self.cell_index(row, col) / 8],
            (self.cell_index(row, col) % 8) as u8,
        )
    }

    /// How many of the eight toroidally adjacent cells are alive; the cell
    /// itself is never counted, though at small sizes it can be its own
    /// neighbor through wrap and is then counted as such.
    pub closed spec fn neighbor_count(self, row: int, col: int) -> int {
        let h = self.height as int;
        let w = self.width as int;
        b2i(self.alive(wrap_spec(row - 1, h), wrap_spec(col - 1, w))) + b2i(
            self.alive(wrap_spec(row - 1, h), wrap_spec(col, w)),
        ) + b2i(self.alive(wrap_spec(row - 1, h), wrap_spec(col + 1, w))) + b2i(
            self.alive(wrap_spec(row, h), wrap_spec(col - 1, w)),
        ) + b2i(self.alive(wrap_spec(row, h), wrap_spec(col + 1, w))) + b2i(
            self.alive(wrap_spec(row + 1, h), wrap_spec(col - 1, w)),
        ) + b2i(self.alive(wrap_spec(row + 1, h), wrap_spec(col, w))) + b2i(
            self.alive(wrap_spec(row + 1, h), wrap_spec(col + 1, w)),
        )
    }

    /// The state this cell takes in the next generation.
    pub open spec fn next_alive(self, row: int, col: int) -> bool {
        life_rule(self.alive(row, col), self.neighbor_count(row, col))
    }

    /// An in-bounds coordinate's linear index lies in the grid, its byte
    /// position lies in the buffer, and its bit position lies in a byte.
    proof fn lemma_index_in_range(self, row: int, col: int)
        requires
            self.wf(),
            self.in_bounds(row, col),
        ensures
            0 <= self.cell_index(row, col) < (self.width as int) * (self.height as int),
            0 <= self.cell_index(row, col) / 8 < self.cells@.len(),
            0 <= self.cell_index(row, col) % 8 < 8,
    {
        let w = self.width as int;
        let h = self.height as int;
        let idx = self.cell_index(row, col);
        lemma_mul_inequality(row, h - 1, w);
        assert((h - 1) * w == h * w - w) by (nonlinear_arith);
        assert(idx <= h * w - w + col < h * w);
        assert(w * h == h * w) by (nonlinear_arith);
        lemma_div_is_ordered(idx, w * h - 1, 8);
        lemma_div_is_ordered(w * h - 1, w * h, 8);
        lemma_mod_bound(idx, 8);
        assert(idx / 8 >= 0) by {
            lemma_div_is_ordered(0, idx, 8);
        }
    }

    /// Distinct in-bounds coordinates have distinct linear indices.
    proof fn lemma_index_injective(self, r1: int, c1: int, r2: int, c2: int)
        requires
            self.in_bounds(r1, c1),
            self.in_bounds(r2, c2),
            self.cell_index(r1, c1) == self.cell_index(r2, c2),
        ensures
            r1 == r2,
            c1 == c2,
    {
        let w = self.width as int;
        assert(r1 == r2 && c1 == c2) by (nonlinear_arith)
            requires
                0 <= c1 < w,
                0 <= c2 < w,
                0 <= r1,
                0 <= r2,
                r1 * w + c1 == r2 * w + c2,
        ;
    }

    /// The byte and bit position of a coordinate's cell in the packed storage.
    fn position(&self, row: u32, column: u32) -> (r: (usize, u8))
        requires
            self.wf(),
            self.in_bounds(row as int, column as int),
        ensures
            r.0 == self.cell_index(row as int, column as int) / 8,
            r.1 == self.cell_index(row as int, column as int) % 8,
            r.0 < self.cells@.len(),
            r.1 < 8,
    {
        proof {
            self.lemma_index_in_range(row as int, column as int);
        }
        let index = (row * self.width + column) as usize;
        (index / 8, (index % 8) as u8)
    }

    /// Read the cell at an in-range coordinate. Out-of-range coordinates are
    /// rejected by contract: access never silently wraps.
    pub fn get(&self, row: u32, column: u32) -> (r: Cell)
        requires
            self.wf(),
            self.in_bounds(row as int, column as int),
        ensures
            r == (if self.alive(row as int, column as int) {
                Cell::Alive
            } else {
                Cell::Dead
            }),
    {
        let (pos, bit) = self.position(row, column);
        let byte = self.cells[pos];
        proof {
            lemma_mask_reads_bit(byte, bit);
        }
        if byte & (1u8 << bit) != 0 {
            Cell::Alive
        } else {
            Cell::Dead
        }
    }

    /// Write one cell: afterwards that cell holds exactly the given state and
    /// every other cell is untouched.
    pub fn set(&mut self, row: u32, column: u32, cell: Cell)
        requires
            old(self).wf(),
            old(self).in_bounds(row as int, column as int),
        ensures
            wrote_cell(*old(self), *final(self), row as int, column as int, cell == Cell::Alive),
    {
        let (pos, bit) = self.position(row, column);
        let byte = self.cells[pos];
        let updated: u8 = match cell {
            Cell::Alive => byte | (1u8 << bit),
            Cell::Dead => byte & !(1u8 << bit),
        };
        self.cells.set(pos, updated);
        proof {
            let pre = *old(self);
            let idx = pre.cell_index(row as int, column as int);
            if cell == Cell::Alive {
                lemma_set_bit(byte, bit, bit);
            } else {
                lemma_clear_bit(byte, bit, bit);
            }
            assert forall|r: int, c: int|
                pre.in_bounds(r, c) && !(r == row as int && c == column as int) implies self.alive(
                r,
                c,
            ) == pre.alive(r, c) by {
                pre.lemma_index_in_range(r, c);
                let idx2 = pre.cell_index(r, c);
                if idx2 / 8 == idx / 8 {
                    if idx2 == idx {
                        pre.lemma_index_injective(r, c, row as int, column as int);
                        assert(false);
                    }
                    lemma_fundamental_div_mod(idx, 8);
                    lemma_fundamental_div_mod(idx2, 8);
                    assert(idx2 % 8 != idx % 8);
                    if cell == Cell::Alive {
                        lemma_set_bit(byte, bit, (idx2 % 8) as u8);
                    } else {
                        lemma_clear_bit(byte, bit, (idx2 % 8) as u8);
                    }
                }
            }
        }
    }

    /// Toroidal wrap of a row coordinate at most one grid size out of range.
    fn wrap_row(&self, r: i64) -> (res: u32)
        requires
            1 <= self.spec_height(),
            -(self.spec_height() as int) <= r <= u32::MAX as int,
        ensures
            res as int == wrap_spec(r as int, self.spec_height() as int),
            res < self.spec_height(),
    {
        wrap(r, self.height)
    }

    /// Toroidal wrap of a column coordinate at most one grid size out of range.
    fn wrap_col(&self, c: i64) -> (res: u32)
        requires
            1 <= self.spec_width(),
            -(self.spec_width() as int) <= c <= u32::MAX as int,
        ensures
            res as int == wrap_spec(c as int, self.spec_width() as int),
            res < self.spec_width(),
    {
        wrap(c, self.width)
    }

    /// Count the live cells among the eight toroidal neighbors of an in-range
    /// coordinate.
    pub fn live_neighbor_count(&self, row: u32, column: u32) -> (r: u8)
        requires
            self.wf(),
            self.in_bounds(row as int, column as int),
        ensures
            r as int == self.neighbor_count(row as int, column as int),
    {
        let rm = self.wrap_row(row as i64 - 1);
        let rp = self.wrap_row(row as i64 + 1);
        let cm = self.wrap_col(column as i64 - 1);
        let cp = self.wrap_col(column as i64 + 1);
        proof {
            lemma_small_mod(row as nat, self.height as nat);
            lemma_small_mod(column as nat, self.width as nat);
        }
        let mut count: u8 = 0;
        count += alive_as_u8(self.get(rm, cm));
        count += alive_as_u8(self.get(rm, column));
        count += alive_as_u8(self.get(rm, cp));
        count += alive_as_u8(self.get(row, cm));
        count += alive_as_u8(self.get(row, cp));
        count += alive_as_u8(self.get(rp, cm));
        count += alive_as_u8(self.get(rp, column));
        count += alive_as_u8(self.get(rp, cp));
        count
    }

    /// Construct an all-dead universe of the given dimensions. The product of
    /// the dimensions must fit the index arithmetic; zero-sized grids are
    /// representable and allowed.
    pub fn new(width: u32, height: u32) -> (r: Universe)
        requires
            (width as int) * (height as int) <= u32::MAX as int,
        ensures
            r.wf(),
            r.spec_width() == width,
            r.spec_height() == height,
            forall|row: int, col: int| r.in_bounds(row, col) ==> !r.alive(row, col),
    {
        let len = width * height / 8 + 1;
        let u = Universe { width, height, cells: zero_bytes(len as usize) };
        proof {
            assert forall|row: int, col: int| u.in_bounds(row, col) implies !u.alive(row, col) by {
                u.lemma_index_in_range(row, col);
                lemma_zero_byte_clear((u.cell_index(row, col) % 8) as u8);
            }
        }
        u
    }

    /// The canonical 64-by-64 demo seed: a cell starts alive exactly when its
    /// linear index is even or divisible by seven.
    pub fn example() -> (r: Universe)
        ensures
            r.wf(),
            r.spec_width() == 64,
            r.spec_height() == 64,
            forall|row: int, col: int|
                r.in_bounds(row, col) ==> r.alive(row, col) == seed_alive(row * 64 + col),
    {
        let mut result = Universe::new(64, 64);
        let mut row: u32 = 0;
        while row < 64
            invariant
                result.wf(),
                result.spec_width() == 64,
                result.spec_height() == 64,
                row <= 64,
                forall|r: int, c: int|
                    0 <= r < row as int && 0 <= c < 64 ==> result.alive(r, c) == seed_alive(
                        r * 64 + c,
                    ),
            decreases 64 - row,
        {
            let mut col: u32 = 0;
            while col < 64
                invariant
                    result.wf(),
                    result.spec_width() == 64,
                    result.spec_height() == 64,
                    row < 64,
                    col <= 64,
                    forall|r: int, c: int|
                        0 <= r < row as int && 0 <= c < 64 ==> result.alive(r, c) == seed_alive(
                            r * 64 + c,
                        ),
                    forall|c: int|
                        0 <= c < col as int ==> result.alive(row as int, c) == seed_alive(
                            row as int * 64 + c,
                        ),
                decreases 64 - col,
            {
                let i = row * 64 + col;
                result.set(
                    row,
                    col,
                    if i % 2 == 0 || i % 7 == 0 {
                        Cell::Alive
                    } else {
                        Cell::Dead
                    },
                );
                col += 1;
            }
            row += 1;
        }
        result
    }

    /// Redraw every cell: alive or dead with probability one half each,
    /// independently per cell. The dimensions are untouched; nothing more is
    /// promised of the outcome.
    pub fn random(&mut self)
        requires
            old(self).wf(),
        ensures
            final(self).wf(),
            final(self).spec_width() == old(self).spec_width(),
            final(self).spec_height() == old(self).spec_height(),
    {
        let height = self.height;
        let width = self.width;
        let mut row: u32 = 0;
        while row < height
            invariant
                self.wf(),
                self.spec_width() == width,
                self.spec_height() == height,
                row <= height,
            decreases height - row,
        {
            let mut col: u32 = 0;
            while col < width
                invariant
                    self.wf(),
                    self.spec_width() == width,
                    self.spec_height() == height,
                    row < height,
                    col <= width,
                decreases width - col,
            {
                let alive = draw();
                self.set(
                    row,
                    col,
                    if alive {
                        Cell::Alive
                    } else {
                        Cell::Dead
                    },
                );
                col += 1;
            }
            row += 1;
        }
    }

    /// Construct a universe of the given dimensions with every cell drawn at
    /// random.
    pub fn new_random(width: u32, height: u32) -> (r: Universe)
        requires
            (width as int) * (height as int) <= u32::MAX as int,
        ensures
            r.wf(),
            r.spec_width() == width,
            r.spec_height() == height,
    {
        let mut result = Universe::new(width, height);
        result.random();
        result
    }

    /// Set every cell dead in place; the dimensions and the storage size are
    /// untouched.
    pub fn clear(&mut self)
        requires
            old(self).wf(),
        ensures
            cleared(*old(self), *final(self)),
            forall|row: int, col: int|
                final(self).in_bounds(row, col) ==> !final(self).alive(row, col),
    {
        let len = self.cells.len();
        self.cells = zero_bytes(len);
        proof {
            assert forall|row: int, col: int| self.in_bounds(row, col) implies !self.alive(
                row,
                col,
            ) by {
                self.lemma_index_in_range(row, col);
                lemma_zero_byte_clear((self.cell_index(row, col) % 8) as u8);
            }
        }
    }

    /// The fixed number of columns.
    pub fn width(&self) -> (r: u32)
        ensures
            r == self.spec_width(),
    {
        self.width
    }

    /// The fixed number of rows.
    pub fn height(&self) -> (r: u32)
        ensures
            r == self.spec_height(),
    {
        self.height
    }

    /// Read-only handoff of the raw backing bytes for a display layer. The
    /// packing is an internal detail; callers must not decode it themselves.
    pub fn cells(&self) -> (r: &Vec<u8>)
        ensures
            r@ == self.storage(),
    {
        &self.cells
    }

    /// Flip the cell at an in-range coordinate.
    pub fn toggle_cell(&mut self, row: u32, col: u32)
        requires
            old(self).wf(),
            old(self).in_bounds(row as int, col as int),
        ensures
            wrote_cell(
                *old(self),
                *final(self),
                row as int,
                col as int,
                !old(self).alive(row as int, col as int),
            ),
    {
        let new = self.get(row, col).toggle();
        self.set(row, col, new)
    }

    /// Set the cell at an in-range coordinate alive.
    pub fn set_cell(&mut self, row: u32, col: u32)
        requires
            old(self).wf(),
            old(self).in_bounds(row as int, col as int),
        ensures
            wrote_cell(*old(self), *final(self), row as int, col as int, true),
    {
        self.set(row, col, Cell::Alive)
    }

    /// Set the cell at an in-range coordinate dead.
    pub fn clear_cell(&mut self, row: u32, col: u32)
        requires
            old(self).wf(),
            old(self).in_bounds(row as int, col as int),
        ensures
            wrote_cell(*old(self), *final(self), row as int, col as int, false),
    {
        self.set(row, col, Cell::Dead)
    }

    /// Advance one generation: every cell's next state is the rule applied to
    /// its previous state and its previous live-neighbor count, computed from
    /// a snapshot of the whole previous generation.
    pub fn tick(&mut self)
        requires
            old(self).wf(),
        ensures
            final(self).wf(),
            final(self).spec_width() == old(self).spec_width(),
            final(self).spec_height() == old(self).spec_height(),
            forall|row: int, col: int|
                old(self).in_bounds(row, col) ==> final(self).alive(row, col) == old(
                    self,
                ).next_alive(row, col),
    {
        let height = self.height;
        let width = self.width;
        let len = self.cells.len();
        let mut next = Universe { width, height, cells: zero_bytes(len) };
        let mut row: u32 = 0;
        while row < height
            invariant
                self.wf(),
                self.spec_width() == width,
                self.spec_height() == height,
                self.storage() == old(self).storage(),
                self.spec_width() == old(self).spec_width(),
                self.spec_height() == old(self).spec_height(),
                next.wf(),
                next.spec_width() == width,
                next.spec_height() == height,
                row <= height,
                forall|r: int, c: int|
                    0 <= r < row as int && 0 <= c < width as int ==> next.alive(r, c) == old(
                        self,
                    ).next_alive(r, c),
            decreases height - row,
        {
            let mut col: u32 = 0;
            while col < width
                invariant
                    self.wf(),
                    self.spec_width() == width,
                    self.spec_height() == height,
                    self.storage() == old(self).storage(),
                    self.spec_width() == old(self).spec_width(),
                    self.spec_height() == old(self).spec_height(),
                    next.wf(),
                    next.spec_width() == width,
                    next.spec_height() == height,
                    row < height,
                    col <= width,
                    forall|r: int, c: int|
                        0 <= r < row as int && 0 <= c < width as int ==> next.alive(r, c) == old(
                            self,
                        ).next_alive(r, c),
                    forall|c: int|
                        0 <= c < col as int ==> next.alive(row as int, c) == old(self).next_alive(
                            row as int,
                            c,
                        ),
                decreases width - col,
            {
                let count = self.live_neighbor_count(row, col);
                let cur = self.get(row, col);
                let next_cell = match (cur, count) {
                    (Cell::Alive, x) if x < 2 => Cell::Dead,
                    (Cell::Alive, 2) | (Cell::Alive, 3) => Cell::Alive,
                    (Cell::Alive, x) if x > 3 => Cell::Dead,
                    (Cell::Dead, 3) => Cell::Alive,
                    (otherwise, _) => otherwise,
                };
                next.set(row, col, next_cell);
                col += 1;
            }
            row += 1;
        }
        self.cells = next.cells;
    }
}

/// The relation a single-cell write establishes between the old and the new
/// state: that cell holds exactly `state`, every other cell is unchanged, and
/// the dimensions are kept.
pub open spec fn wrote_cell(
    pre: Universe,
    post: Universe,
    row: int,
    col: int,
    state: bool,
) -> bool {
    &&& post.wf()
    &&& post.spec_width() == pre.spec_width()
    &&& post.spec_height() == pre.spec_height()
    &&& post.alive(row, col) == state
    &&& forall|r: int, c: int|
        pre.in_bounds(r, c) && !(r == row && c == col) ==> post.alive(r, c) == pre.alive(r, c)
}

/// The relation `clear` establishes: same dimensions, same storage size,
/// every storage byte zero.
pub open spec fn cleared(pre: Universe, post: Universe) -> bool {
    &&& post.wf()
    &&& post.spec_width() == pre.spec_width()
    &&& post.spec_height() == pre.spec_height()
    &&& post.storage().len() == pre.storage().len()
    &&& forall|i: int| 0 <= i < post.storage().len() ==> post.storage()[i] == 0u8
}

/// One when the cell is alive, zero when it is dead.
fn alive_as_u8(c: Cell) -> (r: u8)
    ensures
        r as int == b2i(c == Cell::Alive),
{
    match c {
        Cell::Alive => 1,
        Cell::Dead => 0,
    }
}

/// Toroidal wrap of a coordinate at most one grid size below zero: add the
/// size until nonnegative, then take the remainder.
fn wrap(v: i64, size: u32) -> (r: u32)
    requires
        1 <= size,
        -(size as int) <= v <= u32::MAX as int,
    ensures
        r as int == wrap_spec(v as int, size as int),
        r < size,
{
    let ghost orig = v as int;
    let mut v = v;
    while v < 0
        invariant
            1 <= size,
            -(size as int) <= v <= u32::MAX as int,
            wrap_spec(v as int, size as int) == wrap_spec(orig, size as int),
        decreases (if v < 0 { 1int } else { 0int }),
    {
        proof {
            lemma_mod_add_multiples_vanish(v as int, size as int);
        }
        v = v + size as i64;
    }
    proof {
        lemma_mod_bound(v as int, size as int);
        lemma_small_mod((v as int % size as int) as nat, size as nat);
    }
    let w = (v as u64) % (size as u64);
    w as u32
}

/// All-dead grid: every cell's live-neighbor count is zero.
pub proof fn lemma_dead_grid_counts_zero(u: Universe, row: int, col: int)
    requires
        u.wf(),
        u.in_bounds(row, col),
        forall|r: int, c: int| u.in_bounds(r, c) ==> !u.alive(r, c),
    ensures
        u.neighbor_count(row, col) == 0,
{
    let h = u.spec_height() as int;
    let w = u.spec_width() as int;
    lemma_mod_bound(row - 1, h);
    lemma_mod_bound(row, h);
    lemma_mod_bound(row + 1, h);
    lemma_mod_bound(col - 1, w);
    lemma_mod_bound(col, w);
    lemma_mod_bound(col + 1, w);
}

/// The rule table, case by case: underpopulation, survival, overpopulation,
/// reproduction, stasis.
pub proof fn lemma_rule_table(alive: bool, n: int)
    ensures
        alive && n < 2 ==> !life_rule(alive, n),
        alive && (n == 2 || n == 3) ==> life_rule(alive, n),
        alive && n > 3 ==> !life_rule(alive, n),
        !alive && n == 3 ==> life_rule(alive, n),
        !alive && n != 3 ==> !life_rule(alive, n),
{
}

/// The next generation is a function of the observable state alone: two
/// universes of the same dimensions that agree on every cell agree on every
/// cell's successor.
pub proof fn lemma_next_state_deterministic(u1: Universe, u2: Universe, row: int, col: int)
    requires
        u1.wf(),
        u2.wf(),
        u1.spec_width() == u2.spec_width(),
        u1.spec_height() == u2.spec_height(),
        forall|r: int, c: int| u1.in_bounds(r, c) ==> u1.alive(r, c) == u2.alive(r, c),
        u1.in_bounds(row, col),
    ensures
        u1.next_alive(row, col) == u2.next_alive(row, col),
{
    let h = u1.spec_height() as int;
    let w = u1.spec_width() as int;
    lemma_mod_bound(row - 1, h);
    lemma_mod_bound(row, h);
    lemma_mod_bound(row + 1, h);
    lemma_mod_bound(col - 1, w);
    lemma_mod_bound(col, w);
    lemma_mod_bound(col + 1, w);
}

/// Toggling one cell twice restores every cell of the original state.
pub proof fn lemma_toggle_round_trip(
    u: Universe,
    once: Universe,
    twice: Universe,
    row: int,
    col: int,
)
    requires
        u.wf(),
        u.in_bounds(row, col),
        wrote_cell(u, once, row, col, !u.alive(row, col)),
        wrote_cell(once, twice, row, col, !once.alive(row, col)),
    ensures
        forall|r: int, c: int| u.in_bounds(r, c) ==> twice.alive(r, c) == u.alive(r, c),
{
}

/// Clearing twice gives exactly the state clearing once gives: the same
/// dimensions and identical all-dead storage.
pub proof fn lemma_clear_idempotent(u: Universe, once: Universe, twice: Universe)
    requires
        cleared(u, once),
        cleared(once, twice),
    ensures
        twice.spec_width() == once.spec_width(),
        twice.spec_height() == once.spec_height(),
        twice.storage() == once.storage(),
{
    assert(twice.storage() =~= once.storage());
}

} // verus!

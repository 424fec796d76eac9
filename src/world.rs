//! The grid state machine: cell access, neighbor counting under a clamped
//! boundary, generation advance through a scratch buffer, and rendering.

use vstd::prelude::*;
use vstd::arithmetic::div_mod::{lemma_fundamental_div_mod, lemma_fundamental_div_mod_converse};
use crate::rules::{life_rule, life_rules, next_state};

verus! {

/// Whether column `c`, row `r` lies inside a `w` by `h` grid.
pub open spec fn in_grid(w: int, h: int, c: int, r: int) -> bool {
    0 <= c < w && 0 <= r < h
}

/// Whether the cell at column `c`, row `r` exists and is alive; cells outside
/// the grid are never alive.
pub open spec fn live_at(cells: Seq<bool>, w: int, h: int, c: int, r: int) -> bool {
    in_grid(w, h, c, r) && cells[r * w + c]
}

pub open spec fn bool_to_int(b: bool) -> int {
    if b {
        1
    } else {
        0
    }
}

/// The number of live cells among the eight surrounding `idx` (row-major,
/// clamped boundary).
pub open spec fn neighbor_count(cells: Seq<bool>, w: int, h: int, idx: int) -> int {
    let c = idx % w;
    let r = idx / w;
    bool_to_int(live_at(cells, w, h, c - 1, r - 1)) + bool_to_int(live_at(cells, w, h, c, r - 1))
        + bool_to_int(live_at(cells, w, h, c + 1, r - 1)) + bool_to_int(
        live_at(cells, w, h, c - 1, r),
    ) + bool_to_int(live_at(cells, w, h, c + 1, r)) + bool_to_int(
        live_at(cells, w, h, c - 1, r + 1),
    ) + bool_to_int(live_at(cells, w, h, c, r + 1)) + bool_to_int(
        live_at(cells, w, h, c + 1, r + 1),
    )
}

/// The generation that follows `cells`: every cell's next state is computed
/// from `cells` alone.
pub open spec fn next_generation(cells: Seq<bool>, w: int, h: int) -> Seq<bool> {
    Seq::new(cells.len(), |i: int| next_state(cells[i], neighbor_count(cells, w, h, i)))
}

/// The character that shows a cell.
pub open spec fn glyph(alive: bool) -> char {
    if alive {
        '*'
    } else {
        ' '
    }
}

/// The text for the first `k` cells: one glyph per cell, and a line break
/// after every `w`-th.
pub open spec fn render_prefix(cells: Seq<bool>, w: int, k: int) -> Seq<char>
    decreases k,
{
    if k <= 0 {
        Seq::empty()
    } else {
        let line = render_prefix(cells, w, k - 1).push(glyph(cells[k - 1]));
        if k % w == 0 {
            line.push('\n')
        } else {
            line
        }
    }
}

/// The text of a whole grid.
pub open spec fn render_text(cells: Seq<bool>, w: int) -> Seq<char> {
    render_prefix(cells, w, cells.len() as int)
}

/// Whether `cells` has the shape of a `w` by `h` grid.
pub open spec fn grid_shape(cells: Seq<bool>, w: int, h: int) -> bool {
    w > 0 && h > 0 && cells.len() == w * h
}

/// A cell in row `r` (below `h`) and column `c` (below `w`) has a flat index below `w * h`.
pub proof fn lemma_flat_index_in_bounds(w: int, h: int, c: int, r: int)
    requires
        in_grid(w, h, c, r),
    ensures
        0 <= r * w + c < w * h,
{
    assert(r * w + c < w * h) by (nonlinear_arith)
        requires
            0 <= c < w,
            0 <= r < h,
    ;
    assert(0 <= r * w) by (nonlinear_arith)
        requires
            0 <= c < w,
            0 <= r,
    ;
}

/// The column and row of an in-bounds flat index lie inside the grid, and
/// lead back to it.
pub proof fn lemma_coordinates(w: int, h: int, idx: int)
    requires
        w > 0,
        h > 0,
        0 <= idx < w * h,
    ensures
        in_grid(w, h, idx % w, idx / w),
        (idx / w) * w + idx % w == idx,
{
    lemma_fundamental_div_mod(idx, w);
    assert(w * (idx / w) == (idx / w) * w) by (nonlinear_arith);
    assert(idx / w < h) by (nonlinear_arith)
        requires
            w > 0,
            idx < w * h,
            idx == w * (idx / w) + idx % w,
            0 <= idx % w,
    ;
    assert(idx / w >= 0) by (nonlinear_arith)
        requires
            w > 0,
            idx >= 0,
            idx == w * (idx / w) + idx % w,
            idx % w < w,
    ;
}

/// A Life grid of fixed size, stored row-major, with a scratch buffer for the
/// next generation.
pub struct World {
    width: usize,
    height: usize,
    rules: Vec<(bool, bool)>,
    map: Vec<bool>,
    map_next_gen: Vec<bool>,
}

impl World {
    /// The number of columns.
    pub closed spec fn width_spec(&self) -> nat {
        self.width as nat
    }

    /// The number of rows.
    pub closed spec fn height_spec(&self) -> nat {
        self.height as nat
    }

    /// The current generation, row-major.
    pub closed spec fn cells(&self) -> Seq<bool> {
        self.map@
    }

    /// Both buffers have `width * height` cells, and the rule table is Life's.
    pub closed spec fn wf(&self) -> bool {
        &&& self.width > 0
        &&& self.height > 0
        &&& self.width * self.height <= usize::MAX
        &&& self.map@.len() == self.width * self.height
        &&& self.map_next_gen@.len() == self.width * self.height
        &&& self.rules@ == life_rule()
    }

    /// A grid of `width` columns and `height` rows, all dead.
    pub fn new(width: usize, height: usize) -> (r: World)
        requires
            width > 0,
            height > 0,
            width * height <= usize::MAX,
        ensures
            r.wf(),
            r.width_spec() == width,
            r.height_spec() == height,
            r.cells() == Seq::new((width * height) as nat, |i: int| false),
    {
        let r = World {
            width,
            height,
            rules: life_rules(),
            map: vec![false; width * height],
            map_next_gen: vec![false; width * height],
        };
        assert(r.map@ =~= Seq::new((width * height) as nat, |i: int| false));
        r
    }

    /// The number of columns.
    pub fn width(&self) -> (r: usize)
        ensures
            r == self.width_spec(),
    {
        self.width
    }

    /// The number of rows.
    pub fn height(&self) -> (r: usize)
        ensures
            r == self.height_spec(),
    {
        self.height
    }

    /// A well-formed world holds a grid of its width and height, with at least one cell.
    pub proof fn lemma_shape(&self)
        requires
            self.wf(),
        ensures
            grid_shape(self.cells(), self.width_spec() as int, self.height_spec() as int),
            self.cells().len() > 0,
    {
        assert(self.width * self.height > 0) by (nonlinear_arith)
            requires
                self.width > 0,
                self.height > 0,
        ;
    }

    /// The number of cells.
    pub fn size(&self) -> (r: usize)
        requires
            self.wf(),
        ensures
            r == self.cells().len(),
            r == self.width_spec() * self.height_spec(),
    {
        self.width * self.height
    }

    /// Sets the cell at `idx` to `cell`.
    pub fn set(&mut self, idx: usize, cell: bool)
        requires
            old(self).wf(),
            idx < old(self).cells().len(),
        ensures
            final(self).wf(),
            final(self).width_spec() == old(self).width_spec(),
            final(self).height_spec() == old(self).height_spec(),
            final(self).cells() == old(self).cells().update(idx as int, cell),
    {
        self.map[idx] = cell;
    }

    /// Whether the cell at `idx` is alive.
    pub fn get(&self, idx: usize) -> (r: bool)
        requires
            self.wf(),
            idx < self.cells().len(),
        ensures
            r == self.cells()[idx as int],
    {
        self.map[idx]
    }

    /// Whether the cell `dx` columns and `dy` rows away from column `col`,
    /// row `row` exists and is alive, as 1 or 0.
    fn neighbor_alive(&self, col: usize, row: usize, dx: i32, dy: i32) -> (r: u32)
        requires
            self.wf(),
            col < self.width,
            row < self.height,
            -1 <= dx <= 1,
            -1 <= dy <= 1,
        ensures
            r as int == bool_to_int(
                live_at(self.map@, self.width as int, self.height as int, col + dx, row + dy),
            ),
    {
        if (dx == -1 && col == 0) || (dx == 1 && col == self.width - 1) {
            return 0;
        }
        if (dy == -1 && row == 0) || (dy == 1 && row == self.height - 1) {
            return 0;
        }
        let n_col: usize = if dx < 0 {
            col - 1
        } else {
            col + dx as usize
        };
        let n_row: usize = if dy < 0 {
            row - 1
        } else {
            row + dy as usize
        };
        proof {
            lemma_flat_index_in_bounds(self.width as int, self.height as int, n_col as int, n_row as int);
        }
        if self.map[n_row * self.width + n_col] {
            1
        } else {
            0
        }
    }

    /// The number of live cells among the up to eight cells around `idx`;
    /// cells beyond the edges are not counted.
    pub fn neighbors(&self, idx: usize) -> (r: u32)
        requires
            self.wf(),
            idx < self.cells().len(),
        ensures
            r as int == neighbor_count(
                self.cells(),
                self.width_spec() as int,
                self.height_spec() as int,
                idx as int,
            ),
            r <= 8,
    {
        proof {
            lemma_coordinates(self.width as int, self.height as int, idx as int);
        }
        let col = idx % self.width;
        let row = idx / self.width;
        let mut result: u32 = 0;
        result = result + self.neighbor_alive(col, row, -1, -1);
        result = result + self.neighbor_alive(col, row, 0, -1);
        result = result + self.neighbor_alive(col, row, 1, -1);
        result = result + self.neighbor_alive(col, row, -1, 0);
        result = result + self.neighbor_alive(col, row, 1, 0);
        result = result + self.neighbor_alive(col, row, -1, 1);
        result = result + self.neighbor_alive(col, row, 0, 1);
        result = result + self.neighbor_alive(col, row, 1, 1);
        result
    }

    /// Advances one generation: each cell's next state is computed from the
    /// current generation into the scratch buffer, then the buffers swap.
    pub fn cycle(&mut self)
        requires
            old(self).wf(),
        ensures
            final(self).wf(),
            final(self).width_spec() == old(self).width_spec(),
            final(self).height_spec() == old(self).height_spec(),
            final(self).cells() == next_generation(
                old(self).cells(),
                old(self).width_spec() as int,
                old(self).height_spec() as int,
            ),
    {
        let ghost current = self.map@;
        let ghost w = self.width as int;
        let ghost h = self.height as int;
        let n = self.width * self.height;
        for idx in 0..n
            invariant
                n == self.width * self.height,
                self.wf(),
                self.width == old(self).width,
                self.height == old(self).height,
                self.map@ == current,
                current == old(self).map@,
                w == self.width,
                h == self.height,
                forall|j: int|
                    0 <= j < idx ==> #[trigger] self.map_next_gen@[j] == next_generation(
                        current,
                        w,
                        h,
                    )[j],
        {
            let count = self.neighbors(idx) as usize;
            let (required, result) = self.rules[count];
            if self.map[idx] == required {
                self.map_next_gen[idx] = result;
            } else {
                self.map_next_gen[idx] = self.map[idx];
            }
        }
        std::mem::swap(&mut self.map, &mut self.map_next_gen);
        assert(self.map@ =~= next_generation(current, w, h));
    }

    /// The grid as text: one line of `width` glyphs per row, `*` for a live
    /// cell and a space for a dead one, each line ended by a line break.
    pub fn render(&self) -> (r: String)
        requires
            self.wf(),
        ensures
            r@ == render_text(self.cells(), self.width_spec() as int),
    {
        let ghost w = self.width as int;
        let mut buffer = String::new();
        let mut col: usize = 0;
        let n = self.width * self.height;
        proof {
            lemma_fundamental_div_mod_converse(0, w, 0, 0);
        }
        for idx in 0..n
            invariant
                n == self.width * self.height,
                self.wf(),
                w == self.width,
                col == idx as int % w,
                buffer@ == render_prefix(self.map@, w, idx as int),
        {
            let ghost q = idx as int / w;
            proof {
                reveal_strlit("*");
                reveal_strlit(" ");
                reveal_strlit("\n");
                lemma_fundamental_div_mod(idx as int, w);
                assert(idx + 1 == q * w + col + 1) by (nonlinear_arith)
                    requires
                        idx == w * q + col,
                ;
                assert((q + 1) * w == q * w + w) by (nonlinear_arith);
            }
            if self.map[idx] {
                buffer.append("*");
            } else {
                buffer.append(" ");
            }
            col += 1;
            if col == self.width {
                buffer.append("\n");
                col = 0;
                proof {
                    lemma_fundamental_div_mod_converse(idx + 1, w, q + 1, 0);
                    assert(buffer@ =~= render_prefix(self.map@, w, idx + 1));
                }
            } else {
                proof {
                    lemma_fundamental_div_mod_converse(idx + 1, w, q, col as int);
                    assert(buffer@ =~= render_prefix(self.map@, w, idx + 1));
                }
            }
        }
        buffer
    }
}

} // verus!

//! Properties of the grid model that hold for every grid.

use vstd::prelude::*;
use vstd::arithmetic::div_mod::{
    lemma_div_is_ordered, lemma_fundamental_div_mod, lemma_fundamental_div_mod_converse,
};
use crate::rules::lemma_next_state_is_classic_life;
use crate::world::{
    bool_to_int, glyph, grid_shape, in_grid, lemma_coordinates, lemma_flat_index_in_bounds, live_at,
    neighbor_count, next_generation, render_prefix, render_text,
};

verus! {

/// The number of positions around `idx` that lie inside a `w` by `h` grid.
pub open spec fn candidate_count(w: int, h: int, idx: int) -> int {
    let c = idx % w;
    let r = idx / w;
    bool_to_int(in_grid(w, h, c - 1, r - 1)) + bool_to_int(in_grid(w, h, c, r - 1)) + bool_to_int(
        in_grid(w, h, c + 1, r - 1),
    ) + bool_to_int(in_grid(w, h, c - 1, r)) + bool_to_int(in_grid(w, h, c + 1, r))
        + bool_to_int(in_grid(w, h, c - 1, r + 1)) + bool_to_int(in_grid(w, h, c, r + 1))
        + bool_to_int(in_grid(w, h, c + 1, r + 1))
}

/// Whether column `c`, row `r` is one of the four cells of the 2 by 2 square
/// whose top-left cell is at column `c0`, row `r0`.
pub open spec fn in_square(c0: int, r0: int, c: int, r: int) -> bool {
    c0 <= c <= c0 + 1 && r0 <= r <= r0 + 1
}

/// The flat index of an in-grid position leads back to its column and row.
proof fn lemma_flat_index_coordinates(w: int, h: int, c: int, r: int)
    requires
        in_grid(w, h, c, r),
    ensures
        (r * w + c) % w == c,
        (r * w + c) / w == r,
{
    lemma_fundamental_div_mod_converse(r * w + c, w, r, c);
}

/// Writing a value and reading it back gives that value; no other cell changes.
pub proof fn lemma_set_then_get(cells: Seq<bool>, idx: int, v: bool)
    requires
        0 <= idx < cells.len(),
    ensures
        cells.update(idx, v)[idx] == v,
        forall|j: int| 0 <= j < cells.len() && j != idx ==> #[trigger] cells.update(idx, v)[j] == cells[j],
{
}

/// No cell has more live neighbors than positions around it inside the grid.
pub proof fn lemma_neighbors_within_candidates(cells: Seq<bool>, w: int, h: int, idx: int)
    ensures
        0 <= neighbor_count(cells, w, h, idx) <= candidate_count(w, h, idx) <= 8,
{
}

/// In a grid at least 2 by 2, the top-left corner has three positions around it.
pub proof fn lemma_corner_candidates(w: int, h: int)
    requires
        w >= 2,
        h >= 2,
    ensures
        candidate_count(w, h, 0) == 3,
{
    lemma_fundamental_div_mod_converse(0, w, 0, 0);
}

/// A cell off every edge has all eight positions around it inside the grid.
pub proof fn lemma_interior_candidates(w: int, h: int, idx: int)
    requires
        w > 0,
        h > 0,
        0 < idx % w < w - 1,
        0 < idx / w < h - 1,
    ensures
        candidate_count(w, h, idx) == 8,
{
}

/// A dead cell with three live neighbors is born; one with two or four stays dead.
pub proof fn lemma_birth(cells: Seq<bool>, w: int, h: int, idx: int)
    requires
        grid_shape(cells, w, h),
        0 <= idx < cells.len(),
        !cells[idx],
    ensures
        neighbor_count(cells, w, h, idx) == 3 ==> next_generation(cells, w, h)[idx],
        neighbor_count(cells, w, h, idx) == 2 ==> !next_generation(cells, w, h)[idx],
        neighbor_count(cells, w, h, idx) == 4 ==> !next_generation(cells, w, h)[idx],
{
    lemma_neighbors_within_candidates(cells, w, h, idx);
    lemma_next_state_is_classic_life(false, neighbor_count(cells, w, h, idx));
}

/// A lone live cell has no live neighbors; in the next generation it is dead
/// and so is every other cell.
pub proof fn lemma_isolated_cell_dies(cells: Seq<bool>, w: int, h: int, a: int)
    requires
        grid_shape(cells, w, h),
        0 <= a < cells.len(),
        forall|i: int| 0 <= i < cells.len() ==> cells[i] == (i == a),
    ensures
        neighbor_count(cells, w, h, a) == 0,
        forall|i: int| 0 <= i < cells.len() ==> !(#[trigger] next_generation(cells, w, h)[i]),
{
    lemma_coordinates(w, h, a);
    let ca = a % w;
    let ra = a / w;
    assert forall|c: int, r: int| in_grid(w, h, c, r) implies #[trigger] live_at(cells, w, h, c, r)
        == (c == ca && r == ra) by {
        lemma_flat_index_in_bounds(w, h, c, r);
        lemma_flat_index_coordinates(w, h, c, r);
    }
    assert forall|i: int| 0 <= i < cells.len() implies !(#[trigger] next_generation(
        cells,
        w,
        h,
    )[i]) by {
        lemma_coordinates(w, h, i);
        let n = neighbor_count(cells, w, h, i);
        lemma_neighbors_within_candidates(cells, w, h, i);
        lemma_next_state_is_classic_life(cells[i], n);
        if i == a {
            assert(n == 0);
        } else {
            assert(i % w != ca || i / w != ra);
            assert(n <= 1);
        }
    }
}

/// A 2 by 2 square of live cells, with every other cell dead, is a still life:
/// each of its cells has three live neighbors, and the next generation equals
/// the current one.
pub proof fn lemma_square_is_still_life(cells: Seq<bool>, w: int, h: int, c0: int, r0: int)
    requires
        grid_shape(cells, w, h),
        0 <= c0,
        c0 + 1 < w,
        0 <= r0,
        r0 + 1 < h,
        forall|i: int| 0 <= i < cells.len() ==> cells[i] == in_square(c0, r0, i % w, i / w),
    ensures
        forall|i: int|
            0 <= i < cells.len() && #[trigger] cells[i] ==> neighbor_count(cells, w, h, i) == 3,
        next_generation(cells, w, h) == cells,
{
    assert forall|c: int, r: int| in_grid(w, h, c, r) implies #[trigger] live_at(cells, w, h, c, r)
        == in_square(c0, r0, c, r) by {
        lemma_flat_index_in_bounds(w, h, c, r);
        lemma_flat_index_coordinates(w, h, c, r);
    }
    assert forall|i: int| 0 <= i < cells.len() implies (cells[i] ==> neighbor_count(cells, w, h, i)
        == 3) && #[trigger] next_generation(cells, w, h)[i] == cells[i] by {
        lemma_coordinates(w, h, i);
        let n = neighbor_count(cells, w, h, i);
        lemma_neighbors_within_candidates(cells, w, h, i);
        lemma_next_state_is_classic_life(cells[i], n);
    }
    assert(next_generation(cells, w, h) =~= cells);
}

/// The position in the rendered text of the glyph of cell `m`: the cell's
/// index plus one line break for each full row before it.
pub open spec fn glyph_pos(w: int, m: int) -> int {
    m + m / w
}

/// The position in the rendered text of the line break that ends row `r`.
pub open spec fn line_end(w: int, r: int) -> int {
    r * (w + 1) + w
}

proof fn lemma_render_prefix_layout(cells: Seq<bool>, w: int, k: int)
    requires
        w > 0,
        0 <= k <= cells.len(),
    ensures
        render_prefix(cells, w, k).len() == k + k / w,
        forall|m: int|
            0 <= m < k ==> #[trigger] render_prefix(cells, w, k)[glyph_pos(w, m)] == glyph(cells[m]),
        forall|q: int| 0 <= q < k / w ==> #[trigger] render_prefix(cells, w, k)[line_end(w, q)] == '\n',
    decreases k,
{
    if k > 0 {
        let j = k - 1;
        lemma_render_prefix_layout(cells, w, j);
        let before = render_prefix(cells, w, j);
        let q = j / w;
        lemma_fundamental_div_mod(j, w);
        assert(w * q == q * w) by (nonlinear_arith);
        assert(0 <= q) by (nonlinear_arith)
            requires
                w > 0,
                j >= 0,
                j == w * q + j % w,
                j % w < w,
        ;
        if j % w + 1 == w {
            assert((q + 1) * w == q * w + w) by (nonlinear_arith);
            lemma_fundamental_div_mod_converse(k, w, q + 1, 0);
        } else {
            lemma_fundamental_div_mod_converse(k, w, q, j % w + 1);
        }
        assert forall|m: int| 0 <= m < k implies #[trigger] render_prefix(cells, w, k)[glyph_pos(w, m)]
            == glyph(cells[m]) by {
            if m < j {
                lemma_div_is_ordered(m, j, w);
                assert(glyph_pos(w, m) < before.len());
            }
        }
        assert forall|p: int| 0 <= p < k / w implies #[trigger] render_prefix(cells, w, k)[line_end(
            w,
            p,
        )] == '\n' by {
            if p < q {
                assert(line_end(w, p) == (p + 1) * w + p) by (nonlinear_arith);
                assert((p + 1) * w <= q * w) by (nonlinear_arith)
                    requires
                        p + 1 <= q,
                        w > 0,
                ;
                assert(line_end(w, p) < before.len());
            } else {
                assert(line_end(w, p) == q * w + q + w) by (nonlinear_arith)
                    requires
                        p == q,
                ;
            }
        }
    }
}

/// The rendered text of a `w` by `h` grid is `h` lines of `w` glyphs, each
/// followed by a line break: the glyph of column `c`, row `r` stands at
/// `r * (w + 1) + c`.
pub proof fn lemma_render_layout(cells: Seq<bool>, w: int, h: int)
    requires
        grid_shape(cells, w, h),
    ensures
        render_text(cells, w).len() == h * (w + 1),
        forall|c: int, r: int|
            in_grid(w, h, c, r) ==> #[trigger] render_text(cells, w)[r * (w + 1) + c] == glyph(
                cells[r * w + c],
            ),
        forall|r: int| 0 <= r < h ==> #[trigger] render_text(cells, w)[line_end(w, r)] == '\n',
{
    let n = w * h;
    lemma_render_prefix_layout(cells, w, n);
    assert(n == h * w) by (nonlinear_arith)
        requires
            n == w * h,
    ;
    lemma_fundamental_div_mod_converse(n, w, h, 0);
    assert(h * (w + 1) == h * w + h) by (nonlinear_arith);
    assert forall|c: int, r: int| in_grid(w, h, c, r) implies #[trigger] render_text(cells, w)[r * (w
        + 1) + c] == glyph(cells[r * w + c]) by {
        lemma_flat_index_in_bounds(w, h, c, r);
        lemma_flat_index_coordinates(w, h, c, r);
        assert(r * (w + 1) + c == glyph_pos(w, r * w + c)) by (nonlinear_arith)
            requires
                (r * w + c) / w == r,
        ;
    }
}

} // verus!

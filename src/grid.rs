//! Coordinates on the interleaved lattice of a `width × height` maze.
//!
//! The lattice has `2 * height - 1` rows and `2 * width - 1` columns. A
//! position with both coordinates even is a cell; one with exactly one odd
//! coordinate is a wall. Cells and walls are numbered row by row.
use vstd::arithmetic::div_mod::{lemma_fundamental_div_mod, lemma_fundamental_div_mod_converse};
use vstd::prelude::*;

verus! {

/// Dimensions that describe a maze whose lattice indices fit in a `usize`.
pub open spec fn dims_ok(w: int, h: int) -> bool {
    w >= 2 && h >= 2 && 4 * w * h <= usize::MAX
}

pub open spec fn num_edges(w: int, h: int) -> int {
    (w - 1) * h + (h - 1) * w
}

pub open spec fn num_cells(w: int, h: int) -> int {
    w * h
}

/// Whether `(r, c)` is a wall of the lattice.
pub open spec fn is_wall(w: int, h: int, r: int, c: int) -> bool {
    &&& 0 <= r < 2 * h - 1
    &&& 0 <= c < 2 * w - 1
    &&& (r % 2 == 0) != (c % 2 == 0)
}

/// Whether `(r, c)` is a cell of the lattice.
pub open spec fn is_cell(w: int, h: int, r: int, c: int) -> bool {
    &&& 0 <= r < 2 * h - 1
    &&& 0 <= c < 2 * w - 1
    &&& r % 2 == 0
    &&& c % 2 == 0
}

/// Number of the wall at `(r, c)`: each pair of lattice rows holds
/// `w - 1` vertical walls followed by `w` horizontal ones.
pub open spec fn edge_id_of(w: int, r: int, c: int) -> int {
    ((r + 1) / 2) * (w - 1) + ((r + 1) % 2) * (c / 2) + (r / 2) * w + (r % 2) * (c / 2)
}

/// Position of the wall numbered `k`.
pub open spec fn edge_coord_of(w: int, k: int) -> (int, int) {
    let q = k / (2 * w - 1);
    let m = k % (2 * w - 1);
    if m < w - 1 {
        (2 * q, 2 * m + 1)
    } else {
        (2 * q + 1, 2 * (m - (w - 1)))
    }
}

pub open spec fn cell_id_of(w: int, r: int, c: int) -> int {
    (r / 2) * w + c / 2
}

pub open spec fn cell_coord_of(w: int, k: int) -> (int, int) {
    (2 * (k / w), 2 * (k % w))
}

proof fn lemma_num_edges(w: int, h: int)
    requires
        w >= 2,
        h >= 2,
    ensures
        num_edges(w, h) == (2 * w - 1) * (h - 1) + (w - 1),
        num_edges(w, h) >= 4,
        num_cells(w, h) >= 4,
{
    assert(num_edges(w, h) == (2 * w - 1) * (h - 1) + (w - 1)) by (nonlinear_arith);
    assert((2 * w - 1) * (h - 1) >= 3) by (nonlinear_arith)
        requires
            w >= 2,
            h >= 2,
    ;
    assert(w * h >= 4) by (nonlinear_arith)
        requires
            w >= 2,
            h >= 2,
    ;
}

/// Numbering a wall's position gives back the wall.
pub proof fn lemma_edge_coord_of_id(w: int, h: int, k: int)
    requires
        w >= 2,
        h >= 2,
        0 <= k < num_edges(w, h),
    ensures
        is_wall(w, h, edge_coord_of(w, k).0, edge_coord_of(w, k).1),
        edge_id_of(w, edge_coord_of(w, k).0, edge_coord_of(w, k).1) == k,
{
    let d = 2 * w - 1;
    let q = k / d;
    let m = k % d;
    lemma_fundamental_div_mod(k, d);
    lemma_num_edges(w, h);
    if q >= h {
        assert(d * q >= d * h) by (nonlinear_arith)
            requires
                q >= h,
                d > 0,
        ;
        assert(d * h == d * (h - 1) + d) by (nonlinear_arith);
    }
    assert(q >= 0) by (nonlinear_arith)
        requires
            k == d * q + m,
            0 <= m < d,
            k >= 0,
            d > 0,
    ;
    assert(q == h - 1 ==> m < w - 1) by (nonlinear_arith)
        requires
            k == d * q + m,
            k < d * (h - 1) + (w - 1),
    ;
    if m < w - 1 {
        let r = 2 * q;
        let c = 2 * m + 1;
        assert((r + 1) / 2 == q && (r + 1) % 2 == 1 && r / 2 == q && r % 2 == 0);
        assert(c / 2 == m && c % 2 == 1);
        assert(edge_id_of(w, r, c) == q * (w - 1) + m + q * w);
        assert(q * (w - 1) + q * w == d * q) by (nonlinear_arith)
            requires
                d == 2 * w - 1,
        ;
    } else {
        let r = 2 * q + 1;
        let c = 2 * (m - (w - 1));
        assert((r + 1) / 2 == q + 1 && (r + 1) % 2 == 0 && r / 2 == q && r % 2 == 1);
        assert(c / 2 == m - (w - 1) && c % 2 == 0);
        let z = (r + 1) % 2;
        assert(z * (c / 2) == 0) by (nonlinear_arith)
            requires
                z == 0,
        ;
        assert((r % 2) * (c / 2) == c / 2);
        assert(edge_id_of(w, r, c) == (q + 1) * (w - 1) + q * w + (m - (w - 1)));
        assert((q + 1) * (w - 1) + q * w == d * q + (w - 1)) by (nonlinear_arith)
            requires
                d == 2 * w - 1,
        ;
    }
}

/// The position of a wall's number is the wall.
pub proof fn lemma_edge_id_of_coord(w: int, h: int, r: int, c: int)
    requires
        w >= 2,
        h >= 2,
        is_wall(w, h, r, c),
    ensures
        0 <= edge_id_of(w, r, c) < num_edges(w, h),
        edge_coord_of(w, edge_id_of(w, r, c)) == (r, c),
{
    let d = 2 * w - 1;
    let q = r / 2;
    lemma_num_edges(w, h);
    if r % 2 == 0 {
        let m = c / 2;
        assert(c == 2 * m + 1);
        assert(0 <= m < w - 1);
        assert((r + 1) / 2 == q && (r + 1) % 2 == 1);
        assert(edge_id_of(w, r, c) == q * (w - 1) + m + q * w);
        assert(q * (w - 1) + q * w == q * d) by (nonlinear_arith)
            requires
                d == 2 * w - 1,
        ;
        lemma_fundamental_div_mod_converse(edge_id_of(w, r, c), d, q, m);
        assert(0 <= q <= h - 1);
        assert(q * d <= (h - 1) * d) by (nonlinear_arith)
            requires
                q <= h - 1,
                d > 0,
        ;
        assert(q * d >= 0) by (nonlinear_arith)
            requires
                q >= 0,
                d > 0,
        ;
        assert((2 * w - 1) * (h - 1) == (h - 1) * d);
    } else {
        let m = c / 2 + (w - 1);
        assert(c == 2 * (c / 2));
        assert(0 <= c / 2 <= w - 1);
        assert((r + 1) / 2 == q + 1 && (r + 1) % 2 == 0);
        assert(edge_id_of(w, r, c) == (q + 1) * (w - 1) + q * w + c / 2);
        assert((q + 1) * (w - 1) + q * w == q * d + (w - 1)) by (nonlinear_arith)
            requires
                d == 2 * w - 1,
        ;
        lemma_fundamental_div_mod_converse(edge_id_of(w, r, c), d, q, m);
        assert(0 <= q < h - 1);
        assert(q * d <= (h - 2) * d) by (nonlinear_arith)
            requires
                q <= h - 2,
                d > 0,
        ;
        assert(q * d >= 0) by (nonlinear_arith)
            requires
                q >= 0,
                d > 0,
        ;
        assert((2 * w - 1) * (h - 1) == (h - 2) * d + d) by (nonlinear_arith)
            requires
                d == 2 * w - 1,
        ;
    }
}

/// Numbering a cell's position gives back the cell.
pub proof fn lemma_cell_coord_of_id(w: int, h: int, k: int)
    requires
        w >= 2,
        h >= 2,
        0 <= k < num_cells(w, h),
    ensures
        is_cell(w, h, cell_coord_of(w, k).0, cell_coord_of(w, k).1),
        cell_id_of(w, cell_coord_of(w, k).0, cell_coord_of(w, k).1) == k,
{
    lemma_fundamental_div_mod(k, w);
    let q = k / w;
    let m = k % w;
    assert(0 <= q < h) by (nonlinear_arith)
        requires
            k == w * q + m,
            0 <= m < w,
            0 <= k < w * h,
    ;
    assert((2 * q) / 2 == q && (2 * m) / 2 == m);
    assert(q * w == w * q) by (nonlinear_arith);
}

/// The position of a cell's number is the cell.
pub proof fn lemma_cell_id_of_coord(w: int, h: int, r: int, c: int)
    requires
        w >= 2,
        h >= 2,
        is_cell(w, h, r, c),
    ensures
        0 <= cell_id_of(w, r, c) < num_cells(w, h),
        cell_coord_of(w, cell_id_of(w, r, c)) == (r, c),
{
    let q = r / 2;
    let m = c / 2;
    assert(0 <= q < h && 0 <= m < w);
    lemma_fundamental_div_mod_converse(q * w + m, w, q, m);
    assert(q * w + m < w * h) by (nonlinear_arith)
        requires
            0 <= q < h,
            0 <= m < w,
    ;
    assert(q * w >= 0) by (nonlinear_arith)
        requires
            q >= 0,
            w > 0,
    ;
}

/// Position of the wall numbered `id`, or `None` past the last wall.
pub fn get_edge_coord(width: usize, height: usize, id: usize) -> (r: Option<(usize, usize)>)
    requires
        dims_ok(width as int, height as int),
    ensures
        match r {
            Some((row, col)) => id < num_edges(width as int, height as int) && (row as int, col as int)
                == edge_coord_of(width as int, id as int),
            None => id >= num_edges(width as int, height as int),
        },
{
    proof {
        lemma_dims_bounds(width as int, height as int);
    }
    let number_of_edges = (width - 1) * height + (height - 1) * width;
    if id >= number_of_edges {
        return None;
    }
    proof {
        lemma_edge_coord_of_id(width as int, height as int, id as int);
    }
    let span = width * 2 - 1;
    let pair = id / span;
    let rest = id % span;
    if rest >= width - 1 {
        Some((2 * pair + 1, 2 * (rest - (width - 1))))
    } else {
        Some((2 * pair, 2 * rest + 1))
    }
}

/// Position of the cell numbered `id`, or `None` past the last cell.
pub fn get_cell_coord(width: usize, height: usize, id: usize) -> (r: Option<(usize, usize)>)
    requires
        dims_ok(width as int, height as int),
    ensures
        match r {
            Some((row, col)) => id < num_cells(width as int, height as int) && (row as int, col as int)
                == cell_coord_of(width as int, id as int),
            None => id >= num_cells(width as int, height as int),
        },
{
    proof {
        lemma_dims_bounds(width as int, height as int);
    }
    if id >= width * height {
        return None;
    }
    proof {
        lemma_cell_coord_of_id(width as int, height as int, id as int);
    }
    Some((2 * (id / width), 2 * (id % width)))
}

/// Number of the wall at `(row, col)`, or `None` where there is no wall.
pub fn get_edge_id(width: usize, height: usize, row: usize, col: usize) -> (r: Option<usize>)
    requires
        dims_ok(width as int, height as int),
    ensures
        match r {
            Some(id) => is_wall(width as int, height as int, row as int, col as int) && id as int
                == edge_id_of(width as int, row as int, col as int),
            None => !is_wall(width as int, height as int, row as int, col as int),
        },
{
    proof {
        lemma_dims_bounds(width as int, height as int);
    }
    if (row % 2 == 0) == (col % 2 == 0) {
        return None;
    }
    if row >= height * 2 - 1 || col >= width * 2 - 1 {
        return None;
    }
    proof {
        lemma_edge_id_of_coord(width as int, height as int, row as int, col as int);
    }
    let vertical_edges = ((row + 1) / 2) * (width - 1) + ((row + 1) % 2) * (col / 2);
    let horizontal_edges = (row / 2) * width + (row % 2) * (col / 2);
    proof {
        assert(((row + 1) / 2) * (width - 1) + ((row + 1) % 2) * (col / 2) >= 0) by (nonlinear_arith)
            requires
                width >= 2,
        ;
        assert((row / 2) * width + (row % 2) * (col / 2) >= 0) by (nonlinear_arith)
            requires
                width >= 2,
        ;
    }
    Some(vertical_edges + horizontal_edges)
}

/// Number of the cell at `(row, col)`, or `None` where there is no cell.
pub fn get_cell_id(width: usize, height: usize, row: usize, col: usize) -> (r: Option<usize>)
    requires
        dims_ok(width as int, height as int),
    ensures
        match r {
            Some(id) => is_cell(width as int, height as int, row as int, col as int) && id as int
                == cell_id_of(width as int, row as int, col as int),
            None => !is_cell(width as int, height as int, row as int, col as int),
        },
{
    proof {
        lemma_dims_bounds(width as int, height as int);
    }
    if row % 2 != 0 || col % 2 != 0 {
        return None;
    }
    if row >= height * 2 - 1 || col >= width * 2 - 1 {
        return None;
    }
    proof {
        lemma_cell_id_of_coord(width as int, height as int, row as int, col as int);
    }
    Some((row / 2) * width + col / 2)
}

pub proof fn lemma_dims_bounds(w: int, h: int)
    requires
        dims_ok(w, h),
    ensures
        4 * w <= usize::MAX,
        4 * h <= usize::MAX,
        w * h <= usize::MAX,
        0 <= num_edges(w, h) < 2 * w * h,
        num_edges(w, h) < usize::MAX / 2,
        (w - 1) * h >= 0,
        (h - 1) * w >= 0,
        (w - 1) * h + (h - 1) * w <= usize::MAX,
{
    assert(4 * w <= 4 * w * h && 4 * h <= 4 * w * h && w * h <= 4 * w * h) by (nonlinear_arith)
        requires
            w >= 2,
            h >= 2,
    ;
    assert((w - 1) * h >= 0 && (h - 1) * w >= 0) by (nonlinear_arith)
        requires
            w >= 2,
            h >= 2,
    ;
    assert(num_edges(w, h) < 2 * w * h) by (nonlinear_arith)
        requires
            w >= 2,
            h >= 2,
    ;
    assert(2 * w * h == 2 * (w * h) && 4 * w * h == 4 * (w * h)) by (nonlinear_arith);
    assert(2 * w * h <= 4 * w * h) by (nonlinear_arith)
        requires
            w >= 2,
            h >= 2,
    ;
}

} // verus!

//! Classification of walls by the walls around them.
//!
//! A wall has up to six neighbours: the walls that meet it at its two ends,
//! three at each end. Each end reads as a side pattern `(b0, b1, b2)`, the
//! middle entry being the neighbour that continues the wall. Patterns are
//! grouped up to swapping the two ends and mirroring both of them, which
//! leaves twenty-four types; a wall on the border has one end inside the maze
//! and takes the type of its inner side paired with an empty side.
use crate::grid::{
    dims_ok, edge_coord_of, edge_id_of, get_edge_coord, get_edge_id, is_wall, num_edges,
};
use vstd::prelude::*;

verus! {

/// The presence of the three walls at one end of a wall.
pub type Side = (bool, bool, bool);

pub type NeighborsOneSided = (usize, usize, usize);

pub type NeighborsTwoSided = (usize, usize, usize, usize, usize, usize);

/// The type of a wall, named by its canonical pattern: the first three
/// digits are one end, the last three the other.
#[derive(Debug, Clone, Copy, PartialEq, Eq, Structural)]
pub enum WallType {
    Type111x111,
    Type111x011,
    Type111x101,
    Type111x100,
    Type111x010,
    Type111x000,
    Type101x101,
    Type101x011,
    Type101x010,
    Type101x001,
    Type101x000,
    Type011x011,
    Type011x110,
    Type011x010,
    Type011x001,
    Type011x100,
    Type011x000,
    Type010x010,
    Type010x100,
    Type010x000,
    Type001x001,
    Type001x100,
    Type001x000,
    Type000x000,
}

pub open spec fn mirror(s: Side) -> Side {
    (s.2, s.1, s.0)
}

/// Whether `(l, r)` is `(cl, cr)` up to swapping the ends and mirroring.
pub open spec fn same_class(l: Side, r: Side, cl: Side, cr: Side) -> bool {
    ||| (l == cl && r == cr)
    ||| (l == cr && r == cl)
    ||| (l == mirror(cl) && r == mirror(cr))
    ||| (l == mirror(cr) && r == mirror(cl))
}

/// The canonical pattern of each type.
pub open spec fn canonical(t: WallType) -> (Side, Side) {
    match t {
        WallType::Type111x111 => ((true, true, true), (true, true, true)),
        WallType::Type111x011 => ((true, true, true), (false, true, true)),
        WallType::Type111x101 => ((true, true, true), (true, false, true)),
        WallType::Type111x100 => ((true, true, true), (true, false, false)),
        WallType::Type111x010 => ((true, true, true), (false, true, false)),
        WallType::Type111x000 => ((true, true, true), (false, false, false)),
        WallType::Type101x101 => ((true, false, true), (true, false, true)),
        WallType::Type101x011 => ((true, false, true), (false, true, true)),
        WallType::Type101x010 => ((true, false, true), (false, true, false)),
        WallType::Type101x001 => ((true, false, true), (false, false, true)),
        WallType::Type101x000 => ((true, false, true), (false, false, false)),
        WallType::Type011x011 => ((false, true, true), (false, true, true)),
        WallType::Type011x110 => ((false, true, true), (true, true, false)),
        WallType::Type011x010 => ((false, true, true), (false, true, false)),
        WallType::Type011x001 => ((false, true, true), (false, false, true)),
        WallType::Type011x100 => ((false, true, true), (true, false, false)),
        WallType::Type011x000 => ((false, true, true), (false, false, false)),
        WallType::Type010x010 => ((false, true, false), (false, true, false)),
        WallType::Type010x100 => ((false, true, false), (true, false, false)),
        WallType::Type010x000 => ((false, true, false), (false, false, false)),
        WallType::Type001x001 => ((false, false, true), (false, false, true)),
        WallType::Type001x100 => ((false, false, true), (true, false, false)),
        WallType::Type001x000 => ((false, false, true), (false, false, false)),
        WallType::Type000x000 => ((false, false, false), (false, false, false)),
    }
}

/// The type of an inner wall whose ends read `l` and `r`.
pub open spec fn two_sided_type(l: Side, r: Side) -> WallType {
    if same_class(l, r, canonical(WallType::Type111x111).0, canonical(WallType::Type111x111).1) {
        WallType::Type111x111
    } else if same_class(l, r, canonical(WallType::Type111x011).0, canonical(WallType::Type111x011).1) {
        WallType::Type111x011
    } else if same_class(l, r, canonical(WallType::Type111x101).0, canonical(WallType::Type111x101).1) {
        WallType::Type111x101
    } else if same_class(l, r, canonical(WallType::Type111x100).0, canonical(WallType::Type111x100).1) {
        WallType::Type111x100
    } else if same_class(l, r, canonical(WallType::Type111x010).0, canonical(WallType::Type111x010).1) {
        WallType::Type111x010
    } else if same_class(l, r, canonical(WallType::Type101x101).0, canonical(WallType::Type101x101).1) {
        WallType::Type101x101
    } else if same_class(l, r, canonical(WallType::Type101x011).0, canonical(WallType::Type101x011).1) {
        WallType::Type101x011
    } else if same_class(l, r, canonical(WallType::Type101x010).0, canonical(WallType::Type101x010).1) {
        WallType::Type101x010
    } else if same_class(l, r, canonical(WallType::Type101x001).0, canonical(WallType::Type101x001).1) {
        WallType::Type101x001
    } else if same_class(l, r, canonical(WallType::Type011x011).0, canonical(WallType::Type011x011).1) {
        WallType::Type011x011
    } else if same_class(l, r, canonical(WallType::Type011x110).0, canonical(WallType::Type011x110).1) {
        WallType::Type011x110
    } else if same_class(l, r, canonical(WallType::Type011x010).0, canonical(WallType::Type011x010).1) {
        WallType::Type011x010
    } else if same_class(l, r, canonical(WallType::Type011x001).0, canonical(WallType::Type011x001).1) {
        WallType::Type011x001
    } else if same_class(l, r, canonical(WallType::Type011x100).0, canonical(WallType::Type011x100).1) {
        WallType::Type011x100
    } else if same_class(l, r, canonical(WallType::Type010x010).0, canonical(WallType::Type010x010).1) {
        WallType::Type010x010
    } else if same_class(l, r, canonical(WallType::Type010x100).0, canonical(WallType::Type010x100).1) {
        WallType::Type010x100
    } else if same_class(l, r, canonical(WallType::Type001x001).0, canonical(WallType::Type001x001).1) {
        WallType::Type001x001
    } else if same_class(l, r, canonical(WallType::Type001x100).0, canonical(WallType::Type001x100).1) {
        WallType::Type001x100
    } else if same_class(l, r, canonical(WallType::Type111x000).0, canonical(WallType::Type111x000).1) {
        WallType::Type111x000
    } else if same_class(l, r, canonical(WallType::Type101x000).0, canonical(WallType::Type101x000).1) {
        WallType::Type101x000
    } else if same_class(l, r, canonical(WallType::Type011x000).0, canonical(WallType::Type011x000).1) {
        WallType::Type011x000
    } else if same_class(l, r, canonical(WallType::Type010x000).0, canonical(WallType::Type010x000).1) {
        WallType::Type010x000
    } else if same_class(l, r, canonical(WallType::Type001x000).0, canonical(WallType::Type001x000).1) {
        WallType::Type001x000
    } else {
        WallType::Type000x000
    }
}

/// The type of a border wall whose inner end reads `s`.
pub open spec fn one_sided_type(s: Side) -> WallType {
    if s == (true, true, true) || mirror(s) == (true, true, true) {
        WallType::Type111x000
    } else if s == (true, false, true) || mirror(s) == (true, false, true) {
        WallType::Type101x000
    } else if s == (false, true, true) || mirror(s) == (false, true, true) {
        WallType::Type011x000
    } else if s == (false, true, false) || mirror(s) == (false, true, false) {
        WallType::Type010x000
    } else if s == (false, false, true) || mirror(s) == (false, false, true) {
        WallType::Type001x000
    } else {
        WallType::Type000x000
    }
}

/// The presence of the walls numbered `a`, `b` and `c`.
pub open spec fn side_at(e: Seq<bool>, a: int, b: int, c: int) -> Side {
    (e[a], e[b], e[c])
}

/// The positions of the neighbours of the wall at `(r, c)`: one end, then
/// the other. A border wall has only its inner end.
pub open spec fn neighbor_coords(w: int, h: int, r: int, c: int) -> Seq<(int, int)> {
    if r % 2 == 0 {
        if r == 0 {
            seq![(r + 1, c - 1), (r + 2, c), (r + 1, c + 1)]
        } else if r == 2 * h - 2 {
            seq![(r - 1, c - 1), (r - 2, c), (r - 1, c + 1)]
        } else {
            seq![(r - 1, c - 1), (r - 2, c), (r - 1, c + 1), (r + 1, c - 1), (r + 2, c), (r + 1, c + 1)]
        }
    } else {
        if c == 0 {
            seq![(r - 1, c + 1), (r, c + 2), (r + 1, c + 1)]
        } else if c == 2 * w - 2 {
            seq![(r - 1, c - 1), (r, c - 2), (r + 1, c - 1)]
        } else {
            seq![(r - 1, c - 1), (r, c - 2), (r + 1, c - 1), (r - 1, c + 1), (r, c + 2), (r + 1, c + 1)]
        }
    }
}

/// The numbers of the neighbours of the wall numbered `id`.
pub open spec fn neighbor_ids_of(w: int, h: int, id: int) -> Seq<int> {
    let (r, c) = edge_coord_of(w, id);
    neighbor_coords(w, h, r, c).map_values(|p: (int, int)| edge_id_of(w, p.0, p.1))
}

/// The type of the wall numbered `id` when the walls present are `e`.
pub open spec fn wall_type_of(w: int, h: int, e: Seq<bool>, id: int) -> WallType {
    let n = neighbor_ids_of(w, h, id);
    if n.len() == 3 {
        one_sided_type(side_at(e, n[0], n[1], n[2]))
    } else {
        two_sided_type(side_at(e, n[0], n[1], n[2]), side_at(e, n[3], n[4], n[5]))
    }
}

/// The neighbours of a wall are walls, three at the border and six inside.
pub proof fn lemma_neighbors_are_walls(w: int, h: int, r: int, c: int)
    requires
        w >= 2,
        h >= 2,
        is_wall(w, h, r, c),
    ensures
        neighbor_coords(w, h, r, c).len() == 3 || neighbor_coords(w, h, r, c).len() == 6,
        neighbor_coords(w, h, r, c).len() == 3 <==> (r == 0 || r == 2 * h - 2 || c == 0 || c == 2
            * w - 2),
        forall|k: int|
            0 <= k < neighbor_coords(w, h, r, c).len() ==> is_wall(
                w,
                h,
                #[trigger] neighbor_coords(w, h, r, c)[k].0,
                neighbor_coords(w, h, r, c)[k].1,
            ),
{
}

/// A wall is among the neighbours of each of its neighbours.
pub proof fn lemma_neighbor_coords_symmetric(w: int, h: int, r: int, c: int, k: int)
    requires
        w >= 2,
        h >= 2,
        is_wall(w, h, r, c),
        0 <= k < neighbor_coords(w, h, r, c).len(),
    ensures
        neighbor_coords(w, h, neighbor_coords(w, h, r, c)[k].0, neighbor_coords(w, h, r, c)[k].1).contains(
            (r, c),
        ),
{
    let p = neighbor_coords(w, h, r, c)[k];
    let nb2 = neighbor_coords(w, h, p.0, p.1);
    lemma_neighbors_are_walls(w, h, r, c);
    lemma_neighbors_are_walls(w, h, p.0, p.1);
    if nb2[0] == (r, c) {
        assert(nb2[0] == (r, c));
    } else if nb2[1] == (r, c) {
        assert(nb2[1] == (r, c));
    } else if nb2[2] == (r, c) {
        assert(nb2[2] == (r, c));
    } else if nb2[3] == (r, c) {
        assert(nb2[3] == (r, c));
    } else if nb2[4] == (r, c) {
        assert(nb2[4] == (r, c));
    } else {
        assert(nb2[5] == (r, c));
    }
}

/// A wall is among the neighbours of each of its neighbours, by number.
pub proof fn lemma_neighbor_ids_symmetric(w: int, h: int, i: int, j: int)
    requires
        w >= 2,
        h >= 2,
        0 <= i < num_edges(w, h),
        neighbor_ids_of(w, h, i).contains(j),
    ensures
        0 <= j < num_edges(w, h),
        neighbor_ids_of(w, h, j).contains(i),
{
    crate::grid::lemma_edge_coord_of_id(w, h, i);
    let (r, c) = edge_coord_of(w, i);
    let nb = neighbor_coords(w, h, r, c);
    lemma_neighbors_are_walls(w, h, r, c);
    let k = choose|k: int| 0 <= k < neighbor_ids_of(w, h, i).len() && neighbor_ids_of(w, h, i)[k] == j;
    let p = nb[k];
    assert(is_wall(w, h, p.0, p.1));
    crate::grid::lemma_edge_id_of_coord(w, h, p.0, p.1);
    assert(edge_coord_of(w, j) == p);
    lemma_neighbor_coords_symmetric(w, h, r, c, k);
    let nb2 = neighbor_coords(w, h, p.0, p.1);
    let k2 = choose|k2: int| 0 <= k2 < nb2.len() && nb2[k2] == (r, c);
    assert(neighbor_ids_of(w, h, j)[k2] == edge_id_of(w, r, c));
}

/// A wall's type depends only on its neighbours.
pub proof fn lemma_wall_type_frame(w: int, h: int, e: Seq<bool>, i: int, v: bool, j: int)
    requires
        w >= 2,
        h >= 2,
        0 <= j < num_edges(w, h),
        0 <= i < num_edges(w, h),
        e.len() == num_edges(w, h),
        !neighbor_ids_of(w, h, j).contains(i),
    ensures
        wall_type_of(w, h, e.update(i, v), j) == wall_type_of(w, h, e, j),
{
    crate::grid::lemma_edge_coord_of_id(w, h, j);
    let (r, c) = edge_coord_of(w, j);
    lemma_neighbors_are_walls(w, h, r, c);
    let n = neighbor_ids_of(w, h, j);
    let e2 = e.update(i, v);
    let nb = neighbor_coords(w, h, r, c);
    assert forall|k: int| 0 <= k < n.len() implies e2[n[k]] == e[n[k]] by {
        if n[k] == i {
            assert(n.contains(i));
        }
        assert(n[k] == edge_id_of(w, nb[k].0, nb[k].1));
        assert(is_wall(w, h, nb[k].0, nb[k].1));
        crate::grid::lemma_edge_id_of_coord(w, h, nb[k].0, nb[k].1);
    }
    if n.len() == 3 {
        assert(side_at(e2, n[0], n[1], n[2]) == side_at(e, n[0], n[1], n[2]));
    } else {
        assert(side_at(e2, n[0], n[1], n[2]) == side_at(e, n[0], n[1], n[2]));
        assert(side_at(e2, n[3], n[4], n[5]) == side_at(e, n[3], n[4], n[5]));
    }
}

fn read_side(edges: &Vec<bool>, a: usize, b: usize, c: usize) -> (r: Side)
    requires
        a < edges@.len(),
        b < edges@.len(),
        c < edges@.len(),
    ensures
        r == side_at(edges@, a as int, b as int, c as int),
{
    (edges[a], edges[b], edges[c])
}

fn in_class(l: Side, r: Side, cl: Side, cr: Side) -> (res: bool)
    ensures
        res == same_class(l, r, cl, cr),
{
    let ml = (cl.2, cl.1, cl.0);
    let mr = (cr.2, cr.1, cr.0);
    (same_side(l, cl) && same_side(r, cr)) || (same_side(l, cr) && same_side(r, cl)) || (
    same_side(l, ml) && same_side(r, mr)) || (same_side(l, mr) && same_side(r, ml))
}

fn same_side(a: Side, b: Side) -> (r: bool)
    ensures
        r == (a == b),
{
    a.0 == b.0 && a.1 == b.1 && a.2 == b.2
}

fn contains_wall_type_111x111(edges: &Vec<bool>, neighbors: NeighborsTwoSided) -> (r: bool)
    requires
        neighbors.0 < edges@.len(),
        neighbors.1 < edges@.len(),
        neighbors.2 < edges@.len(),
        neighbors.3 < edges@.len(),
        neighbors.4 < edges@.len(),
        neighbors.5 < edges@.len(),
    ensures
        r == same_class(
            side_at(edges@, neighbors.0 as int, neighbors.1 as int, neighbors.2 as int),
            side_at(edges@, neighbors.3 as int, neighbors.4 as int, neighbors.5 as int),
            canonical(WallType::Type111x111).0,
            canonical(WallType::Type111x111).1,
        ),
{
    let left = read_side(edges, neighbors.0, neighbors.1, neighbors.2);
    let right = read_side(edges, neighbors.3, neighbors.4, neighbors.5);
    in_class(left, right, (true, true, true), (true, true, true))
}

fn contains_wall_type_111x011(edges: &Vec<bool>, neighbors: NeighborsTwoSided) -> (r: bool)
    requires
        neighbors.0 < edges@.len(),
        neighbors.1 < edges@.len(),
        neighbors.2 < edges@.len(),
        neighbors.3 < edges@.len(),
        neighbors.4 < edges@.len(),
        neighbors.5 < edges@.len(),
    ensures
        r == same_class(
            side_at(edges@, neighbors.0 as int, neighbors.1 as int, neighbors.2 as int),
            side_at(edges@, neighbors.3 as int, neighbors.4 as int, neighbors.5 as int),
            canonical(WallType::Type111x011).0,
            canonical(WallType::Type111x011).1,
        ),
{
    let left = read_side(edges, neighbors.0, neighbors.1, neighbors.2);
    let right = read_side(edges, neighbors.3, neighbors.4, neighbors.5);
    in_class(left, right, (true, true, true), (false, true, true))
}

fn contains_wall_type_111x101(edges: &Vec<bool>, neighbors: NeighborsTwoSided) -> (r: bool)
    requires
        neighbors.0 < edges@.len(),
        neighbors.1 < edges@.len(),
        neighbors.2 < edges@.len(),
        neighbors.3 < edges@.len(),
        neighbors.4 < edges@.len(),
        neighbors.5 < edges@.len(),
    ensures
        r == same_class(
            side_at(edges@, neighbors.0 as int, neighbors.1 as int, neighbors.2 as int),
            side_at(edges@, neighbors.3 as int, neighbors.4 as int, neighbors.5 as int),
            canonical(WallType::Type111x101).0,
            canonical(WallType::Type111x101).1,
        ),
{
    let left = read_side(edges, neighbors.0, neighbors.1, neighbors.2);
    let right = read_side(edges, neighbors.3, neighbors.4, neighbors.5);
    in_class(left, right, (true, true, true), (true, false, true))
}

fn contains_wall_type_111x100(edges: &Vec<bool>, neighbors: NeighborsTwoSided) -> (r: bool)
    requires
        neighbors.0 < edges@.len(),
        neighbors.1 < edges@.len(),
        neighbors.2 < edges@.len(),
        neighbors.3 < edges@.len(),
        neighbors.4 < edges@.len(),
        neighbors.5 < edges@.len(),
    ensures
        r == same_class(
            side_at(edges@, neighbors.0 as int, neighbors.1 as int, neighbors.2 as int),
            side_at(edges@, neighbors.3 as int, neighbors.4 as int, neighbors.5 as int),
            canonical(WallType::Type111x100).0,
            canonical(WallType::Type111x100).1,
        ),
{
    let left = read_side(edges, neighbors.0, neighbors.1, neighbors.2);
    let right = read_side(edges, neighbors.3, neighbors.4, neighbors.5);
    in_class(left, right, (true, true, true), (true, false, false))
}

fn contains_wall_type_111x010(edges: &Vec<bool>, neighbors: NeighborsTwoSided) -> (r: bool)
    requires
        neighbors.0 < edges@.len(),
        neighbors.1 < edges@.len(),
        neighbors.2 < edges@.len(),
        neighbors.3 < edges@.len(),
        neighbors.4 < edges@.len(),
        neighbors.5 < edges@.len(),
    ensures
        r == same_class(
            side_at(edges@, neighbors.0 as int, neighbors.1 as int, neighbors.2 as int),
            side_at(edges@, neighbors.3 as int, neighbors.4 as int, neighbors.5 as int),
            canonical(WallType::Type111x010).0,
            canonical(WallType::Type111x010).1,
        ),
{
    let left = read_side(edges, neighbors.0, neighbors.1, neighbors.2);
    let right = read_side(edges, neighbors.3, neighbors.4, neighbors.5);
    in_class(left, right, (true, true, true), (false, true, false))
}

fn contains_wall_type_101x101(edges: &Vec<bool>, neighbors: NeighborsTwoSided) -> (r: bool)
    requires
        neighbors.0 < edges@.len(),
        neighbors.1 < edges@.len(),
        neighbors.2 < edges@.len(),
        neighbors.3 < edges@.len(),
        neighbors.4 < edges@.len(),
        neighbors.5 < edges@.len(),
    ensures
        r == same_class(
            side_at(edges@, neighbors.0 as int, neighbors.1 as int, neighbors.2 as int),
            side_at(edges@, neighbors.3 as int, neighbors.4 as int, neighbors.5 as int),
            canonical(WallType::Type101x101).0,
            canonical(WallType::Type101x101).1,
        ),
{
    let left = read_side(edges, neighbors.0, neighbors.1, neighbors.2);
    let right = read_side(edges, neighbors.3, neighbors.4, neighbors.5);
    in_class(left, right, (true, false, true), (true, false, true))
}

fn contains_wall_type_101x011(edges: &Vec<bool>, neighbors: NeighborsTwoSided) -> (r: bool)
    requires
        neighbors.0 < edges@.len(),
        neighbors.1 < edges@.len(),
        neighbors.2 < edges@.len(),
        neighbors.3 < edges@.len(),
        neighbors.4 < edges@.len(),
        neighbors.5 < edges@.len(),
    ensures
        r == same_class(
            side_at(edges@, neighbors.0 as int, neighbors.1 as int, neighbors.2 as int),
            side_at(edges@, neighbors.3 as int, neighbors.4 as int, neighbors.5 as int),
            canonical(WallType::Type101x011).0,
            canonical(WallType::Type101x011).1,
        ),
{
    let left = read_side(edges, neighbors.0, neighbors.1, neighbors.2);
    let right = read_side(edges, neighbors.3, neighbors.4, neighbors.5);
    in_class(left, right, (true, false, true), (false, true, true))
}

fn contains_wall_type_101x010(edges: &Vec<bool>, neighbors: NeighborsTwoSided) -> (r: bool)
    requires
        neighbors.0 < edges@.len(),
        neighbors.1 < edges@.len(),
        neighbors.2 < edges@.len(),
        neighbors.3 < edges@.len(),
        neighbors.4 < edges@.len(),
        neighbors.5 < edges@.len(),
    ensures
        r == same_class(
            side_at(edges@, neighbors.0 as int, neighbors.1 as int, neighbors.2 as int),
            side_at(edges@, neighbors.3 as int, neighbors.4 as int, neighbors.5 as int),
            canonical(WallType::Type101x010).0,
            canonical(WallType::Type101x010).1,
        ),
{
    let left = read_side(edges, neighbors.0, neighbors.1, neighbors.2);
    let right = read_side(edges, neighbors.3, neighbors.4, neighbors.5);
    in_class(left, right, (true, false, true), (false, true, false))
}

fn contains_wall_type_101x001(edges: &Vec<bool>, neighbors: NeighborsTwoSided) -> (r: bool)
    requires
        neighbors.0 < edges@.len(),
        neighbors.1 < edges@.len(),
        neighbors.2 < edges@.len(),
        neighbors.3 < edges@.len(),
        neighbors.4 < edges@.len(),
        neighbors.5 < edges@.len(),
    ensures
        r == same_class(
            side_at(edges@, neighbors.0 as int, neighbors.1 as int, neighbors.2 as int),
            side_at(edges@, neighbors.3 as int, neighbors.4 as int, neighbors.5 as int),
            canonical(WallType::Type101x001).0,
            canonical(WallType::Type101x001).1,
        ),
{
    let left = read_side(edges, neighbors.0, neighbors.1, neighbors.2);
    let right = read_side(edges, neighbors.3, neighbors.4, neighbors.5);
    in_class(left, right, (true, false, true), (false, false, true))
}

fn contains_wall_type_011x011(edges: &Vec<bool>, neighbors: NeighborsTwoSided) -> (r: bool)
    requires
        neighbors.0 < edges@.len(),
        neighbors.1 < edges@.len(),
        neighbors.2 < edges@.len(),
        neighbors.3 < edges@.len(),
        neighbors.4 < edges@.len(),
        neighbors.5 < edges@.len(),
    ensures
        r == same_class(
            side_at(edges@, neighbors.0 as int, neighbors.1 as int, neighbors.2 as int),
            side_at(edges@, neighbors.3 as int, neighbors.4 as int, neighbors.5 as int),
            canonical(WallType::Type011x011).0,
            canonical(WallType::Type011x011).1,
        ),
{
    let left = read_side(edges, neighbors.0, neighbors.1, neighbors.2);
    let right = read_side(edges, neighbors.3, neighbors.4, neighbors.5);
    in_class(left, right, (false, true, true), (false, true, true))
}

fn contains_wall_type_011x110(edges: &Vec<bool>, neighbors: NeighborsTwoSided) -> (r: bool)
    requires
        neighbors.0 < edges@.len(),
        neighbors.1 < edges@.len(),
        neighbors.2 < edges@.len(),
        neighbors.3 < edges@.len(),
        neighbors.4 < edges@.len(),
        neighbors.5 < edges@.len(),
    ensures
        r == same_class(
            side_at(edges@, neighbors.0 as int, neighbors.1 as int, neighbors.2 as int),
            side_at(edges@, neighbors.3 as int, neighbors.4 as int, neighbors.5 as int),
            canonical(WallType::Type011x110).0,
            canonical(WallType::Type011x110).1,
        ),
{
    let left = read_side(edges, neighbors.0, neighbors.1, neighbors.2);
    let right = read_side(edges, neighbors.3, neighbors.4, neighbors.5);
    in_class(left, right, (false, true, true), (true, true, false))
}

fn contains_wall_type_011x010(edges: &Vec<bool>, neighbors: NeighborsTwoSided) -> (r: bool)
    requires
        neighbors.0 < edges@.len(),
        neighbors.1 < edges@.len(),
        neighbors.2 < edges@.len(),
        neighbors.3 < edges@.len(),
        neighbors.4 < edges@.len(),
        neighbors.5 < edges@.len(),
    ensures
        r == same_class(
            side_at(edges@, neighbors.0 as int, neighbors.1 as int, neighbors.2 as int),
            side_at(edges@, neighbors.3 as int, neighbors.4 as int, neighbors.5 as int),
            canonical(WallType::Type011x010).0,
            canonical(WallType::Type011x010).1,
        ),
{
    let left = read_side(edges, neighbors.0, neighbors.1, neighbors.2);
    let right = read_side(edges, neighbors.3, neighbors.4, neighbors.5);
    in_class(left, right, (false, true, true), (false, true, false))
}

fn contains_wall_type_011x001(edges: &Vec<bool>, neighbors: NeighborsTwoSided) -> (r: bool)
    requires
        neighbors.0 < edges@.len(),
        neighbors.1 < edges@.len(),
        neighbors.2 < edges@.len(),
        neighbors.3 < edges@.len(),
        neighbors.4 < edges@.len(),
        neighbors.5 < edges@.len(),
    ensures
        r == same_class(
            side_at(edges@, neighbors.0 as int, neighbors.1 as int, neighbors.2 as int),
            side_at(edges@, neighbors.3 as int, neighbors.4 as int, neighbors.5 as int),
            canonical(WallType::Type011x001).0,
            canonical(WallType::Type011x001).1,
        ),
{
    let left = read_side(edges, neighbors.0, neighbors.1, neighbors.2);
    let right = read_side(edges, neighbors.3, neighbors.4, neighbors.5);
    in_class(left, right, (false, true, true), (false, false, true))
}

fn contains_wall_type_011x100(edges: &Vec<bool>, neighbors: NeighborsTwoSided) -> (r: bool)
    requires
        neighbors.0 < edges@.len(),
        neighbors.1 < edges@.len(),
        neighbors.2 < edges@.len(),
        neighbors.3 < edges@.len(),
        neighbors.4 < edges@.len(),
        neighbors.5 < edges@.len(),
    ensures
        r == same_class(
            side_at(edges@, neighbors.0 as int, neighbors.1 as int, neighbors.2 as int),
            side_at(edges@, neighbors.3 as int, neighbors.4 as int, neighbors.5 as int),
            canonical(WallType::Type011x100).0,
            canonical(WallType::Type011x100).1,
        ),
{
    let left = read_side(edges, neighbors.0, neighbors.1, neighbors.2);
    let right = read_side(edges, neighbors.3, neighbors.4, neighbors.5);
    in_class(left, right, (false, true, true), (true, false, false))
}

fn contains_wall_type_010x010(edges: &Vec<bool>, neighbors: NeighborsTwoSided) -> (r: bool)
    requires
        neighbors.0 < edges@.len(),
        neighbors.1 < edges@.len(),
        neighbors.2 < edges@.len(),
        neighbors.3 < edges@.len(),
        neighbors.4 < edges@.len(),
        neighbors.5 < edges@.len(),
    ensures
        r == same_class(
            side_at(edges@, neighbors.0 as int, neighbors.1 as int, neighbors.2 as int),
            side_at(edges@, neighbors.3 as int, neighbors.4 as int, neighbors.5 as int),
            canonical(WallType::Type010x010).0,
            canonical(WallType::Type010x010).1,
        ),
{
    let left = read_side(edges, neighbors.0, neighbors.1, neighbors.2);
    let right = read_side(edges, neighbors.3, neighbors.4, neighbors.5);
    in_class(left, right, (false, true, false), (false, true, false))
}

fn contains_wall_type_010x100(edges: &Vec<bool>, neighbors: NeighborsTwoSided) -> (r: bool)
    requires
        neighbors.0 < edges@.len(),
        neighbors.1 < edges@.len(),
        neighbors.2 < edges@.len(),
        neighbors.3 < edges@.len(),
        neighbors.4 < edges@.len(),
        neighbors.5 < edges@.len(),
    ensures
        r == same_class(
            side_at(edges@, neighbors.0 as int, neighbors.1 as int, neighbors.2 as int),
            side_at(edges@, neighbors.3 as int, neighbors.4 as int, neighbors.5 as int),
            canonical(WallType::Type010x100).0,
            canonical(WallType::Type010x100).1,
        ),
{
    let left = read_side(edges, neighbors.0, neighbors.1, neighbors.2);
    let right = read_side(edges, neighbors.3, neighbors.4, neighbors.5);
    in_class(left, right, (false, true, false), (true, false, false))
}

fn contains_wall_type_001x001(edges: &Vec<bool>, neighbors: NeighborsTwoSided) -> (r: bool)
    requires
        neighbors.0 < edges@.len(),
        neighbors.1 < edges@.len(),
        neighbors.2 < edges@.len(),
        neighbors.3 < edges@.len(),
        neighbors.4 < edges@.len(),
        neighbors.5 < edges@.len(),
    ensures
        r == same_class(
            side_at(edges@, neighbors.0 as int, neighbors.1 as int, neighbors.2 as int),
            side_at(edges@, neighbors.3 as int, neighbors.4 as int, neighbors.5 as int),
            canonical(WallType::Type001x001).0,
            canonical(WallType::Type001x001).1,
        ),
{
    let left = read_side(edges, neighbors.0, neighbors.1, neighbors.2);
    let right = read_side(edges, neighbors.3, neighbors.4, neighbors.5);
    in_class(left, right, (false, false, true), (false, false, true))
}

fn contains_wall_type_001x100(edges: &Vec<bool>, neighbors: NeighborsTwoSided) -> (r: bool)
    requires
        neighbors.0 < edges@.len(),
        neighbors.1 < edges@.len(),
        neighbors.2 < edges@.len(),
        neighbors.3 < edges@.len(),
        neighbors.4 < edges@.len(),
        neighbors.5 < edges@.len(),
    ensures
        r == same_class(
            side_at(edges@, neighbors.0 as int, neighbors.1 as int, neighbors.2 as int),
            side_at(edges@, neighbors.3 as int, neighbors.4 as int, neighbors.5 as int),
            canonical(WallType::Type001x100).0,
            canonical(WallType::Type001x100).1,
        ),
{
    let left = read_side(edges, neighbors.0, neighbors.1, neighbors.2);
    let right = read_side(edges, neighbors.3, neighbors.4, neighbors.5);
    in_class(left, right, (false, false, true), (true, false, false))
}

fn contains_wall_type_111x000(edges: &Vec<bool>, neighbors: NeighborsTwoSided) -> (r: bool)
    requires
        neighbors.0 < edges@.len(),
        neighbors.1 < edges@.len(),
        neighbors.2 < edges@.len(),
        neighbors.3 < edges@.len(),
        neighbors.4 < edges@.len(),
        neighbors.5 < edges@.len(),
    ensures
        r == same_class(
            side_at(edges@, neighbors.0 as int, neighbors.1 as int, neighbors.2 as int),
            side_at(edges@, neighbors.3 as int, neighbors.4 as int, neighbors.5 as int),
            canonical(WallType::Type111x000).0,
            canonical(WallType::Type111x000).1,
        ),
{
    let left = read_side(edges, neighbors.0, neighbors.1, neighbors.2);
    let right = read_side(edges, neighbors.3, neighbors.4, neighbors.5);
    in_class(left, right, (true, true, true), (false, false, false))
}

fn contains_wall_type_101x000(edges: &Vec<bool>, neighbors: NeighborsTwoSided) -> (r: bool)
    requires
        neighbors.0 < edges@.len(),
        neighbors.1 < edges@.len(),
        neighbors.2 < edges@.len(),
        neighbors.3 < edges@.len(),
        neighbors.4 < edges@.len(),
        neighbors.5 < edges@.len(),
    ensures
        r == same_class(
            side_at(edges@, neighbors.0 as int, neighbors.1 as int, neighbors.2 as int),
            side_at(edges@, neighbors.3 as int, neighbors.4 as int, neighbors.5 as int),
            canonical(WallType::Type101x000).0,
            canonical(WallType::Type101x000).1,
        ),
{
    let left = read_side(edges, neighbors.0, neighbors.1, neighbors.2);
    let right = read_side(edges, neighbors.3, neighbors.4, neighbors.5);
    in_class(left, right, (true, false, true), (false, false, false))
}

fn contains_wall_type_011x000(edges: &Vec<bool>, neighbors: NeighborsTwoSided) -> (r: bool)
    requires
        neighbors.0 < edges@.len(),
        neighbors.1 < edges@.len(),
        neighbors.2 < edges@.len(),
        neighbors.3 < edges@.len(),
        neighbors.4 < edges@.len(),
        neighbors.5 < edges@.len(),
    ensures
        r == same_class(
            side_at(edges@, neighbors.0 as int, neighbors.1 as int, neighbors.2 as int),
            side_at(edges@, neighbors.3 as int, neighbors.4 as int, neighbors.5 as int),
            canonical(WallType::Type011x000).0,
            canonical(WallType::Type011x000).1,
        ),
{
    let left = read_side(edges, neighbors.0, neighbors.1, neighbors.2);
    let right = read_side(edges, neighbors.3, neighbors.4, neighbors.5);
    in_class(left, right, (false, true, true), (false, false, false))
}

fn contains_wall_type_010x000(edges: &Vec<bool>, neighbors: NeighborsTwoSided) -> (r: bool)
    requires
        neighbors.0 < edges@.len(),
        neighbors.1 < edges@.len(),
        neighbors.2 < edges@.len(),
        neighbors.3 < edges@.len(),
        neighbors.4 < edges@.len(),
        neighbors.5 < edges@.len(),
    ensures
        r == same_class(
            side_at(edges@, neighbors.0 as int, neighbors.1 as int, neighbors.2 as int),
            side_at(edges@, neighbors.3 as int, neighbors.4 as int, neighbors.5 as int),
            canonical(WallType::Type010x000).0,
            canonical(WallType::Type010x000).1,
        ),
{
    let left = read_side(edges, neighbors.0, neighbors.1, neighbors.2);
    let right = read_side(edges, neighbors.3, neighbors.4, neighbors.5);
    in_class(left, right, (false, true, false), (false, false, false))
}

fn contains_wall_type_001x000(edges: &Vec<bool>, neighbors: NeighborsTwoSided) -> (r: bool)
    requires
        neighbors.0 < edges@.len(),
        neighbors.1 < edges@.len(),
        neighbors.2 < edges@.len(),
        neighbors.3 < edges@.len(),
        neighbors.4 < edges@.len(),
        neighbors.5 < edges@.len(),
    ensures
        r == same_class(
            side_at(edges@, neighbors.0 as int, neighbors.1 as int, neighbors.2 as int),
            side_at(edges@, neighbors.3 as int, neighbors.4 as int, neighbors.5 as int),
            canonical(WallType::Type001x000).0,
            canonical(WallType::Type001x000).1,
        ),
{
    let left = read_side(edges, neighbors.0, neighbors.1, neighbors.2);
    let right = read_side(edges, neighbors.3, neighbors.4, neighbors.5);
    in_class(left, right, (false, false, true), (false, false, false))
}

fn contains_wall_type_000x000(edges: &Vec<bool>, neighbors: NeighborsTwoSided) -> (r: bool)
    requires
        neighbors.0 < edges@.len(),
        neighbors.1 < edges@.len(),
        neighbors.2 < edges@.len(),
        neighbors.3 < edges@.len(),
        neighbors.4 < edges@.len(),
        neighbors.5 < edges@.len(),
    ensures
        r == same_class(
            side_at(edges@, neighbors.0 as int, neighbors.1 as int, neighbors.2 as int),
            side_at(edges@, neighbors.3 as int, neighbors.4 as int, neighbors.5 as int),
            canonical(WallType::Type000x000).0,
            canonical(WallType::Type000x000).1,
        ),
{
    let left = read_side(edges, neighbors.0, neighbors.1, neighbors.2);
    let right = read_side(edges, neighbors.3, neighbors.4, neighbors.5);
    in_class(left, right, (false, false, false), (false, false, false))
}

fn contains_wall_type_111(edges: &Vec<bool>, neighbors: NeighborsOneSided) -> (r: bool)
    requires
        neighbors.0 < edges@.len(),
        neighbors.1 < edges@.len(),
        neighbors.2 < edges@.len(),
    ensures
        r == ({
            let s = side_at(edges@, neighbors.0 as int, neighbors.1 as int, neighbors.2 as int);
            s == (true, true, true) || mirror(s) == (true, true, true)
        }),
{
    let (a, b, c) = read_side(edges, neighbors.0, neighbors.1, neighbors.2);
    same_side((a, b, c), (true, true, true)) || same_side((c, b, a), (true, true, true))
}

fn contains_wall_type_101(edges: &Vec<bool>, neighbors: NeighborsOneSided) -> (r: bool)
    requires
        neighbors.0 < edges@.len(),
        neighbors.1 < edges@.len(),
        neighbors.2 < edges@.len(),
    ensures
        r == ({
            let s = side_at(edges@, neighbors.0 as int, neighbors.1 as int, neighbors.2 as int);
            s == (true, false, true) || mirror(s) == (true, false, true)
        }),
{
    let (a, b, c) = read_side(edges, neighbors.0, neighbors.1, neighbors.2);
    same_side((a, b, c), (true, false, true)) || same_side((c, b, a), (true, false, true))
}

fn contains_wall_type_011(edges: &Vec<bool>, neighbors: NeighborsOneSided) -> (r: bool)
    requires
        neighbors.0 < edges@.len(),
        neighbors.1 < edges@.len(),
        neighbors.2 < edges@.len(),
    ensures
        r == ({
            let s = side_at(edges@, neighbors.0 as int, neighbors.1 as int, neighbors.2 as int);
            s == (false, true, true) || mirror(s) == (false, true, true)
        }),
{
    let (a, b, c) = read_side(edges, neighbors.0, neighbors.1, neighbors.2);
    same_side((a, b, c), (false, true, true)) || same_side((c, b, a), (false, true, true))
}

fn contains_wall_type_010(edges: &Vec<bool>, neighbors: NeighborsOneSided) -> (r: bool)
    requires
        neighbors.0 < edges@.len(),
        neighbors.1 < edges@.len(),
        neighbors.2 < edges@.len(),
    ensures
        r == ({
            let s = side_at(edges@, neighbors.0 as int, neighbors.1 as int, neighbors.2 as int);
            s == (false, true, false) || mirror(s) == (false, true, false)
        }),
{
    let (a, b, c) = read_side(edges, neighbors.0, neighbors.1, neighbors.2);
    same_side((a, b, c), (false, true, false)) || same_side((c, b, a), (false, true, false))
}

fn contains_wall_type_001(edges: &Vec<bool>, neighbors: NeighborsOneSided) -> (r: bool)
    requires
        neighbors.0 < edges@.len(),
        neighbors.1 < edges@.len(),
        neighbors.2 < edges@.len(),
    ensures
        r == ({
            let s = side_at(edges@, neighbors.0 as int, neighbors.1 as int, neighbors.2 as int);
            s == (false, false, true) || mirror(s) == (false, false, true)
        }),
{
    let (a, b, c) = read_side(edges, neighbors.0, neighbors.1, neighbors.2);
    same_side((a, b, c), (false, false, true)) || same_side((c, b, a), (false, false, true))
}

fn contains_wall_type_000(edges: &Vec<bool>, neighbors: NeighborsOneSided) -> (r: bool)
    requires
        neighbors.0 < edges@.len(),
        neighbors.1 < edges@.len(),
        neighbors.2 < edges@.len(),
    ensures
        r == ({
            let s = side_at(edges@, neighbors.0 as int, neighbors.1 as int, neighbors.2 as int);
            s == (false, false, false) || mirror(s) == (false, false, false)
        }),
{
    let (a, b, c) = read_side(edges, neighbors.0, neighbors.1, neighbors.2);
    same_side((a, b, c), (false, false, false)) || same_side((c, b, a), (false, false, false))
}
/// Every pair of ends falls in the class of the type it is given.
pub proof fn lemma_two_sided_total(l: Side, r: Side)
    ensures
        same_class(l, r, canonical(two_sided_type(l, r)).0, canonical(two_sided_type(l, r)).1),
{
    lemma_side_cases(l);
    lemma_side_cases(r);
}

proof fn lemma_side_cases(s: Side)
    ensures
        s == (true, true, true) || s == (true, true, false) || s == (true, false, true) || s == (
            true,
            false,
            false,
        ) || s == (false, true, true) || s == (false, true, false) || s == (false, false, true)
            || s == (false, false, false),
{
}

/// The type of a pair of ends does not change when the ends are swapped, or
/// when both are mirrored.
pub proof fn lemma_two_sided_symmetric(l: Side, r: Side)
    ensures
        two_sided_type(l, r) == two_sided_type(r, l),
        two_sided_type(l, r) == two_sided_type(mirror(l), mirror(r)),
        two_sided_type(l, r) == two_sided_type(mirror(r), mirror(l)),
{
}

/// A border wall's type does not change when its inner end is mirrored.
pub proof fn lemma_one_sided_symmetric(s: Side)
    ensures
        one_sided_type(s) == one_sided_type(mirror(s)),
{
}

/// The numbers of the neighbours of the wall numbered `id`, or `None` past
/// the last wall.
pub fn neighbor_ids(width: usize, height: usize, id: usize) -> (r: Option<Vec<usize>>)
    requires
        dims_ok(width as int, height as int),
    ensures
        r.is_some() <==> id < num_edges(width as int, height as int),
        r.is_some() ==> ({
            let n = neighbor_ids_of(width as int, height as int, id as int);
            let v = r.unwrap()@;
            &&& v.len() == n.len()
            &&& v.len() == 3 || v.len() == 6
            &&& forall|k: int| 0 <= k < v.len() ==> v[k] == n[k]
            &&& forall|k: int|
                0 <= k < v.len() ==> v[k] < num_edges(width as int, height as int)
        }),
{
    let (row, col) = match get_edge_coord(width, height, id) {
        Some(p) => p,
        None => return None,
    };
    let ghost w = width as int;
    let ghost h = height as int;
    proof {
        crate::grid::lemma_dims_bounds(w, h);
        crate::grid::lemma_edge_coord_of_id(w, h, id as int);
        lemma_neighbors_are_walls(w, h, row as int, col as int);
        let nb = neighbor_coords(w, h, row as int, col as int);
        assert forall|k: int| 0 <= k < nb.len() implies 0 <= #[trigger] edge_id_of(
            w,
            nb[k].0,
            nb[k].1,
        ) < num_edges(w, h) by {
            assert(is_wall(w, h, nb[k].0, nb[k].1));
            crate::grid::lemma_edge_id_of_coord(w, h, nb[k].0, nb[k].1);
        }
    }
    let mut ids: Vec<usize> = Vec::new();
    if row % 2 == 0 {
        if row == 0 {
            ids.push(edge_at(width, height, row + 1, col - 1));
            ids.push(edge_at(width, height, row + 2, col));
            ids.push(edge_at(width, height, row + 1, col + 1));
        } else if row == height * 2 - 2 {
            ids.push(edge_at(width, height, row - 1, col - 1));
            ids.push(edge_at(width, height, row - 2, col));
            ids.push(edge_at(width, height, row - 1, col + 1));
        } else {
            ids.push(edge_at(width, height, row - 1, col - 1));
            ids.push(edge_at(width, height, row - 2, col));
            ids.push(edge_at(width, height, row - 1, col + 1));
            ids.push(edge_at(width, height, row + 1, col - 1));
            ids.push(edge_at(width, height, row + 2, col));
            ids.push(edge_at(width, height, row + 1, col + 1));
        }
    } else {
        if col == 0 {
            ids.push(edge_at(width, height, row - 1, col + 1));
            ids.push(edge_at(width, height, row, col + 2));
            ids.push(edge_at(width, height, row + 1, col + 1));
        } else if col == width * 2 - 2 {
            ids.push(edge_at(width, height, row - 1, col - 1));
            ids.push(edge_at(width, height, row, col - 2));
            ids.push(edge_at(width, height, row + 1, col - 1));
        } else {
            ids.push(edge_at(width, height, row - 1, col - 1));
            ids.push(edge_at(width, height, row, col - 2));
            ids.push(edge_at(width, height, row + 1, col - 1));
            ids.push(edge_at(width, height, row - 1, col + 1));
            ids.push(edge_at(width, height, row, col + 2));
            ids.push(edge_at(width, height, row + 1, col + 1));
        }
    }
    proof {
        let n = neighbor_ids_of(w, h, id as int);
        assert forall|k: int| 0 <= k < ids@.len() implies ids@[k] == n[k] by {
            if k == 0 {
            } else if k == 1 {
            } else if k == 2 {
            } else if k == 3 {
            } else if k == 4 {
            } else {
            }
        }
        assert(ids@.len() == n.len());
        assert(ids@.len() == 3 || ids@.len() == 6);
        assert forall|k: int| 0 <= k < ids@.len() implies ids@[k] < num_edges(w, h) by {
            assert(ids@[k] == n[k]);
        }
    }
    Some(ids)
}

/// Number of a position known to be a wall.
fn edge_at(width: usize, height: usize, row: usize, col: usize) -> (r: usize)
    requires
        dims_ok(width as int, height as int),
        is_wall(width as int, height as int, row as int, col as int),
    ensures
        r == edge_id_of(width as int, row as int, col as int),
{
    match get_edge_id(width, height, row, col) {
        Some(id) => id,
        None => 0,
    }
}

/// The type of the wall numbered `id`, or `None` past the last wall.
pub fn get_wall_type(width: usize, height: usize, edges: &Vec<bool>, id: usize) -> (r: Option<
    WallType,
>)
    requires
        dims_ok(width as int, height as int),
        edges@.len() == num_edges(width as int, height as int),
    ensures
        r.is_some() <==> id < num_edges(width as int, height as int),
        r.is_some() ==> r.unwrap() == wall_type_of(width as int, height as int, edges@, id as int),
{
    let n = match neighbor_ids(width, height, id) {
        Some(n) => n,
        None => return None,
    };
    let ghost e = edges@;
    if n.len() == 3 {
        let neighbors = (n[0], n[1], n[2]);
        if contains_wall_type_111(edges, neighbors) {
            return Some(WallType::Type111x000);
        } else if contains_wall_type_101(edges, neighbors) {
            return Some(WallType::Type101x000);
        } else if contains_wall_type_011(edges, neighbors) {
            return Some(WallType::Type011x000);
        } else if contains_wall_type_010(edges, neighbors) {
            return Some(WallType::Type010x000);
        } else if contains_wall_type_001(edges, neighbors) {
            return Some(WallType::Type001x000);
        } else if contains_wall_type_000(edges, neighbors) {
            return Some(WallType::Type000x000);
        }
        return None;
    }
    let neighbors = (n[0], n[1], n[2], n[3], n[4], n[5]);
    proof {
        lemma_two_sided_total(
            side_at(e, n@[0] as int, n@[1] as int, n@[2] as int),
            side_at(e, n@[3] as int, n@[4] as int, n@[5] as int),
        );
    }
    if contains_wall_type_111x111(edges, neighbors) {
        return Some(WallType::Type111x111);
    } else if contains_wall_type_111x011(edges, neighbors) {
        return Some(WallType::Type111x011);
    } else if contains_wall_type_111x101(edges, neighbors) {
        return Some(WallType::Type111x101);
    } else if contains_wall_type_111x100(edges, neighbors) {
        return Some(WallType::Type111x100);
    } else if contains_wall_type_111x010(edges, neighbors) {
        return Some(WallType::Type111x010);
    } else if contains_wall_type_101x101(edges, neighbors) {
        return Some(WallType::Type101x101);
    } else if contains_wall_type_101x011(edges, neighbors) {
        return Some(WallType::Type101x011);
    } else if contains_wall_type_101x010(edges, neighbors) {
        return Some(WallType::Type101x010);
    } else if contains_wall_type_101x001(edges, neighbors) {
        return Some(WallType::Type101x001);
    } else if contains_wall_type_011x011(edges, neighbors) {
        return Some(WallType::Type011x011);
    } else if contains_wall_type_011x110(edges, neighbors) {
        return Some(WallType::Type011x110);
    } else if contains_wall_type_011x010(edges, neighbors) {
        return Some(WallType::Type011x010);
    } else if contains_wall_type_011x001(edges, neighbors) {
        return Some(WallType::Type011x001);
    } else if contains_wall_type_011x100(edges, neighbors) {
        return Some(WallType::Type011x100);
    } else if contains_wall_type_010x010(edges, neighbors) {
        return Some(WallType::Type010x010);
    } else if contains_wall_type_010x100(edges, neighbors) {
        return Some(WallType::Type010x100);
    } else if contains_wall_type_001x001(edges, neighbors) {
        return Some(WallType::Type001x001);
    } else if contains_wall_type_001x100(edges, neighbors) {
        return Some(WallType::Type001x100);
    } else if contains_wall_type_111x000(edges, neighbors) {
        return Some(WallType::Type111x000);
    } else if contains_wall_type_101x000(edges, neighbors) {
        return Some(WallType::Type101x000);
    } else if contains_wall_type_011x000(edges, neighbors) {
        return Some(WallType::Type011x000);
    } else if contains_wall_type_010x000(edges, neighbors) {
        return Some(WallType::Type010x000);
    } else if contains_wall_type_001x000(edges, neighbors) {
        return Some(WallType::Type001x000);
    } else if contains_wall_type_000x000(edges, neighbors) {
        return Some(WallType::Type000x000);
    }
    None
}

} // verus!

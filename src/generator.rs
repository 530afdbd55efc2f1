//! The weighted randomized Kruskal generator.
use crate::fenwick_tree::{lemma_prefix_bounded, lemma_total_zero, lower_index, prefix, FenwickTree};
use crate::grid::{
    cell_id_of, dims_ok, edge_coord_of, edge_id_of, get_cell_id, get_edge_coord, is_cell,
    lemma_cell_id_of_coord, lemma_dims_bounds, lemma_edge_coord_of_id, num_cells, num_edges,
};
use crate::maze::{fits, get_weight, weight_of, Maze, WallWeights, MAX_CELLS};
use crate::partition::{
    count_sets, is_first, join, joined, lemma_count_sets_alone, lemma_count_sets_merge,
    lemma_count_sets_one, lemma_count_sets_same, new_partition, roots_of, Partition,
};
use crate::random::draw_between;
use crate::wall_type::{
    lemma_neighbor_ids_symmetric, lemma_wall_type_frame, neighbor_ids, neighbor_ids_of,
    wall_type_of, WallType,
};
use rand::rngs::StdRng;
use vstd::prelude::*;

verus! {

/// The two cells on either side of the wall numbered `id`.
pub open spec fn wall_cells(w: int, id: int) -> (int, int) {
    let (r, c) = edge_coord_of(w, id);
    if r % 2 == 0 {
        (cell_id_of(w, r, c - 1), cell_id_of(w, r, c + 1))
    } else {
        (cell_id_of(w, r - 1, c), cell_id_of(w, r + 1, c))
    }
}

pub proof fn lemma_wall_cells(w: int, h: int, id: int)
    requires
        dims_ok(w, h),
        0 <= id < num_edges(w, h),
    ensures
        0 <= wall_cells(w, id).0 < num_cells(w, h),
        0 <= wall_cells(w, id).1 < num_cells(w, h),
{
    lemma_edge_coord_of_id(w, h, id);
    let (r, c) = edge_coord_of(w, id);
    if r % 2 == 0 {
        lemma_cell_id_of_coord(w, h, r, c - 1);
        lemma_cell_id_of_coord(w, h, r, c + 1);
    } else {
        lemma_cell_id_of_coord(w, h, r - 1, c);
        lemma_cell_id_of_coord(w, h, r + 1, c);
    }
}

/// What a generator holds, as mathematical values.
pub ghost struct GeneratorView {
    pub width: int,
    pub height: int,
    pub config: WallWeights,
    /// Whether each wall is still standing.
    pub edges: Seq<bool>,
    /// Whether each wall has been drawn.
    pub visited: Seq<bool>,
    /// The current weight of each wall.
    pub weights: Seq<u64>,
    /// The representative of each cell's connected set.
    pub roots: Seq<nat>,
}

/// The state of one run of the weighted randomized Kruskal algorithm.
///
/// Each wall starts with the weight of its type. A draw picks a wall with
/// probability proportional to its weight and consumes it: its weight drops
/// to zero for good. If its two cells are not yet connected, the wall is
/// removed and the walls around it that have not been drawn are weighed
/// again.
pub struct Generator {
    width: usize,
    height: usize,
    config: WallWeights,
    edges: Vec<bool>,
    visited: Vec<bool>,
    weights: FenwickTree,
    cells: Partition,
}

impl View for Generator {
    type V = GeneratorView;

    closed spec fn view(&self) -> GeneratorView {
        GeneratorView {
            width: self.width as int,
            height: self.height as int,
            config: self.config,
            edges: self.edges@,
            visited: self.visited@,
            weights: self.weights@,
            roots: roots_of(self.cells),
        }
    }
}

/// The invariant of a generator's state.
pub open spec fn state_ok(v: GeneratorView) -> bool {
    let e = num_edges(v.width, v.height);
    &&& dims_ok(v.width, v.height)
    &&& fits(v.width, v.height)
    &&& v.edges.len() == e
    &&& v.visited.len() == e
    &&& v.weights.len() == e
    &&& v.roots.len() == num_cells(v.width, v.height)
    &&& forall|j: int| 0 <= j < e ==> #[trigger] v.weights[j] <= u32::MAX
    // a drawn wall keeps a zero weight
    &&& forall|j: int| 0 <= j < e && #[trigger] v.visited[j] ==> v.weights[j] == 0
    // a wall not yet drawn weighs what its type weighs
    &&& forall|j: int|
        0 <= j < e && !#[trigger] v.visited[j] ==> v.weights[j] == weight_of(
            v.config,
            wall_type_of(v.width, v.height, v.edges, j),
        )
    // a removed wall has been drawn
    &&& forall|j: int| 0 <= j < e && !#[trigger] v.edges[j] ==> v.visited[j]
    // each removal merged two sets
    &&& count_false(v.edges, e) + count_sets(v.roots, num_cells(v.width, v.height)) == num_cells(
        v.width,
        v.height,
    )
    // cells share a set only when the removed walls connect them
    &&& forall|labels: Seq<int>, x: int, y: int|
        #![trigger respects(labels, v.width, v.height, v.edges), joined(v.roots, x, y)]
        respects(labels, v.width, v.height, v.edges) && 0 <= x < num_cells(v.width, v.height) && 0
            <= y < num_cells(v.width, v.height) && joined(v.roots, x, y) ==> labels[x] == labels[y]
    // the cells on either side of a drawn wall are connected
    &&& forall|j: int|
        0 <= j < e && #[trigger] v.visited[j] ==> joined(
            v.roots,
            wall_cells(v.width, j).0,
            wall_cells(v.width, j).1,
        )
}

/// Whether `labels` gives the two cells of every removed wall the same label.
/// Cells connected through removed walls get the same label from every such
/// labelling, and cells that are not connected get different labels from
/// some.
pub open spec fn respects(labels: Seq<int>, w: int, h: int, edges: Seq<bool>) -> bool {
    &&& labels.len() == num_cells(w, h)
    &&& forall|j: int|
        0 <= j < num_edges(w, h) && !#[trigger] edges[j] ==> labels[wall_cells(w, j).0]
            == labels[wall_cells(w, j).1]
}

/// Sum of all weights of a generator's state.
pub open spec fn total_of(v: GeneratorView) -> int {
    prefix(v.weights, v.weights.len() as int)
}

impl Generator {
    pub closed spec fn wf(&self) -> bool {
        &&& state_ok(self@)
        &&& self.weights.wf()
    }

    /// A generator for a `width × height` maze with every wall standing and
    /// weighed by its type; `None` when either dimension is below two.
    pub fn new(width: usize, height: usize, config: WallWeights) -> (r: Option<Generator>)
        requires
            fits(width as int, height as int),
        ensures
            r.is_some() <==> width >= 2 && height >= 2,
            r.is_some() ==> r.unwrap().wf() && initial_state(
                r.unwrap()@,
                width as int,
                height as int,
                config,
            ),
    {
        if width < 2 || height < 2 {
            return None;
        }
        proof {
            lemma_dims_bounds(width as int, height as int);
            assert(2 * (width as int) * (height as int) <= 2 * MAX_CELLS) by (nonlinear_arith)
                requires
                    (width as int) * (height as int) <= MAX_CELLS,
            ;
        }
        let number_of_edges = (width - 1) * height + (height - 1) * width;
        let number_of_cells = width * height;
        let cells = new_partition(number_of_cells);
        let edges: Vec<bool> = vec![true; number_of_edges];
        let visited: Vec<bool> = vec![false; number_of_edges];
        let mut weights = FenwickTree::with_len(number_of_edges);
        let ghost w = width as int;
        let ghost h = height as int;
        let mut i: usize = 0;
        while i < number_of_edges
            invariant
                dims_ok(w, h),
                fits(w, h),
                w == width,
                h == height,
                number_of_edges == num_edges(w, h),
                number_of_edges <= 2 * MAX_CELLS,
                edges@.len() == number_of_edges,
                weights.wf(),
                weights@.len() == number_of_edges,
                i <= number_of_edges,
                forall|j: int|
                    0 <= j < i ==> weights@[j] == weight_of(config, wall_type_of(w, h, edges@, j)),
                forall|j: int| i <= j < number_of_edges ==> weights@[j] == 0,
                forall|j: int| 0 <= j < number_of_edges ==> #[trigger] weights@[j] <= u32::MAX,
            decreases number_of_edges - i,
        {
            let weight = match get_weight(width, height, &edges, &config, i) {
                Some(v) => v,
                None => return None,
            };
            proof {
                let s = weights@;
                lemma_prefix_bounded(s, number_of_edges as int, u32::MAX as int);
                assert((number_of_edges as int) * (u32::MAX as int) <= 2 * MAX_CELLS * u32::MAX)
                    by (nonlinear_arith)
                    requires
                        number_of_edges <= 2 * MAX_CELLS,
                ;
            }
            let _ = weights.set(i, weight as u64);
            i = i + 1;
        }
        proof {
            assert(edges@ =~= Seq::new(number_of_edges as nat, |j: int| true));
            assert(visited@ =~= Seq::new(number_of_edges as nat, |j: int| false));
            lemma_count_false_none(edges@, number_of_edges as int);
            lemma_count_sets_alone(roots_of(cells), number_of_cells as int);
        }
        Some(Generator { width, height, config, edges, visited, weights, cells })
    }

    /// Sum of all weights.
    pub fn total(&self) -> (r: u64)
        requires
            self.wf(),
        ensures
            r == total_of(self@),
    {
        self.weights.get_final_sum()
    }

    /// Consumes the wall at which the running sum of the weights reaches
    /// `draw`, and removes it if its two cells are not yet connected.
    /// Returns whether the wall was removed.
    pub fn step(&mut self, draw: u64) -> (removed: bool)
        requires
            old(self).wf(),
            1 <= draw <= total_of(old(self)@),
        ensures
            final(self).wf(),
            step_spec(old(self)@, draw as int, final(self)@, removed),
    {
        let ghost o = self@;
        let ghost w = self.width as int;
        let ghost h = self.height as int;
        let ghost e = num_edges(w, h);
        proof {
            lemma_dims_bounds(w, h);
            lemma_edges_bound(w, h);
            lemma_bounds_total(o.weights);
        }
        let i = match self.weights.get_lower(draw) {
            Ok(i) => i,
            Err(_) => 0,
        };
        proof {
            assert(o.weights[i as int] > 0);
            lemma_wall_cells(w, h, i as int);
            lemma_edge_coord_of_id(w, h, i as int);
            lemma_set_fits(o.weights, i as int, 0);
        }
        let _ = self.weights.set(i, 0);
        self.visited.set(i, true);
        let (row, col) = match get_edge_coord(self.width, self.height, i) {
            Some(p) => p,
            None => (0, 0),
        };
        let (cell_a, cell_b) = if row % 2 == 0 {
            (
                cell_at(self.width, self.height, row, col - 1),
                cell_at(self.width, self.height, row, col + 1),
            )
        } else {
            (
                cell_at(self.width, self.height, row - 1, col),
                cell_at(self.width, self.height, row + 1, col),
            )
        };
        let joined_now = join(&mut self.cells, cell_a, cell_b);
        if !joined_now {
            proof {
                assert(self.weights@ =~= o.weights.update(i as int, 0));
                assert(step_spec(o, draw as int, self@, false));
                lemma_step_keeps_state(o, draw as int, self@, false);
            }
            return false;
        }
        self.edges.set(i, false);
        self.rescore_around(i);
        proof {
            assert(step_spec(o, draw as int, self@, true));
            lemma_step_keeps_state(o, draw as int, self@, true);
        }
        true
    }


    /// Weighs again, by its type among the walls now standing, each
    /// neighbour of wall `i` that has not been drawn.
    fn rescore_around(&mut self, i: usize)
        requires
            dims_ok(old(self).width as int, old(self).height as int),
            fits(old(self).width as int, old(self).height as int),
            old(self).weights.wf(),
            old(self).edges@.len() == num_edges(old(self).width as int, old(self).height as int),
            old(self).visited@.len() == old(self).edges@.len(),
            old(self).weights@.len() == old(self).edges@.len(),
            forall|j: int|
                0 <= j < old(self).weights@.len() ==> #[trigger] old(self).weights@[j] <= u32::MAX,
            i < old(self).edges@.len(),
        ensures
            final(self).weights.wf(),
            final(self).width == old(self).width,
            final(self).height == old(self).height,
            final(self).config == old(self).config,
            final(self).edges == old(self).edges,
            final(self).visited == old(self).visited,
            final(self).cells == old(self).cells,
            final(self).weights@.len() == old(self).weights@.len(),
            forall|j: int|
                0 <= j < old(self).weights@.len() ==> #[trigger] final(self).weights@[j] == if !old(
                    self,
                ).visited@[j] && neighbor_ids_of(
                    old(self).width as int,
                    old(self).height as int,
                    i as int,
                ).contains(j) {
                    weight_of(
                        old(self).config,
                        wall_type_of(
                            old(self).width as int,
                            old(self).height as int,
                            old(self).edges@,
                            j,
                        ),
                    ) as u64
                } else {
                    old(self).weights@[j]
                },
    {
        let ghost o = *self;
        let ghost w = self.width as int;
        let ghost h = self.height as int;
        let ghost e = num_edges(w, h);
        let ghost v1 = self.visited@;
        let ghost e1 = self.edges@;
        let ghost mid = self.weights@;
        let ghost nb = neighbor_ids_of(w, h, i as int);
        proof {
            lemma_edges_bound(w, h);
        }
        let n = match neighbor_ids(self.width, self.height, i) {
            Some(n) => n,
            None => Vec::new(),
        };
        let mut k: usize = 0;
        while k < n.len()
            invariant
                self.weights.wf(),
                self.width == w,
                self.height == h,
                self.config == o.config,
                self.edges == o.edges,
                self.visited == o.visited,
                self.cells == o.cells,
                self.edges@ == e1,
                self.visited@ == v1,
                self.weights@.len() == e,
                dims_ok(w, h),
                fits(w, h),
                v1.len() == e,
                e1.len() == e,
                forall|j: int| 0 <= j < e ==> #[trigger] self.weights@[j] <= u32::MAX,
                e == num_edges(w, h),
                e <= 2 * MAX_CELLS,
                mid.len() == e,
                n@.len() == nb.len(),
                forall|k2: int| 0 <= k2 < n@.len() ==> n@[k2] == nb[k2],
                forall|k2: int| 0 <= k2 < n@.len() ==> n@[k2] < e,
                k <= n@.len(),
                forall|j: int|
                    0 <= j < e ==> #[trigger] self.weights@[j] == if !v1[j] && listed(nb, k as int, j) {
                        weight_of(o.config, wall_type_of(w, h, e1, j)) as u64
                    } else {
                        mid[j]
                    },
            decreases n@.len() - k,
        {
            let j = n[k];
            let ghost before = self.weights@;
            if !self.visited[j] {
                let weight = match get_weight(self.width, self.height, &self.edges, &self.config, j) {
                    Some(v) => v,
                    None => 0,
                };
                proof {
                    lemma_bounds_total(self.weights@);
                    lemma_set_fits(self.weights@, j as int, weight as u64);
                }
                let _ = self.weights.set(j, weight as u64);
            }
            proof {
                assert forall|j2: int| 0 <= j2 < e implies self.weights@[j2] == if !v1[j2] && listed(
                    nb,
                    k + 1,
                    j2,
                ) {
                    weight_of(o.config, wall_type_of(w, h, e1, j2)) as u64
                } else {
                    mid[j2]
                } by {
                    assert(listed(nb, k + 1, j2) == (nb[k as int] == j2 || listed(nb, k as int, j2)));
                    assert(before[j2] == if !v1[j2] && listed(nb, k as int, j2) {
                        weight_of(o.config, wall_type_of(w, h, e1, j2)) as u64
                    } else {
                        mid[j2]
                    });
                }
            }
            k = k + 1;
        }
        proof {
            assert forall|j: int| 0 <= j < e implies (nb.contains(j) <==> listed(nb, nb.len() as int, j))
                by {
                lemma_listed(nb, nb.len() as int, j);
            }
        }
    }

    /// Draws walls with `rng` until every wall has been drawn or no weight is
    /// left.
    pub fn run(&mut self, rng: &mut StdRng)
        requires
            old(self).wf(),
        ensures
            final(self).wf(),
            state_ok(final(self)@),
            run_spec(old(self)@, final(self)@),
            exists|states: Seq<GeneratorView>, draws: Seq<int>|
                is_run(states, draws) && states[0] == old(self)@ && states.last() == final(self)@,
    {
        let ghost o = self@;
        let ghost mut states: Seq<GeneratorView> = seq![self@];
        let ghost mut draws: Seq<int> = Seq::empty();
        let number_of_edges = self.edges.len();
        let mut k: usize = 0;
        proof {
            lemma_count_false_bound(self.visited@, number_of_edges as int);
        }
        while k < number_of_edges && self.weights.get_final_sum() > 0
            invariant
                self.wf(),
                self@.width == o.width,
                self@.height == o.height,
                self@.config == o.config,
                number_of_edges == self@.edges.len(),
                k <= number_of_edges,
                count_false(self@.visited, number_of_edges as int) + k <= number_of_edges,
                forall|j: int| 0 <= j < number_of_edges && !o.edges[j] ==> !self@.edges[j],
                forall|j: int| 0 <= j < number_of_edges && o.visited[j] ==> self@.visited[j],
                k == 0 ==> self@ == o,
                k > 0 ==> total_of(o) > 0,
                is_run(states, draws),
                states[0] == o,
                states.last() == self@,
            decreases number_of_edges - k,
        {
            let total = self.weights.get_final_sum();
            let draw = draw_between(rng, 1, total);
            let ghost before = self@;
            let removed = self.step(draw);
            proof {
                let i = lower_index(before.weights, draw as int);
                crate::fenwick_tree::lemma_lower_index_in_range(before.weights, draw as int);
                assert(!before.visited[i]);
                lemma_count_false_update(before.visited, number_of_edges as int, i);
                let old_states = states;
                let old_draws = draws;
                states = states.push(self@);
                draws = draws.push(draw as int);
                assert forall|t: int| 0 <= t < draws.len() implies 1 <= #[trigger] draws[t]
                    <= total_of(states[t]) && state_ok(states[t]) && (step_spec(
                    states[t],
                    draws[t],
                    states[t + 1],
                    true,
                ) || step_spec(states[t], draws[t], states[t + 1], false)) by {
                    if t < old_draws.len() {
                        assert(states[t] == old_states[t]);
                        assert(states[t + 1] == old_states[t + 1]);
                        assert(draws[t] == old_draws[t]);
                    } else {
                        assert(states[t] == before);
                        assert(step_spec(states[t], draws[t], states[t + 1], removed));
                    }
                }
                assert(state_ok(states.last()));
            }
            k = k + 1;
        }
        proof {
            let v = self@;
            if k >= number_of_edges {
                lemma_count_false_zero(v.visited, number_of_edges as int);
                assert forall|j: int| 0 <= j < number_of_edges implies v.weights[j] == 0 by {
                    assert(v.visited[j]);
                }
            }
            lemma_total_zero(v.weights);
            if all_positive(o.config) {
                assert forall|j: int| 0 <= j < number_of_edges implies v.visited[j] by {
                    if !v.visited[j] {
                        assert(weight_of(o.config, wall_type_of(v.width, v.height, v.edges, j)) > 0);
                    }
                }
                assert forall|j: int| 0 <= j < number_of_edges implies joined(
                    v.roots,
                    #[trigger] wall_cells(v.width, j).0,
                    wall_cells(v.width, j).1,
                ) by {
                    assert(v.visited[j]);
                }
                lemma_cells_connected(v.width, v.height, v.roots);
                assert(v.width * v.height >= 4) by (nonlinear_arith)
                    requires
                        v.width >= 2,
                        v.height >= 2,
                ;
                lemma_count_sets_one(v.roots, num_cells(v.width, v.height));
            }
        }
    }


    /// Whether the wall numbered `id` stands.
    pub fn is_standing(&self, id: usize) -> (r: bool)
        requires
            self.wf(),
            id < num_edges(self@.width, self@.height),
        ensures
            r == self@.edges[id as int],
    {
        self.edges[id]
    }

    /// The maze left by this generator.
    pub fn into_maze(self) -> (m: Maze)
        requires
            self.wf(),
        ensures
            m.wf(),
            m.spec_width() == self@.width,
            m.spec_height() == self@.height,
            m@ == self@.edges,
    {
        Maze::from_walls(self.width, self.height, self.edges)
    }
}


/// What a completed run leaves: no weight anywhere, every wall that was
/// removed before still removed, and every wall drawn before still drawn.
pub open spec fn run_spec(o: GeneratorView, f: GeneratorView) -> bool {
    let e = num_edges(o.width, o.height);
    &&& f.width == o.width && f.height == o.height && f.config == o.config
    &&& total_of(f) == 0
    &&& forall|j: int| 0 <= j < e ==> f.weights[j] == 0
    &&& forall|j: int| 0 <= j < e && !o.edges[j] ==> !f.edges[j]
    &&& forall|j: int| 0 <= j < e && o.visited[j] ==> f.visited[j]
    &&& total_of(o) == 0 ==> f.edges == o.edges
    &&& all_positive(o.config) ==> forall|j: int| 0 <= j < e ==> f.visited[j]
    &&& all_positive(o.config) ==> forall|x: int|
        0 <= x < num_cells(o.width, o.height) ==> joined(f.roots, x, 0)
    &&& all_positive(o.config) ==> count_false(f.edges, e) == num_cells(o.width, o.height) - 1
}

/// Whether every wall type has a positive weight.
pub open spec fn all_positive(config: WallWeights) -> bool {
    forall|t: WallType| #[trigger] weight_of(config, t) > 0
}

/// When the cells on either side of every wall are in one set, all cells
/// are in the set of the first.
pub proof fn lemma_cells_connected(w: int, h: int, roots: Seq<nat>)
    requires
        dims_ok(w, h),
        roots.len() == num_cells(w, h),
        forall|j: int|
            0 <= j < num_edges(w, h) ==> joined(
                roots,
                #[trigger] wall_cells(w, j).0,
                wall_cells(w, j).1,
            ),
    ensures
        forall|x: int| 0 <= x < num_cells(w, h) ==> joined(roots, x, 0),
{
    assert forall|x: int| 0 <= x < num_cells(w, h) implies joined(roots, x, 0) by {
        lemma_cell_joined_to_first(w, h, roots, x);
    }
}

proof fn lemma_cell_joined_to_first(w: int, h: int, roots: Seq<nat>, x: int)
    requires
        dims_ok(w, h),
        roots.len() == num_cells(w, h),
        forall|j: int|
            0 <= j < num_edges(w, h) ==> joined(
                roots,
                #[trigger] wall_cells(w, j).0,
                wall_cells(w, j).1,
            ),
        0 <= x < num_cells(w, h),
    ensures
        joined(roots, x, 0),
    decreases x,
{
    if x > 0 {
        vstd::arithmetic::div_mod::lemma_fundamental_div_mod(x, w);
        let q = x / w;
        let m = x % w;
        assert(0 <= q < h) by (nonlinear_arith)
            requires
                x == w * q + m,
                0 <= m < w,
                0 <= x < w * h,
        ;
        assert(w * q == q * w) by (nonlinear_arith);
        if m > 0 {
            let (r, c) = (2 * q, 2 * m - 1);
            crate::grid::lemma_edge_id_of_coord(w, h, r, c);
            let j = edge_id_of(w, r, c);
            assert(edge_coord_of(w, j) == (r, c));
            assert(wall_cells(w, j) == (x - 1, x));
            assert(joined(roots, wall_cells(w, j).0, wall_cells(w, j).1));
            lemma_cell_joined_to_first(w, h, roots, x - 1);
        } else {
            assert(q > 0) by (nonlinear_arith)
                requires
                    x == w * q + m,
                    m == 0,
                    x > 0,
                    w > 0,
            ;
            let (r, c) = (2 * q - 1, 0int);
            crate::grid::lemma_edge_id_of_coord(w, h, r, c);
            let j = edge_id_of(w, r, c);
            assert(edge_coord_of(w, j) == (r, c));
            assert(cell_id_of(w, r - 1, c) == (q - 1) * w) by {
                assert((r - 1) / 2 == q - 1);
            }
            assert((q - 1) * w == x - w) by (nonlinear_arith)
                requires
                    x == q * w,
            ;
            assert(wall_cells(w, j) == (x - w, x));
            assert(joined(roots, wall_cells(w, j).0, wall_cells(w, j).1));
            lemma_cell_joined_to_first(w, h, roots, x - w);
        }
    }
}

/// Number of `false` entries among the first `k` of `s`.
pub open spec fn count_false(s: Seq<bool>, k: int) -> int
    decreases k,
{
    if k <= 0 {
        0
    } else {
        count_false(s, k - 1) + if s[k - 1] {
            0int
        } else {
            1int
        }
    }
}

proof fn lemma_count_false_bound(s: Seq<bool>, k: int)
    requires
        0 <= k <= s.len(),
    ensures
        0 <= count_false(s, k) <= k,
    decreases k,
{
    if k > 0 {
        lemma_count_false_bound(s, k - 1);
    }
}

proof fn lemma_count_false_update(s: Seq<bool>, k: int, i: int)
    requires
        0 <= i < k <= s.len(),
        !s[i],
    ensures
        count_false(s.update(i, true), k) == count_false(s, k) - 1,
    decreases k,
{
    if k - 1 > i {
        lemma_count_false_update(s, k - 1, i);
    } else {
        lemma_count_false_same(s, k - 1, i, true);
    }
}

proof fn lemma_count_false_same(s: Seq<bool>, k: int, i: int, v: bool)
    requires
        0 <= k <= i < s.len(),
    ensures
        count_false(s.update(i, v), k) == count_false(s, k),
    decreases k,
{
    if k > 0 {
        lemma_count_false_same(s, k - 1, i, v);
    }
}

proof fn lemma_count_false_clear(s: Seq<bool>, k: int, i: int)
    requires
        0 <= i < k <= s.len(),
        s[i],
    ensures
        count_false(s.update(i, false), k) == count_false(s, k) + 1,
    decreases k,
{
    if k - 1 > i {
        lemma_count_false_clear(s, k - 1, i);
    } else {
        lemma_count_false_same(s, k - 1, i, false);
    }
}

proof fn lemma_count_false_none(s: Seq<bool>, k: int)
    requires
        0 <= k <= s.len(),
        forall|j: int| 0 <= j < k ==> s[j],
    ensures
        count_false(s, k) == 0,
    decreases k,
{
    if k > 0 {
        lemma_count_false_none(s, k - 1);
    }
}

proof fn lemma_count_false_zero(s: Seq<bool>, k: int)
    requires
        0 <= k <= s.len(),
        count_false(s, k) <= 0,
    ensures
        forall|j: int| 0 <= j < k ==> s[j],
    decreases k,
{
    if k > 0 {
        lemma_count_false_bound(s, k - 1);
        lemma_count_false_zero(s, k - 1);
    }

}


/// The state in which a generator starts.
pub open spec fn initial_state(v: GeneratorView, w: int, h: int, config: WallWeights) -> bool {
    let e = num_edges(w, h);
    &&& state_ok(v)
    &&& v.width == w && v.height == h && v.config == config
    &&& v.edges == Seq::new(e as nat, |j: int| true)
    &&& v.visited == Seq::new(e as nat, |j: int| false)
    &&& forall|j: int| 0 <= j < e ==> v.weights[j] == weight_of(config, wall_type_of(w, h, v.edges, j))
    &&& forall|x: int, y: int|
        0 <= x < num_cells(w, h) && 0 <= y < num_cells(w, h) ==> (joined(v.roots, x, y) <==> x == y)
}

/// Whether `states` are the successive states of a generator that drew
/// `draws`: each draw lies between one and the total of the state before it
/// and leads to the next state.
pub open spec fn is_run(states: Seq<GeneratorView>, draws: Seq<int>) -> bool {
    &&& states.len() == draws.len() + 1
    &&& state_ok(states.last())
    &&& forall|t: int|
        0 <= t < draws.len() ==> 1 <= #[trigger] draws[t] <= total_of(states[t]) && state_ok(
            states[t],
        ) && (step_spec(states[t], draws[t], states[t + 1], true) || step_spec(
            states[t],
            draws[t],
            states[t + 1],
            false,
        ))
}

/// Two states that differ at most in how their partitions are represented.
pub open spec fn same_state(a: GeneratorView, b: GeneratorView) -> bool {
    &&& a.width == b.width && a.height == b.height && a.config == b.config
    &&& a.edges == b.edges && a.visited == b.visited && a.weights == b.weights
    &&& a.roots.len() == b.roots.len()
    &&& forall|x: int, y: int|
        0 <= x < a.roots.len() && 0 <= y < a.roots.len() ==> (joined(a.roots, x, y) <==> joined(
            b.roots,
            x,
            y,
        ))
}

/// The outcome of a draw depends on nothing but the state and the number
/// drawn.
pub proof fn lemma_step_determined(
    o1: GeneratorView,
    o2: GeneratorView,
    draw: int,
    f1: GeneratorView,
    r1: bool,
    f2: GeneratorView,
    r2: bool,
)
    requires
        state_ok(o1),
        same_state(o1, o2),
        1 <= draw <= total_of(o1),
        step_spec(o1, draw, f1, r1),
        step_spec(o2, draw, f2, r2),
    ensures
        r1 == r2,
        same_state(f1, f2),
{
    let i = lower_index(o1.weights, draw);
    crate::fenwick_tree::lemma_lower_index_in_range(o1.weights, draw);
    lemma_wall_cells(o1.width, o1.height, i);
    assert(f1.weights =~= f2.weights);
}

/// Runs that start from the same state and draw the same numbers pass
/// through the same states.
pub proof fn lemma_run_determined(s1: Seq<GeneratorView>, s2: Seq<GeneratorView>, draws: Seq<int>)
    requires
        is_run(s1, draws),
        is_run(s2, draws),
        same_state(s1[0], s2[0]),
    ensures
        forall|t: int| 0 <= t < s1.len() ==> same_state(#[trigger] s1[t], s2[t]),
{
    assert forall|t: int| 0 <= t < s1.len() implies same_state(#[trigger] s1[t], s2[t]) by {
        lemma_run_prefix(s1, s2, draws, t);
    }
}

proof fn lemma_run_prefix(s1: Seq<GeneratorView>, s2: Seq<GeneratorView>, draws: Seq<int>, t: int)
    requires
        is_run(s1, draws),
        is_run(s2, draws),
        same_state(s1[0], s2[0]),
        0 <= t < s1.len(),
    ensures
        same_state(s1[t], s2[t]),
    decreases t,
{
    if t > 0 {
        lemma_run_prefix(s1, s2, draws, t - 1);
        let u = t - 1;
        assert(1 <= draws[u] <= total_of(s1[u]) && state_ok(s1[u]));
        let r1 = step_spec(s1[u], draws[u], s1[u + 1], true);
        let r2 = step_spec(s2[u], draws[u], s2[u + 1], true);
        lemma_step_determined(s1[u], s2[u], draws[u], s1[t], r1, s2[t], r2);
    }
}

/// How one draw changes a generator: the drawn wall is the first at which
/// the running sum of weights reaches `draw`; it is consumed, and removed
/// exactly when its cells were not connected. After a removal the cells'
/// sets are merged, and each neighbour not yet drawn takes the weight of its
/// new type.
pub open spec fn step_spec(o: GeneratorView, draw: int, f: GeneratorView, removed: bool) -> bool {
    let e = num_edges(o.width, o.height);
    let i = lower_index(o.weights, draw);
    let (a, b) = wall_cells(o.width, i);
    &&& removed == !joined(o.roots, a, b)
    &&& f.width == o.width && f.height == o.height && f.config == o.config
    &&& f.visited == o.visited.update(i, true)
    &&& f.edges == if removed {
        o.edges.update(i, false)
    } else {
        o.edges
    }
    &&& f.roots.len() == o.roots.len()
    &&& forall|x: int, y: int|
        0 <= x < o.roots.len() && 0 <= y < o.roots.len() ==> (joined(f.roots, x, y) <==> (joined(
            o.roots,
            x,
            y,
        ) || (removed && ((joined(o.roots, x, a) && joined(o.roots, y, b)) || (joined(
            o.roots,
            x,
            b,
        ) && joined(o.roots, y, a))))))
    &&& f.weights.len() == o.weights.len()
    &&& forall|j: int|
        0 <= j < e ==> f.weights[j] == if j == i {
            0
        } else if removed && neighbor_ids_of(o.width, o.height, i).contains(j) && !f.visited[j] {
            weight_of(o.config, wall_type_of(o.width, o.height, f.edges, j)) as u64
        } else {
            o.weights[j]
        }
}

/// Whether `j` is among the first `k` entries of `s`.
spec fn listed(s: Seq<int>, k: int, j: int) -> bool
    decreases k,
{
    k > 0 && (s[k - 1] == j || listed(s, k - 1, j))
}

proof fn lemma_listed(s: Seq<int>, k: int, j: int)
    requires
        0 <= k <= s.len(),
    ensures
        listed(s, k, j) <==> exists|i: int| 0 <= i < k && s[i] == j,
    decreases k,
{
    if k > 0 {
        lemma_listed(s, k - 1, j);
        if s[k - 1] == j {
            assert(0 <= k - 1 < k && s[k - 1] == j);
        }
        if exists|i: int| 0 <= i < k && s[i] == j {
            let i = choose|i: int| 0 <= i < k && s[i] == j;
            if i < k - 1 {
                assert(0 <= i < k - 1 && s[i] == j);
            }
        }
    }
}

/// A draw keeps the generator's invariant.
pub proof fn lemma_step_keeps_state(o: GeneratorView, draw: int, f: GeneratorView, removed: bool)
    requires
        state_ok(o),
        1 <= draw <= total_of(o),
        step_spec(o, draw, f, removed),
    ensures
        state_ok(f),
{
    let w = o.width;
    let h = o.height;
    let e = num_edges(w, h);
    let c = num_cells(w, h);
    let i = lower_index(o.weights, draw);
    let (a, b) = wall_cells(w, i);
    crate::fenwick_tree::lemma_lower_index_in_range(o.weights, draw);
    lemma_wall_cells(w, h, i);
    assert(!o.visited[i]);
    assert(o.edges[i]);
    assert forall|j: int| 0 <= j < e && #[trigger] f.visited[j] implies joined(
        f.roots,
        wall_cells(w, j).0,
        wall_cells(w, j).1,
    ) by {
        lemma_wall_cells(w, h, j);
    }
    if removed {
        assert forall|labels: Seq<int>, x: int, y: int|
            #![trigger respects(labels, w, h, f.edges), joined(f.roots, x, y)]
            respects(labels, w, h, f.edges) && 0 <= x < c && 0 <= y < c && joined(f.roots, x, y)
            implies labels[x] == labels[y] by {
            assert(!f.edges[i]);
            assert(labels[a] == labels[b]);
            assert forall|j: int| 0 <= j < e && !#[trigger] o.edges[j] implies labels[wall_cells(
                w,
                j,
            ).0] == labels[wall_cells(w, j).1] by {
                assert(!f.edges[j]);
            }
            assert(respects(labels, w, h, o.edges));
            if joined(o.roots, x, y) {
            } else if joined(o.roots, x, a) && joined(o.roots, y, b) {
                assert(labels[x] == labels[a]);
                assert(labels[y] == labels[b]);
            } else {
                assert(joined(o.roots, x, b) && joined(o.roots, y, a));
                assert(labels[x] == labels[b]);
                assert(labels[y] == labels[a]);
            }
        }
        lemma_count_false_clear(o.edges, e, i);
        lemma_count_sets_merge(o.roots, f.roots, c, a, b);
        let nb = neighbor_ids_of(w, h, i);
        assert forall|j: int| 0 <= j < e && !#[trigger] f.visited[j] implies f.weights[j]
            == weight_of(o.config, wall_type_of(w, h, f.edges, j)) by {
            if !nb.contains(j) {
                if neighbor_ids_of(w, h, j).contains(i) {
                    lemma_neighbor_ids_symmetric(w, h, j, i);
                }
                lemma_wall_type_frame(w, h, o.edges, i, false, j);
            }
        }
    } else {
        assert forall|labels: Seq<int>, x: int, y: int|
            #![trigger respects(labels, w, h, f.edges), joined(f.roots, x, y)]
            respects(labels, w, h, f.edges) && 0 <= x < c && 0 <= y < c && joined(f.roots, x, y)
            implies labels[x] == labels[y] by {
            assert(respects(labels, w, h, o.edges));
            assert(joined(o.roots, x, y));
        }
        assert forall|x: int| 0 <= x < c implies is_first(o.roots, x) == is_first(f.roots, x) by {
            assert forall|y: int| 0 <= y < x implies joined(o.roots, y, x) == joined(f.roots, y, x) by {}
        }
        lemma_count_sets_same(o.roots, f.roots, c);
    }
}

/// Weights of at most `u32::MAX` each, for no more walls than a maze that
/// fits can have, add up to less than `u64::MAX` by at least `u32::MAX`.
proof fn lemma_bounds_total(s: Seq<u64>)
    requires
        s.len() <= 2 * MAX_CELLS,
        forall|j: int| 0 <= j < s.len() ==> s[j] <= u32::MAX,
    ensures
        prefix(s, s.len() as int) + u32::MAX <= u64::MAX,
{
    lemma_prefix_bounded(s, s.len() as int, u32::MAX as int);
    assert((s.len() as int) * (u32::MAX as int) <= 2 * MAX_CELLS * u32::MAX) by (nonlinear_arith)
        requires
            s.len() <= 2 * MAX_CELLS,
    ;
}

/// Setting one weight to at most `u32::MAX` keeps the total within `u64`.
proof fn lemma_set_fits(s: Seq<u64>, j: int, v: u64)
    requires
        0 <= j < s.len(),
        s.len() <= 2 * MAX_CELLS,
        v <= u32::MAX,
        forall|k: int| 0 <= k < s.len() ==> s[k] <= u32::MAX,
    ensures
        prefix(s, s.len() as int) - s[j] + v <= u64::MAX,
{
    lemma_bounds_total(s);
    crate::fenwick_tree::lemma_prefix_monotone(s, j, j + 1);
    crate::fenwick_tree::lemma_prefix_monotone(s, 0, j);
    crate::fenwick_tree::lemma_prefix_monotone(s, j + 1, s.len() as int);
}

proof fn lemma_edges_bound(w: int, h: int)
    requires
        dims_ok(w, h),
        fits(w, h),
    ensures
        num_edges(w, h) <= 2 * MAX_CELLS,
{
    lemma_dims_bounds(w, h);
    assert(2 * w * h == 2 * (w * h)) by (nonlinear_arith);
}

/// Number of a position known to be a cell.
fn cell_at(width: usize, height: usize, row: usize, col: usize) -> (r: usize)
    requires
        dims_ok(width as int, height as int),
        is_cell(width as int, height as int, row as int, col as int),
    ensures
        r == cell_id_of(width as int, row as int, col as int),
{
    match get_cell_id(width, height, row, col) {
        Some(id) => id,
        None => 0,
    }
}

} // verus!

//! Wall weights and the mazes that the generator builds.
use crate::fenwick_tree::lemma_total_zero;
use crate::generator::{
    all_positive, count_false, initial_state, is_run, lemma_run_determined, lemma_wall_cells,
    respects, run_spec, same_state, state_ok, wall_cells,
    Generator, GeneratorView,
};
use crate::partition::{count_sets, lemma_count_sets_positive};
use crate::grid::{dims_ok, edge_id_of, get_edge_id, is_wall, num_cells, num_edges};
use crate::partition::joined;
use crate::random::os_seeded_rng;
use crate::wall_type::{get_wall_type, wall_type_of, WallType};
use rand::rngs::StdRng;
use vstd::prelude::*;

verus! {

/// The largest number of cells a maze may have: it keeps the sum of all wall
/// weights within a `u64`.
pub const MAX_CELLS: u64 = 0x8000_0000;

/// Dimensions whose maze the generator can hold.
pub open spec fn fits(w: int, h: int) -> bool {
    w * h <= MAX_CELLS && 4 * w * h <= usize::MAX
}

/// The weight of each wall type. A border wall uses the weight of its
/// inner side paired with an empty side.
#[derive(Debug, Clone, Copy)]
pub struct WallWeights {
    pub type_111x111: u32,
    pub type_111x011: u32,
    pub type_111x101: u32,
    pub type_111x100: u32,
    pub type_111x010: u32,
    pub type_111x000: u32,
    pub type_101x101: u32,
    pub type_101x011: u32,
    pub type_101x010: u32,
    pub type_101x001: u32,
    pub type_101x000: u32,
    pub type_011x011: u32,
    pub type_011x110: u32,
    pub type_011x010: u32,
    pub type_011x001: u32,
    pub type_011x100: u32,
    pub type_011x000: u32,
    pub type_010x010: u32,
    pub type_010x100: u32,
    pub type_010x000: u32,
    pub type_001x001: u32,
    pub type_001x100: u32,
    pub type_001x000: u32,
    pub type_000x000: u32,
}

/// The weight that `config` gives to walls of type `t`.
pub open spec fn weight_of(config: WallWeights, t: WallType) -> u32 {
    match t {
        WallType::Type111x111 => config.type_111x111,
        WallType::Type111x011 => config.type_111x011,
        WallType::Type111x101 => config.type_111x101,
        WallType::Type111x100 => config.type_111x100,
        WallType::Type111x010 => config.type_111x010,
        WallType::Type111x000 => config.type_111x000,
        WallType::Type101x101 => config.type_101x101,
        WallType::Type101x011 => config.type_101x011,
        WallType::Type101x010 => config.type_101x010,
        WallType::Type101x001 => config.type_101x001,
        WallType::Type101x000 => config.type_101x000,
        WallType::Type011x011 => config.type_011x011,
        WallType::Type011x110 => config.type_011x110,
        WallType::Type011x010 => config.type_011x010,
        WallType::Type011x001 => config.type_011x001,
        WallType::Type011x100 => config.type_011x100,
        WallType::Type011x000 => config.type_011x000,
        WallType::Type010x010 => config.type_010x010,
        WallType::Type010x100 => config.type_010x100,
        WallType::Type010x000 => config.type_010x000,
        WallType::Type001x001 => config.type_001x001,
        WallType::Type001x100 => config.type_001x100,
        WallType::Type001x000 => config.type_001x000,
        WallType::Type000x000 => config.type_000x000,
    }
}

/// The weight of the wall numbered `id`, or `None` past the last wall.
pub fn get_weight(
    width: usize,
    height: usize,
    edges: &Vec<bool>,
    config: &WallWeights,
    id: usize,
) -> (r: Option<u32>)
    requires
        dims_ok(width as int, height as int),
        edges@.len() == num_edges(width as int, height as int),
    ensures
        r.is_some() <==> id < num_edges(width as int, height as int),
        r.is_some() ==> r.unwrap() == weight_of(
            *config,
            wall_type_of(width as int, height as int, edges@, id as int),
        ),
{
    let t = match get_wall_type(width, height, edges, id) {
        Some(t) => t,
        None => return None,
    };
    match t {
        WallType::Type111x111 => Some(config.type_111x111),
        WallType::Type111x011 => Some(config.type_111x011),
        WallType::Type111x101 => Some(config.type_111x101),
        WallType::Type111x100 => Some(config.type_111x100),
        WallType::Type111x010 => Some(config.type_111x010),
        WallType::Type111x000 => Some(config.type_111x000),
        WallType::Type101x101 => Some(config.type_101x101),
        WallType::Type101x011 => Some(config.type_101x011),
        WallType::Type101x010 => Some(config.type_101x010),
        WallType::Type101x001 => Some(config.type_101x001),
        WallType::Type101x000 => Some(config.type_101x000),
        WallType::Type011x011 => Some(config.type_011x011),
        WallType::Type011x110 => Some(config.type_011x110),
        WallType::Type011x010 => Some(config.type_011x010),
        WallType::Type011x001 => Some(config.type_011x001),
        WallType::Type011x100 => Some(config.type_011x100),
        WallType::Type011x000 => Some(config.type_011x000),
        WallType::Type010x010 => Some(config.type_010x010),
        WallType::Type010x100 => Some(config.type_010x100),
        WallType::Type010x000 => Some(config.type_010x000),
        WallType::Type001x001 => Some(config.type_001x001),
        WallType::Type001x100 => Some(config.type_001x100),
        WallType::Type001x000 => Some(config.type_001x000),
        WallType::Type000x000 => Some(config.type_000x000),
    }
}

/// A finished maze: its dimensions and which of its walls stand.
#[derive(Debug)]
pub struct Maze {
    width: usize,
    height: usize,
    edges: Vec<bool>,
}

impl View for Maze {
    type V = Seq<bool>;

    closed spec fn view(&self) -> Seq<bool> {
        self.edges@
    }
}

impl Maze {
    pub closed spec fn spec_width(&self) -> int {
        self.width as int
    }

    pub closed spec fn spec_height(&self) -> int {
        self.height as int
    }

    pub closed spec fn wf(&self) -> bool {
        &&& dims_ok(self.width as int, self.height as int)
        &&& self.edges@.len() == num_edges(self.width as int, self.height as int)
    }

    /// The maze of the given dimensions whose walls stand as `edges` says.
    pub(crate) fn from_walls(width: usize, height: usize, edges: Vec<bool>) -> (m: Maze)
        requires
            dims_ok(width as int, height as int),
            edges@.len() == num_edges(width as int, height as int),
        ensures
            m.wf(),
            m.spec_width() == width,
            m.spec_height() == height,
            m@ == edges@,
    {
        Maze { width, height, edges }
    }

    /// Generates a `width × height` maze with a generator seeded by the
    /// operating system. `None` when either dimension is below two, or when
    /// the operating system could not supply a seed.
    pub fn build(width: usize, height: usize, config: WallWeights) -> (r: Option<Maze>)
        requires
            fits(width as int, height as int),
        ensures
            width < 2 || height < 2 ==> r.is_none(),
            r.is_some() ==> width >= 2 && height >= 2 && generated(
                r.unwrap(),
                width as int,
                height as int,
                config,
            ),
    {
        if width < 2 || height < 2 {
            return None;
        }
        match os_seeded_rng() {
            Some(mut rng) => Maze::build_with_rng(width, height, config, &mut rng),
            None => None,
        }
    }

    /// Generates a `width × height` maze drawing from `rng`; `None` when
    /// either dimension is below two.
    pub fn build_with_rng(width: usize, height: usize, config: WallWeights, rng: &mut StdRng) -> (r:
        Option<Maze>)
        requires
            fits(width as int, height as int),
        ensures
            r.is_some() <==> width >= 2 && height >= 2,
            r.is_some() ==> generated(r.unwrap(), width as int, height as int, config),
    {
        let mut g = match Generator::new(width, height, config) {
            Some(g) => g,
            None => return None,
        };
        let ghost o = g@;
        g.run(rng);
        let ghost f = g@;
        let m = g.into_maze();
        proof {
            let (states, draws) = choose|states: Seq<GeneratorView>, draws: Seq<int>|
                is_run(states, draws) && states[0] == o && states.last() == f;
            assert(built_by(m, width as int, height as int, config, states, draws));
        }
        Some(m)
    }

    pub fn width(&self) -> (r: usize)
        ensures
            r == self.spec_width(),
    {
        self.width
    }

    pub fn height(&self) -> (r: usize)
        ensures
            r == self.spec_height(),
    {
        self.height
    }

    /// Whether each wall stands, by wall number.
    pub fn edges(&self) -> (r: &Vec<bool>)
        ensures
            r@ == self@,
    {
        &self.edges
    }

    /// Whether `(row, col)` is a wall of the lattice that stands.
    pub fn wall_at(&self, row: usize, col: usize) -> (r: bool)
        requires
            self.wf(),
        ensures
            r == (is_wall(self.spec_width(), self.spec_height(), row as int, col as int)
                && self@[edge_id_of(self.spec_width(), row as int, col as int)]),
    {
        match get_edge_id(self.width, self.height, row, col) {
            Some(id) => {
                proof {
                    crate::grid::lemma_edge_id_of_coord(
                        self.width as int,
                        self.height as int,
                        row as int,
                        col as int,
                    );
                }
                self.edges[id]
            },
            None => false,
        }
    }
}

/// What holds of every maze that a run of the generator leaves: it is the
/// wall bitmap after some sequence of draws, each between one and the total
/// weight left, starting with every wall standing and ending with no weight
/// left.
pub open spec fn generated(m: Maze, w: int, h: int, config: WallWeights) -> bool {
    &&& m.wf()
    &&& m.spec_width() == w && m.spec_height() == h
    &&& exists|states: Seq<GeneratorView>, draws: Seq<int>| built_by(m, w, h, config, states, draws)
}

/// Whether `m` is what the run through `states`, drawing `draws`, leaves.
pub open spec fn built_by(
    m: Maze,
    w: int,
    h: int,
    config: WallWeights,
    states: Seq<GeneratorView>,
    draws: Seq<int>,
) -> bool {
    &&& is_run(states, draws)
    &&& initial_state(states[0], w, h, config)
    &&& run_spec(states[0], states.last())
    &&& m@ == states.last().edges
}

/// A maze is fixed by its dimensions, its weights and the numbers drawn:
/// mazes built from the same draws have the same walls.
pub proof fn lemma_build_determined(
    m1: Maze,
    m2: Maze,
    w: int,
    h: int,
    config: WallWeights,
    s1: Seq<GeneratorView>,
    s2: Seq<GeneratorView>,
    draws: Seq<int>,
)
    requires
        built_by(m1, w, h, config, s1, draws),
        built_by(m2, w, h, config, s2, draws),
    ensures
        m1@ == m2@,
{
    let (a, b) = (s1[0], s2[0]);
    assert(a.weights =~= b.weights);
    assert(same_state(a, b));
    lemma_run_determined(s1, s2, draws);
    assert(same_state(s1[s1.len() - 1], s2[s2.len() - 1]));
}

/// The removed walls of every built maze form a forest: two cells share a
/// set of the run's final partition exactly when every labelling that agrees
/// across removed walls gives them one label, that is, exactly when removed
/// walls connect them; and the number of removed walls is the number of
/// cells less the number of those sets, which holds only when the removed
/// walls close no cycle.
pub proof fn lemma_removed_walls_form_forest(m: Maze, w: int, h: int, config: WallWeights)
    requires
        generated(m, w, h, config),
    ensures
        count_false(m@, num_edges(w, h)) <= num_cells(w, h) - 1,
        exists|f: GeneratorView|
            {
                &&& state_ok(f)
                &&& f.edges == m@
                &&& count_false(m@, num_edges(w, h)) + count_sets(f.roots, num_cells(w, h))
                    == num_cells(w, h)
                &&& forall|x: int, y: int|
                    0 <= x < num_cells(w, h) && 0 <= y < num_cells(w, h) ==> (joined(f.roots, x, y)
                        <==> forall|labels: Seq<int>|
                        respects(labels, w, h, m@) ==> #[trigger] labels[x] == labels[y])
            },
{
    let (states, draws) = choose|states: Seq<GeneratorView>, draws: Seq<int>|
        built_by(m, w, h, config, states, draws);
    let o = states[0];
    let f = states.last();
    let c = num_cells(w, h);
    assert(c >= 1) by (nonlinear_arith)
        requires
            c == w * h,
            w >= 2,
            h >= 2,
    ;
    lemma_count_sets_positive(f.roots, c);
    let own = Seq::new(c as nat, |z: int| f.roots[z] as int);
    assert(respects(own, w, h, m@)) by {
        assert forall|j: int| 0 <= j < num_edges(w, h) && !#[trigger] m@[j] implies own[wall_cells(
            w,
            j,
        ).0] == own[wall_cells(w, j).1] by {
            assert(f.visited[j]);
            lemma_wall_cells(w, h, j);
        }
    }
    assert forall|x: int, y: int| 0 <= x < c && 0 <= y < c implies (joined(f.roots, x, y) <==> forall|
        labels: Seq<int>,
    | respects(labels, w, h, m@) ==> #[trigger] labels[x] == labels[y]) by {
        if forall|labels: Seq<int>| respects(labels, w, h, m@) ==> #[trigger] labels[x] == labels[y] {
            assert(own[x] == own[y]);
        }
        if joined(f.roots, x, y) {
            assert forall|labels: Seq<int>| respects(labels, w, h, m@) implies #[trigger] labels[x]
                == labels[y] by {
                assert(respects(labels, f.width, f.height, f.edges) && joined(f.roots, x, y));
            }
        }
    }
}

/// Every maze built with positive weights for all wall types is a spanning
/// tree of its cells: exactly `width * height - 1` walls are removed, and
/// every labelling that agrees across removed walls gives all cells one
/// label, so removed walls connect every pair of cells.
pub proof fn lemma_positive_weights_span(m: Maze, w: int, h: int, config: WallWeights)
    requires
        generated(m, w, h, config),
        all_positive(config),
    ensures
        count_false(m@, num_edges(w, h)) == num_cells(w, h) - 1,
        forall|labels: Seq<int>, x: int|
            respects(labels, w, h, m@) && 0 <= x < num_cells(w, h) ==> #[trigger] labels[x]
                == labels[0],
{
    let (states, draws) = choose|states: Seq<GeneratorView>, draws: Seq<int>|
        built_by(m, w, h, config, states, draws);
    let o = states[0];
    let f = states.last();
    assert forall|labels: Seq<int>, x: int|
        respects(labels, w, h, m@) && 0 <= x < num_cells(w, h) implies #[trigger] labels[x]
        == labels[0] by {
        assert(joined(f.roots, x, 0));
        assert(respects(labels, f.width, f.height, f.edges) && joined(f.roots, x, 0));
    }
}

/// A maze built with zero weight for every wall type keeps all its walls:
/// nothing can be drawn.
pub proof fn lemma_zero_weights_keep_walls(m: Maze, w: int, h: int, config: WallWeights)
    requires
        generated(m, w, h, config),
        forall|t: WallType| #[trigger] weight_of(config, t) == 0,
    ensures
        forall|j: int| 0 <= j < num_edges(w, h) ==> m@[j],
{
    let (states, draws) = choose|states: Seq<GeneratorView>, draws: Seq<int>|
        built_by(m, w, h, config, states, draws);
    let o = states[0];
    let f = states.last();
    assert forall|j: int| 0 <= j < o.weights.len() implies o.weights[j] == 0 by {
        assert(weight_of(config, wall_type_of(w, h, o.edges, j)) == 0);
    }
    lemma_total_zero(o.weights);
}

} // verus!

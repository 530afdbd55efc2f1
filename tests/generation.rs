use maze::generator::Generator;
use maze::maze::{Maze, WallWeights};
use maze::wall_type::{get_wall_type, WallType};
use rand::rngs::StdRng;
use rand::{Rng, SeedableRng};

fn uniform(v: u32) -> WallWeights {
    WallWeights {
        type_111x111: v,
        type_111x011: v,
        type_111x101: v,
        type_111x100: v,
        type_111x010: v,
        type_111x000: v,
        type_101x101: v,
        type_101x011: v,
        type_101x010: v,
        type_101x001: v,
        type_101x000: v,
        type_011x011: v,
        type_011x110: v,
        type_011x010: v,
        type_011x001: v,
        type_011x100: v,
        type_011x000: v,
        type_010x010: v,
        type_010x100: v,
        type_010x000: v,
        type_001x001: v,
        type_001x100: v,
        type_001x000: v,
        type_000x000: v,
    }
}

fn removed(m: &Maze) -> usize {
    m.edges().iter().filter(|e| !**e).count()
}

// Cells reachable from cell 0 through removed walls.
fn reachable(m: &Maze) -> usize {
    let (w, h) = (m.width(), m.height());
    let mut seen = vec![false; w * h];
    let mut stack = vec![(0usize, 0usize)];
    seen[0] = true;
    let mut count = 1;
    while let Some((r, c)) = stack.pop() {
        let moves: [(isize, isize); 4] = [(-1, 0), (1, 0), (0, -1), (0, 1)];
        for (dr, dc) in moves.iter() {
            let nr = r as isize + dr;
            let nc = c as isize + dc;
            if nr < 0 || nc < 0 || nr >= h as isize || nc >= w as isize {
                continue;
            }
            let (nr, nc) = (nr as usize, nc as usize);
            let wr = r + nr;
            let wc = c + nc;
            if m.wall_at(wr, wc) || seen[nr * w + nc] {
                continue;
            }
            seen[nr * w + nc] = true;
            count += 1;
            stack.push((nr, nc));
        }
    }
    count
}

fn is_spanning_tree(m: &Maze) -> bool {
    let cells = m.width() * m.height();
    removed(m) == cells - 1 && reachable(m) == cells
}

#[test]
fn two_by_two_removes_three_walls() {
    for seed in 0..50 {
        let mut rng = StdRng::seed_from_u64(seed);
        let m = Maze::build_with_rng(2, 2, uniform(1), &mut rng).unwrap();
        assert_eq!(m.edges().len(), 4);
        assert_eq!(removed(&m), 3);
        assert!(is_spanning_tree(&m));
    }
}

#[test]
fn degenerate_dimensions() {
    assert!(Maze::build(1, 5, uniform(1)).is_none());
    assert!(Maze::build(5, 1, uniform(1)).is_none());
    assert!(Maze::build(0, 0, uniform(1)).is_none());
    assert!(Generator::new(1, 3, uniform(1)).is_none());
}

#[test]
fn three_by_three_with_seed() {
    let mut rng = StdRng::seed_from_u64(7);
    let m = Maze::build_with_rng(3, 3, uniform(1), &mut rng).unwrap();
    assert_eq!(m.edges().len(), 12);
    assert_eq!(removed(&m), 8);
    assert_eq!(reachable(&m), 9);
}

#[test]
fn only_full_crossings_weighted() {
    let mut config = uniform(0);
    config.type_111x111 = 1;
    let mut g = Generator::new(10, 10, config).unwrap();
    assert!(g.total() > 0);
    let mut rng = StdRng::seed_from_u64(3);
    g.run(&mut rng);
    assert_eq!(g.total(), 0);
    let m = g.into_maze();
    assert!(removed(&m) < 99);
}

#[test]
fn same_seed_same_maze() {
    for seed in 0..5 {
        let config = uniform(3);
        let a = Maze::build_with_rng(9, 6, config, &mut StdRng::seed_from_u64(seed)).unwrap();
        let b = Maze::build_with_rng(9, 6, config, &mut StdRng::seed_from_u64(seed)).unwrap();
        assert_eq!(a.edges(), b.edges());
    }
}

#[test]
fn random_sizes_give_spanning_trees() {
    let mut rng = StdRng::seed_from_u64(11);
    for _ in 0..40 {
        let w = rng.gen_range(2..=16);
        let h = rng.gen_range(2..=16);
        let mut config = uniform(1);
        config.type_010x010 = rng.gen_range(1..=9);
        config.type_111x000 = rng.gen_range(1..=9);
        config.type_000x000 = rng.gen_range(1..=9);
        let m = Maze::build_with_rng(w, h, config, &mut rng).unwrap();
        assert_eq!(m.width(), w);
        assert_eq!(m.height(), h);
        assert!(is_spanning_tree(&m), "{}x{}", w, h);
    }
}

#[test]
fn run_leaves_no_weight() {
    let mut rng = StdRng::seed_from_u64(5);
    let mut g = Generator::new(6, 4, uniform(2)).unwrap();
    g.run(&mut rng);
    assert_eq!(g.total(), 0);
}

#[test]
fn build_with_fresh_randomness() {
    let m = Maze::build(6, 5, uniform(1)).unwrap();
    assert!(is_spanning_tree(&m));
}

#[test]
fn step_takes_the_wall_the_draw_reaches() {
    // 2 x 2: every wall is on the border with all three inner neighbours
    // present, so each weighs the same at the start.
    let mut config = uniform(0);
    config.type_111x000 = 5;
    config.type_011x000 = 2;
    let mut g = Generator::new(2, 2, config).unwrap();
    assert_eq!(g.total(), 20);
    // draws 6..=10 reach the second wall
    assert!(g.step(6));
    assert!(!g.is_standing(1));
    // the first and last walls now read 011 (weight 2), the third 101 (weight 0)
    assert_eq!(g.total(), 4);
    assert!(g.step(1));
    assert!(!g.is_standing(0));
    assert!(g.is_standing(2));
    assert!(g.is_standing(3));
    // both remaining walls read 001, which weighs nothing here
    assert_eq!(g.total(), 0);
}

#[test]
fn wall_at_reads_the_lattice() {
    let mut rng = StdRng::seed_from_u64(1);
    let m = Maze::build_with_rng(4, 3, uniform(1), &mut rng).unwrap();
    let mut standing = 0;
    for r in 0..5 {
        for c in 0..7 {
            if m.wall_at(r, c) {
                assert!((r % 2 == 0) != (c % 2 == 0));
                standing += 1;
            }
        }
    }
    assert_eq!(standing, m.edges().len() - (4 * 3 - 1));
    assert!(!m.wall_at(0, 0));
    assert!(!m.wall_at(9, 9));
}

// Share of removals whose wall had type `Type111x111` just before it went.
fn share_of_full_crossings(config: WallWeights, runs: u64, rng: &mut StdRng) -> f64 {
    let (w, h) = (4usize, 4usize);
    let e = (w - 1) * h + (h - 1) * w;
    let mut hits = 0u64;
    let mut total = 0u64;
    for _ in 0..runs {
        let mut g = Generator::new(w, h, config).unwrap();
        while g.total() > 0 {
            let before: Vec<bool> = (0..e).map(|i| g.is_standing(i)).collect();
            let draw = rng.gen_range(1..=g.total());
            if g.step(draw) {
                let gone = (0..e).find(|&i| before[i] && !g.is_standing(i)).unwrap();
                total += 1;
                if get_wall_type(w, h, &before, gone) == Some(WallType::Type111x111) {
                    hits += 1;
                }
            }
        }
    }
    hits as f64 / total as f64
}

#[test]
fn selected_type_is_favoured() {
    let mut rng = StdRng::seed_from_u64(2024);
    let mut base = uniform(1);
    base.type_000x000 = 0;
    let mut biased = base;
    biased.type_111x111 = 10;
    let plain = share_of_full_crossings(base, 5000, &mut rng);
    let favoured = share_of_full_crossings(biased, 5000, &mut rng);
    assert!(favoured > plain, "{} <= {}", favoured, plain);
}

#[test]
fn all_zero_weights_remove_nothing() {
    let mut rng = StdRng::seed_from_u64(9);
    let m = Maze::build_with_rng(5, 4, uniform(0), &mut rng).unwrap();
    assert_eq!(removed(&m), 0);
    assert!(m.edges().iter().all(|e| *e));
}

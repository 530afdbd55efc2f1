use maze::grid::get_edge_id;
use maze::maze::WallWeights;
use maze::wall_type::{get_wall_type, WallType};

const W: usize = 5;
const H: usize = 5;

fn all_walls() -> Vec<bool> {
    vec![true; (W - 1) * H + (H - 1) * W]
}

fn id(r: usize, c: usize) -> usize {
    get_edge_id(W, H, r, c).unwrap()
}

// The neighbours of the vertical wall at (4, 3): its top end, then its bottom end.
fn vertical_sides() -> [(usize, usize); 6] {
    [(3, 2), (2, 3), (3, 4), (5, 2), (6, 3), (5, 4)]
}

// The neighbours of the horizontal wall at (3, 4): its left end, then its right end.
fn horizontal_sides() -> [(usize, usize); 6] {
    [(2, 3), (3, 2), (4, 3), (2, 5), (3, 6), (4, 5)]
}

fn classify(sides: [(usize, usize); 6], wall: (usize, usize), pattern: &str) -> WallType {
    let bits: Vec<bool> = pattern.chars().filter(|ch| *ch != 'x').map(|ch| ch == '1').collect();
    let mut edges = all_walls();
    for k in 0..6 {
        edges[id(sides[k].0, sides[k].1)] = bits[k];
    }
    get_wall_type(W, H, &edges, id(wall.0, wall.1)).unwrap()
}

#[test]
fn all_present_in_five_by_five() {
    let edges = all_walls();
    for r in 0..2 * H - 1 {
        for c in 0..2 * W - 1 {
            if let Some(i) = get_edge_id(W, H, r, c) {
                let border = r == 0 || r == 2 * H - 2 || c == 0 || c == 2 * W - 2;
                let expected = if border { WallType::Type111x000 } else { WallType::Type111x111 };
                assert_eq!(get_wall_type(W, H, &edges, i), Some(expected));
            }
        }
    }
    assert_eq!(get_wall_type(W, H, &edges, edges.len()), None);
}

const CLASSES: [(&str, WallType); 24] = [
    ("111x111", WallType::Type111x111),
    ("111x011", WallType::Type111x011),
    ("111x101", WallType::Type111x101),
    ("111x100", WallType::Type111x100),
    ("111x010", WallType::Type111x010),
    ("111x000", WallType::Type111x000),
    ("101x101", WallType::Type101x101),
    ("101x011", WallType::Type101x011),
    ("101x010", WallType::Type101x010),
    ("101x001", WallType::Type101x001),
    ("101x000", WallType::Type101x000),
    ("011x011", WallType::Type011x011),
    ("011x110", WallType::Type011x110),
    ("011x010", WallType::Type011x010),
    ("011x001", WallType::Type011x001),
    ("011x100", WallType::Type011x100),
    ("011x000", WallType::Type011x000),
    ("010x010", WallType::Type010x010),
    ("010x100", WallType::Type010x100),
    ("010x000", WallType::Type010x000),
    ("001x001", WallType::Type001x001),
    ("001x100", WallType::Type001x100),
    ("001x000", WallType::Type001x000),
    ("000x000", WallType::Type000x000),
];

#[test]
fn canonical_patterns_classify_as_themselves() {
    for (pattern, t) in CLASSES.iter() {
        assert_eq!(classify(vertical_sides(), (4, 3), pattern), *t, "{}", pattern);
        assert_eq!(classify(horizontal_sides(), (3, 4), pattern), *t, "{}", pattern);
    }
}

#[test]
fn listed_equivalents() {
    let groups: [&[&str]; 15] = [
        &["111x011", "111x110", "011x111", "110x111"],
        &["111x101", "101x111"],
        &["111x100", "111x001", "100x111", "001x111"],
        &["111x010", "010x111"],
        &["101x011", "101x110", "011x101", "110x101"],
        &["101x010", "010x101"],
        &["101x001", "101x100", "001x101", "100x101"],
        &["011x011", "110x110"],
        &["011x110", "110x011"],
        &["011x010", "110x010", "010x011", "010x110"],
        &["011x001", "110x100", "001x011", "100x110"],
        &["011x100", "110x001", "100x011", "001x110"],
        &["010x100", "010x001", "100x010", "001x010"],
        &["001x001", "100x100"],
        &["001x100", "100x001"],
    ];
    for group in groups.iter() {
        let first = classify(vertical_sides(), (4, 3), group[0]);
        for p in group.iter() {
            assert_eq!(classify(vertical_sides(), (4, 3), p), first, "{}", p);
            assert_eq!(classify(horizontal_sides(), (3, 4), p), first, "{}", p);
        }
    }
}

#[test]
fn every_pattern_matches_its_swap_and_mirror() {
    for bits in 0u32..64 {
        let p: String = (0..6)
            .map(|k| if bits & (1 << (5 - k)) != 0 { '1' } else { '0' })
            .collect();
        let (l, r) = p.split_at(3);
        let swapped = format!("{}x{}", r, l);
        let ml: String = l.chars().rev().collect();
        let mr: String = r.chars().rev().collect();
        let mirrored = format!("{}x{}", ml, mr);
        let both = format!("{}x{}", mr, ml);
        let own = format!("{}x{}", l, r);
        let t = classify(vertical_sides(), (4, 3), &own);
        assert_eq!(classify(vertical_sides(), (4, 3), &swapped), t);
        assert_eq!(classify(vertical_sides(), (4, 3), &mirrored), t);
        assert_eq!(classify(vertical_sides(), (4, 3), &both), t);
        assert_eq!(classify(horizontal_sides(), (3, 4), &own), t);
    }
}

fn classify_border(pattern: &str) -> WallType {
    // the vertical wall at (0, 3) sees (1, 2), (2, 3), (1, 4)
    let sides = [(1, 2), (2, 3), (1, 4)];
    let mut edges = all_walls();
    for (k, ch) in pattern.chars().enumerate() {
        edges[id(sides[k].0, sides[k].1)] = ch == '1';
    }
    get_wall_type(W, H, &edges, id(0, 3)).unwrap()
}

#[test]
fn border_patterns() {
    assert_eq!(classify_border("111"), WallType::Type111x000);
    assert_eq!(classify_border("101"), WallType::Type101x000);
    assert_eq!(classify_border("011"), WallType::Type011x000);
    assert_eq!(classify_border("110"), WallType::Type011x000);
    assert_eq!(classify_border("010"), WallType::Type010x000);
    assert_eq!(classify_border("001"), WallType::Type001x000);
    assert_eq!(classify_border("100"), WallType::Type001x000);
    assert_eq!(classify_border("000"), WallType::Type000x000);
}

pub fn numbered_weights() -> WallWeights {
    WallWeights {
        type_111x111: 1,
        type_111x011: 2,
        type_111x101: 3,
        type_111x100: 4,
        type_111x010: 5,
        type_111x000: 6,
        type_101x101: 7,
        type_101x011: 8,
        type_101x010: 9,
        type_101x001: 10,
        type_101x000: 11,
        type_011x011: 12,
        type_011x110: 13,
        type_011x010: 14,
        type_011x001: 15,
        type_011x100: 16,
        type_011x000: 17,
        type_010x010: 18,
        type_010x100: 19,
        type_010x000: 20,
        type_001x001: 21,
        type_001x100: 22,
        type_001x000: 23,
        type_000x000: 24,
    }
}

#[test]
fn weights_follow_types() {
    let config = numbered_weights();
    let edges = all_walls();
    assert_eq!(maze::maze::get_weight(W, H, &edges, &config, id(4, 3)), Some(1));
    assert_eq!(maze::maze::get_weight(W, H, &edges, &config, id(0, 3)), Some(6));
    assert_eq!(maze::maze::get_weight(W, H, &edges, &config, edges.len()), None);
    let mut edges = all_walls();
    for (r, c) in vertical_sides().iter() {
        edges[id(*r, *c)] = false;
    }
    assert_eq!(maze::maze::get_weight(W, H, &edges, &config, id(4, 3)), Some(24));
}

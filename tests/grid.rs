use maze::grid::{get_cell_coord, get_cell_id, get_edge_coord, get_edge_id};

fn edges(w: usize, h: usize) -> usize {
    (w - 1) * h + (h - 1) * w
}

#[test]
fn edge_round_trip_by_id() {
    for w in 2..=8 {
        for h in 2..=8 {
            for id in 0..edges(w, h) {
                let (r, c) = get_edge_coord(w, h, id).unwrap();
                assert_eq!(get_edge_id(w, h, r, c), Some(id));
            }
            assert_eq!(get_edge_coord(w, h, edges(w, h)), None);
        }
    }
}

#[test]
fn edge_round_trip_by_coord() {
    for w in 2..=8 {
        for h in 2..=8 {
            let mut seen = 0;
            for r in 0..2 * h - 1 {
                for c in 0..2 * w - 1 {
                    match get_edge_id(w, h, r, c) {
                        Some(id) => {
                            assert!((r % 2 == 0) != (c % 2 == 0));
                            assert_eq!(get_edge_coord(w, h, id), Some((r, c)));
                            seen += 1;
                        }
                        None => assert_eq!(r % 2 == 0, c % 2 == 0),
                    }
                }
            }
            assert_eq!(seen, edges(w, h));
        }
    }
}

#[test]
fn cell_round_trips() {
    for w in 2..=8 {
        for h in 2..=8 {
            for id in 0..w * h {
                let (r, c) = get_cell_coord(w, h, id).unwrap();
                assert_eq!((r % 2, c % 2), (0, 0));
                assert_eq!(get_cell_id(w, h, r, c), Some(id));
            }
            assert_eq!(get_cell_coord(w, h, w * h), None);
        }
    }
}

#[test]
fn wall_numbering_formula() {
    // 3 wide: two vertical walls, then three horizontal ones, per row pair
    assert_eq!(get_edge_coord(3, 3, 0), Some((0, 1)));
    assert_eq!(get_edge_coord(3, 3, 1), Some((0, 3)));
    assert_eq!(get_edge_coord(3, 3, 2), Some((1, 0)));
    assert_eq!(get_edge_coord(3, 3, 4), Some((1, 4)));
    assert_eq!(get_edge_coord(3, 3, 5), Some((2, 1)));
    assert_eq!(get_edge_coord(3, 3, 11), Some((4, 3)));
    assert_eq!(get_edge_coord(3, 3, 12), None);
    assert_eq!(get_cell_id(3, 3, 2, 4), Some(5));
}

#[test]
fn non_positions_are_rejected() {
    assert_eq!(get_edge_id(3, 3, 0, 0), None);
    assert_eq!(get_edge_id(3, 3, 1, 1), None);
    assert_eq!(get_edge_id(3, 3, 5, 0), None);
    assert_eq!(get_edge_id(3, 3, 0, 5), None);
    assert_eq!(get_cell_id(3, 3, 0, 1), None);
    assert_eq!(get_cell_id(3, 3, 6, 0), None);
}

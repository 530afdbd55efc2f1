use maze::fenwick_tree::FenwickTree;

fn twos() -> FenwickTree {
    let mut t = FenwickTree::with_len(10);
    for i in 0..10 {
        assert!(t.set(i, 2).is_ok());
    }
    t
}

#[test]
fn lower_bound_on_equal_weights() {
    let t = twos();
    assert_eq!(t.get_lower(1).unwrap(), 0);
    assert_eq!(t.get_lower(2).unwrap(), 0);
    assert_eq!(t.get_lower(3).unwrap(), 1);
    assert_eq!(t.get_lower(20).unwrap(), 9);
}

#[test]
fn prefix_sums_on_equal_weights() {
    let t = twos();
    let sums = t.get_sums().unwrap();
    assert_eq!(sums, vec![2, 4, 6, 8, 10, 12, 14, 16, 18, 20]);
    for i in 0..10 {
        assert_eq!(t.get_sum(i).unwrap(), 2 * (i as u64 + 1));
    }
    assert_eq!(t.get_final_sum(), 20);
}

#[test]
fn last_prefix_is_total() {
    let mut t = FenwickTree::with_len(7);
    for (i, v) in [5u64, 0, 3, 9, 1, 0, 4].iter().enumerate() {
        t.set(i, *v).unwrap();
    }
    assert_eq!(t.get_sum(6).unwrap(), t.get_final_sum());
    assert_eq!(t.get_final_sum(), 22);
}

#[test]
fn lower_bound_inverts_prefix_sums() {
    let weights = [3u64, 0, 1, 7, 0, 0, 2, 5, 1];
    let mut t = FenwickTree::with_len(weights.len());
    for (i, v) in weights.iter().enumerate() {
        t.set(i, *v).unwrap();
    }
    for i in 0..weights.len() {
        if weights[i] > 0 {
            let before = if i == 0 { 0 } else { t.get_sum(i - 1).unwrap() };
            assert_eq!(t.get_lower(before + 1).unwrap(), i);
        }
    }
}

#[test]
fn set_zero_then_value() {
    let mut t = twos();
    t.set(4, 0).unwrap();
    assert_eq!(t.get_final_sum(), 18);
    t.set(4, 11).unwrap();
    assert_eq!(t.get_value(4).unwrap(), 11);
    assert_eq!(t.get_final_sum(), 29);
    assert_eq!(t.get_sum(4).unwrap(), 19);
    assert_eq!(t.get_sum(3).unwrap(), 8);
}

#[test]
fn lower_bound_skips_zero_weights() {
    let mut t = FenwickTree::with_len(5);
    t.set(3, 4).unwrap();
    assert_eq!(t.get_lower(1).unwrap(), 3);
    assert_eq!(t.get_lower(4).unwrap(), 3);
    assert_eq!(t.get_lower(0).unwrap(), 0);
}

#[test]
fn out_of_range_is_an_error() {
    let mut t = twos();
    assert!(t.set(10, 1).is_err());
    assert!(t.get_value(10).is_err());
    assert!(t.get_sum(10).is_err());
    assert!(t.get_lower(21).is_err());
    assert_eq!(t.get_final_sum(), 20);
}

#[test]
fn new_tree_is_empty() {
    let t = FenwickTree::with_len(6);
    assert_eq!(t.len(), 7);
    assert_eq!(t.get_final_sum(), 0);
    assert_eq!(t.get_sums().unwrap(), vec![0; 6]);
    assert_eq!(t.get_value(5).unwrap(), 0);
}

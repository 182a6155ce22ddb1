use openobserve::select::select_extreme;

fn sorted(mut v: Vec<u64>) -> Vec<u64> {
    v.sort();
    v
}

#[test]
fn select_smallest() {
    let r = select_extreme(vec![50, 10, 40, 20, 30], 2, true);
    assert_eq!(sorted(r), vec![10, 20]);
}

#[test]
fn select_largest() {
    let r = select_extreme(vec![50, 10, 40, 20, 30], 2, false);
    assert_eq!(sorted(r), vec![40, 50]);
}

#[test]
fn select_nothing_and_everything() {
    assert!(select_extreme(vec![3, 1, 2], 0, true).is_empty());
    assert_eq!(sorted(select_extreme(vec![3, 1, 2], 3, false)), vec![1, 2, 3]);
}

#[test]
fn select_large_input() {
    let values: Vec<u64> = (0..1000u64).map(|i| (i * 7919) % 1000).collect();
    let r = select_extreme(values.clone(), 10, true);
    assert_eq!(sorted(r), (0..10).collect::<Vec<u64>>());
    let r = select_extreme(values, 10, false);
    assert_eq!(sorted(r), (990..1000).collect::<Vec<u64>>());
}

#[test]
fn select_extreme_values() {
    let r = select_extreme(vec![u64::MAX, 0, 17], 1, false);
    assert_eq!(r, vec![u64::MAX]);
    let r = select_extreme(vec![u64::MAX, 0, 17], 1, true);
    assert_eq!(r, vec![0]);
}

use lib::ranking::{descending_order, group_by_name};

#[test]
fn order_is_largest_first_later_first_among_equals() {
    assert_eq!(descending_order(&vec![5, 1, 5, 3]), vec![2, 0, 3, 1]);
    assert_eq!(descending_order(&vec![]), Vec::<usize>::new());
    assert_eq!(descending_order(&vec![7, 7, 7]), vec![2, 1, 0]);
    assert_eq!(descending_order(&vec![1, 2, 3]), vec![2, 1, 0]);
}

#[test]
fn order_matches_stable_sort_reversed() {
    let keys = vec![3usize, 9, 0, 9, 4, 3, 3, 12, 0];
    let mut idx: Vec<usize> = (0..keys.len()).collect();
    idx.sort_by(|a, b| keys[*a].cmp(&keys[*b]));
    idx.reverse();
    assert_eq!(descending_order(&keys), idx);
}

#[test]
fn grouping_by_first_occurrence() {
    let names: Vec<String> = ["a", "b", "a", "c", "b", "a"].iter().map(|s| s.to_string()).collect();
    let kbs = vec![1, 10, 2, 100, 20, 4];
    let groups = group_by_name(&names, &kbs);
    let got: Vec<(usize, u32, usize)> = groups.iter().map(|g| (g.first, g.count, g.total)).collect();
    assert_eq!(got, vec![(0, 3, 7), (1, 2, 30), (3, 1, 100)]);
}

#[test]
fn grouping_keeps_every_process_and_kilobyte() {
    let names: Vec<String> = ["x", "y", "x", "x", "z"].iter().map(|s| s.to_string()).collect();
    let kbs = vec![5, 6, 7, 8, 9];
    let groups = group_by_name(&names, &kbs);
    assert_eq!(groups.iter().map(|g| g.count as usize).sum::<usize>(), 5);
    assert_eq!(groups.iter().map(|g| g.total).sum::<usize>(), 35);
}

#[test]
fn grouping_distinct_names_changes_nothing() {
    let names: Vec<String> = ["p", "q", "r"].iter().map(|s| s.to_string()).collect();
    let kbs = vec![3, 1, 2];
    let groups = group_by_name(&names, &kbs);
    let got: Vec<(usize, u32, usize)> = groups.iter().map(|g| (g.first, g.count, g.total)).collect();
    assert_eq!(got, vec![(0, 1, 3), (1, 1, 1), (2, 1, 2)]);
}

#[test]
fn grouping_overflow_is_detected() {
    let names: Vec<String> = ["a", "a"].iter().map(|s| s.to_string()).collect();
    assert!(!lib::ranking::counts_fit_check(&names, &vec![usize::MAX, 1]));
    assert!(lib::ranking::counts_fit_check(&names, &vec![usize::MAX - 1, 1]));
}

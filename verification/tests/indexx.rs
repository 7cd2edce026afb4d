use ft8lib::indexx::indexx_ascending;

#[test]
fn index_sort_reads_values_ascending() {
    let keys = [30i64, -5, 12, 7, 100, 0, 7, 55, 3, 9];
    let order = indexx_ascending(&keys);
    assert_eq!(order, vec![1, 5, 8, 3, 6, 9, 2, 0, 7, 4]);
    assert!(order.windows(2).all(|w| keys[w[0]] <= keys[w[1]]));
}

#[test]
fn index_sort_of_nothing_is_empty() {
    assert!(indexx_ascending(&[]).is_empty());
}

#[test]
fn equal_keys_keep_index_order() {
    let keys = [2i64, 1, 2, 1, 2];
    assert_eq!(indexx_ascending(&keys), vec![1, 3, 0, 2, 4]);
}

#[test]
fn percentile_rank_reads_the_kth_smallest() {
    // The 40th-percentile pick of a sync8 pass: the value at rank npctile - 1.
    let keys: Vec<i64> = (0..50).map(|i| (i * 37) % 50).collect();
    let order = indexx_ascending(&keys);
    let npctile = 20;
    assert_eq!(keys[order[npctile - 1]], 19);
    let mut seen = order.clone();
    seen.sort();
    assert_eq!(seen, (0..50).collect::<Vec<usize>>());
}

#[test]
fn equal_keys_of_a_long_array_come_in_quicksort_order() {
    // Eight values or more are split around a median of three, which does
    // not keep equal keys in index order.
    let keys = [3i64, 1, 3, 1, 3, 1, 3, 1, 3, 1, 2, 2];
    assert_eq!(indexx_ascending(&keys), vec![7, 5, 3, 9, 1, 10, 11, 6, 8, 4, 2, 0]);
    assert_eq!(indexx_ascending(&[5i64; 9]), vec![5, 4, 7, 6, 0, 1, 3, 2, 8]);
    let descending: Vec<i64> = (1..=20).rev().collect();
    assert_eq!(indexx_ascending(&descending), (0..20).rev().collect::<Vec<usize>>());
}

use flickr_cli::fuzzy::PairScan;

#[test]
fn pair_scan_offers_every_pair_once_in_order() {
    let mut scan = PairScan::new(4, 85);
    let mut offered = Vec::new();
    while let Some((i, j)) = scan.next_pair() {
        offered.push((i, j));
        scan.record(0);
    }
    assert_eq!(
        offered,
        vec![(0, 1), (0, 2), (0, 3), (1, 2), (1, 3), (2, 3)]
    );
    assert!(scan.into_pairs().is_empty());
}

#[test]
fn pair_scan_keeps_scores_at_or_above_threshold() {
    let mut scan = PairScan::new(3, 85);
    let scores = [85u32, 84, 100];
    let mut k = 0;
    while scan.next_pair().is_some() {
        scan.record(scores[k]);
        k += 1;
    }
    let kept: Vec<(usize, usize, u32)> = scan
        .into_pairs()
        .iter()
        .map(|p| (p.index_a, p.index_b, p.score))
        .collect();
    assert_eq!(kept, vec![(0, 1, 85), (1, 2, 100)]);
}

#[test]
fn pair_scan_with_fewer_than_two_items_offers_nothing() {
    assert_eq!(PairScan::new(0, 0).next_pair(), None);
    assert_eq!(PairScan::new(1, 0).next_pair(), None);
    assert_eq!(PairScan::new(2, 0).next_pair(), Some((0, 1)));
}

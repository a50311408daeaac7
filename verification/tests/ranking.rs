use history_pruning::ranking::ranks_below;

#[test]
fn ranks_follow_the_scores() {
    assert_eq!(ranks_below(&vec![40, 90, 150, 170], 3), vec![false, true, true, true]);
    assert_eq!(ranks_below(&vec![40, 90, 150, 170], 1), vec![false, false, false, true]);
    assert_eq!(ranks_below(&vec![200, 0, 100], 2), vec![true, false, true]);
}

#[test]
fn equal_scores_rank_by_position() {
    assert_eq!(ranks_below(&vec![50, 150, 50, 170], 3), vec![true, true, false, true]);
    assert_eq!(ranks_below(&vec![7, 7, 7, 7], 2), vec![true, true, false, false]);
    assert_eq!(ranks_below(&vec![7, 7, 7, 7], 3), vec![true, true, true, false]);
}

#[test]
fn exactly_the_target_count_is_kept() {
    let scores: Vec<u16> = (0..500).map(|i| ((i * 37) % 201) as u16).collect();
    for target in [0usize, 1, 2, 50, 499, 500] {
        let keep = ranks_below(&scores, target);
        assert_eq!(keep.len(), 500);
        assert_eq!(keep.iter().filter(|k| **k).count(), target);
        for a in 0..500 {
            for b in 0..500 {
                if keep[a] && !keep[b] {
                    assert!(scores[a] > scores[b] || (scores[a] == scores[b] && a < b));
                }
            }
        }
    }
}

#[test]
fn a_target_beyond_the_length_keeps_all() {
    assert_eq!(ranks_below(&vec![1, 2, 3], 3), vec![true, true, true]);
    assert_eq!(ranks_below(&vec![1, 2, 3], 10), vec![true, true, true]);
    assert_eq!(ranks_below(&vec![1, 2, 3], 0), vec![false, false, false]);
    assert_eq!(ranks_below(&Vec::new(), 4), Vec::<bool>::new());
}

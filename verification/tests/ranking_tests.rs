use imsearch::ranking::{rank_by_score, top_k};

fn key(score: f64) -> u64 {
    score.to_bits()
}

#[test]
fn test_ranking_keeps_corpus_order_among_equal_scores() {
    // A and B score 0.9, C scores 0.5.
    let scores = vec![key(0.9), key(0.9), key(0.5)];
    assert_eq!(rank_by_score(&scores), vec![0, 1, 2]);
}

#[test]
fn test_ranking_puts_the_highest_score_first() {
    let scores = vec![key(0.5), key(0.9), key(0.1), key(1.0)];
    assert_eq!(rank_by_score(&scores), vec![3, 1, 0, 2]);
}

#[test]
fn test_ranking_of_ties_between_other_scores() {
    let scores = vec![5, 9, 5, 9, 7, 5];
    assert_eq!(rank_by_score(&scores), vec![1, 3, 4, 0, 2, 5]);
}

#[test]
fn test_ranking_edges() {
    assert_eq!(rank_by_score(&vec![]), Vec::<usize>::new());
    assert_eq!(rank_by_score(&vec![3]), vec![0]);
    assert_eq!(rank_by_score(&vec![0, u64::MAX]), vec![1, 0]);
    assert_eq!(rank_by_score(&vec![4, 4, 4, 4]), vec![0, 1, 2, 3]);
    assert_eq!(rank_by_score(&vec![1, 2, 3, 4]), vec![3, 2, 1, 0]);
}

#[test]
fn test_ranking_is_a_sorted_permutation() {
    let mut scores: Vec<u64> = Vec::new();
    let mut value: u64 = 12345;
    for _ in 0..500 {
        value = (value * 6364136223846793005u64.wrapping_add(0) % 1_000_003 + 1442695) % 97;
        scores.push(value);
    }
    let order = rank_by_score(&scores);
    assert_eq!(order.len(), scores.len());
    let mut seen = vec![false; scores.len()];
    for &entry in &order {
        assert!(!seen[entry]);
        seen[entry] = true;
    }
    for pair in order.windows(2) {
        let (a, b) = (pair[0], pair[1]);
        assert!(scores[a] > scores[b] || (scores[a] == scores[b] && a < b));
    }
}

#[test]
fn test_bit_patterns_order_as_scores_do() {
    let scores = [0.0f64, 0.1, 0.25, 0.5, 0.75, 0.9, 1.0];
    for pair in scores.windows(2) {
        assert!(key(pair[0]) < key(pair[1]));
    }
}

#[test]
fn test_top_k() {
    let order = vec![4, 2, 0, 1, 3, 5];
    assert_eq!(top_k(&order, 5), vec![4, 2, 0, 1, 3]);
    assert_eq!(top_k(&order, 6), vec![4, 2, 0, 1, 3, 5]);
    assert_eq!(top_k(&order, 60), vec![4, 2, 0, 1, 3, 5]);
    assert_eq!(top_k(&order, 1), vec![4]);
    assert_eq!(top_k(&order, 0), Vec::<usize>::new());
    assert_eq!(top_k(&vec![], 5), Vec::<usize>::new());
}

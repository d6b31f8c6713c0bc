use astrolaunch::ranking::{Candidate, TopMatches, MAX_RESULTS};
use astrolaunch::similarity::Similarity;

fn rated(score: f64, path: &str) -> Candidate {
    Candidate { similarity: Similarity::from_bits(score.to_bits()), path: path.to_string() }
}

#[test]
fn new_structure_is_empty() {
    let top = TopMatches::new();
    assert_eq!(top.len(), 0);
    assert_eq!(top.paths(), Vec::<String>::new());
    assert!(!top.has_seen(&"/a".to_string()));
}

#[test]
fn offers_come_out_best_first() {
    let mut top = TopMatches::new();
    assert!(top.offer(rated(0.7, "/low")));
    assert!(top.offer(rated(0.9, "/high")));
    assert!(top.offer(rated(0.8, "/mid")));
    assert_eq!(top.paths(), vec!["/high".to_string(), "/mid".to_string(), "/low".to_string()]);
    assert_eq!(top.len(), 3);
}

#[test]
fn offer_below_or_at_the_threshold_is_refused() {
    let mut top = TopMatches::new();
    assert!(!top.offer(rated(0.6, "/at")));
    assert!(!top.offer(rated(0.3, "/below")));
    assert!(!top.offer(rated(f64::NAN, "/nan")));
    assert!(!top.offer(rated(-0.9, "/negative")));
    assert_eq!(top.len(), 0);
    assert!(!top.has_seen(&"/at".to_string()));
    // A refused path may still be admitted later with a better score.
    assert!(top.offer(rated(0.61, "/at")));
    assert_eq!(top.paths(), vec!["/at".to_string()]);
}

#[test]
fn offer_of_a_seen_path_is_refused() {
    let mut top = TopMatches::new();
    assert!(top.offer(rated(0.7, "/same")));
    assert!(top.has_seen(&"/same".to_string()));
    assert!(!top.offer(rated(0.95, "/same")));
    assert!(top.offer(rated(0.8, "/other")));
    assert_eq!(top.paths(), vec!["/other".to_string(), "/same".to_string()]);
}

#[test]
fn ninth_offer_evicts_the_lowest() {
    let mut top = TopMatches::new();
    for i in 0..8 {
        assert!(top.offer(rated(0.70 + 0.01 * i as f64, &format!("/item{}", i))));
    }
    assert_eq!(top.len(), MAX_RESULTS);
    assert_eq!(top.paths()[7], "/item0");
    assert!(top.offer(rated(0.745, "/new")));
    let paths = top.paths();
    assert_eq!(paths.len(), 8);
    assert!(!paths.contains(&"/item0".to_string()));
    assert_eq!(
        paths,
        vec!["/item7", "/item6", "/item5", "/new", "/item4", "/item3", "/item2", "/item1"]
            .into_iter()
            .map(String::from)
            .collect::<Vec<_>>()
    );
}

#[test]
fn ninth_offer_that_is_lowest_is_dropped_but_stays_seen() {
    let mut top = TopMatches::new();
    for i in 0..8 {
        top.offer(rated(0.80 + 0.01 * i as f64, &format!("/item{}", i)));
    }
    let before = top.paths();
    assert!(top.offer(rated(0.65, "/weak")));
    assert_eq!(top.paths(), before);
    assert!(top.has_seen(&"/weak".to_string()));
    assert!(!top.offer(rated(0.99, "/weak")));
    assert_eq!(top.paths(), before);
}

#[test]
fn an_evicted_path_does_not_come_back() {
    let mut top = TopMatches::new();
    top.offer(rated(0.65, "/first"));
    for i in 0..8 {
        top.offer(rated(0.80 + 0.01 * i as f64, &format!("/item{}", i)));
    }
    assert!(!top.paths().contains(&"/first".to_string()));
    assert!(!top.offer(rated(1.0, "/first")));
    assert!(!top.paths().contains(&"/first".to_string()));
}

#[test]
fn equal_scores_are_all_kept_up_to_the_limit() {
    let mut top = TopMatches::new();
    for i in 0..12 {
        assert!(top.offer(rated(0.9, &format!("/tie{}", i))));
    }
    let paths = top.paths();
    assert_eq!(paths.len(), 8);
    let mut distinct = paths.clone();
    distinct.sort();
    distinct.dedup();
    assert_eq!(distinct.len(), 8);
}

#[test]
fn many_offers_keep_the_eight_best() {
    let mut top = TopMatches::new();
    let mut scores = Vec::new();
    let mut x: u64 = 12345;
    for i in 0..500 {
        x = x.wrapping_mul(6364136223846793005).wrapping_add(1442695040888963407);
        let score = 0.5 + ((x >> 11) % 5000) as f64 / 10000.0;
        scores.push((score, format!("/f{}", i)));
        assert_eq!(top.offer(rated(score, &format!("/f{}", i))), score > 0.6);
    }
    let paths = top.paths();
    assert_eq!(paths.len(), 8);
    let kept: Vec<f64> =
        paths.iter().map(|p| scores.iter().find(|(_, q)| q == p).unwrap().0).collect();
    for pair in kept.windows(2) {
        assert!(pair[0] >= pair[1]);
    }
    let mut sorted: Vec<f64> = scores.iter().map(|(s, _)| *s).collect();
    sorted.sort_by(|a, b| b.partial_cmp(a).unwrap());
    assert_eq!(kept, sorted[..8].to_vec());
}

#[test]
fn many_admitted_paths_are_told_apart_quickly() {
    let mut top = TopMatches::new();
    for i in 0..60000 {
        assert!(top.offer(rated(0.7, &format!("/volume/data/archive/{}/notes.txt", i))));
    }
    for i in 0..60000 {
        assert!(!top.offer(rated(0.9, &format!("/volume/data/archive/{}/notes.txt", i))));
    }
    assert_eq!(top.len(), 8);
    assert!(top.has_seen(&"/volume/data/archive/59999/notes.txt".to_string()));
    assert!(!top.has_seen(&"/volume/data/archive/60000/notes.txt".to_string()));
}

use std::collections::{HashMap, HashSet};

use recommand_sys::algorithms::{algorithm_kind, AlgorithmKind};
use recommand_sys::cli::{ensure_data, usize_arg, value_arg};
use recommand_sys::eval::{genre_diversity_counts, hit_count_at_n, split_user_holdout};
use recommand_sys::features::{movie_feature_counts, FeatureKind};
use recommand_sys::index::{unseen_items, RatingIndex};
use recommand_sys::knowledge::{near_year_range, preference_facts, Verdict};
use recommand_sys::matrix::{dense_index, seed_bucket};
use recommand_sys::report::{push_limitations_section, push_method_section, push_metric_section};
use recommand_sys::search::{query_words, search_matches};
use recommand_sys::types::Movie;

fn movie(id: u32, title: &str, genres: &[&str], year: Option<u16>) -> Movie {
    Movie {
        id,
        title: title.to_string(),
        genres: genres.iter().map(|g| g.to_string()).collect(),
        release_year: year,
    }
}

fn catalogue() -> HashMap<u32, Movie> {
    let mut m = HashMap::new();
    m.insert(1, movie(1, "Toy Story (1995)", &["Animation", "Children", "Comedy"], Some(1995)));
    m.insert(2, movie(2, "GoldenEye (1995)", &["Action", "Adventure", "Thriller"], Some(1995)));
    m.insert(9, movie(9, "Star Wars (1977)", &["Action", "Adventure", "Sci-Fi", "War"], Some(1977)));
    m.insert(12, movie(12, "Sense and Sensibility (1995)", &["Drama", "Romance"], Some(1995)));
    m
}

#[test]
fn search_matches_filter_query_genre_and_year() {
    let movies = catalogue();
    let words = query_words(Some("Star"));
    assert_eq!(search_matches(&movies[&9], &words, Some("Action"), Some(1970)), Some(1));
    assert_eq!(search_matches(&movies[&1], &words, Some("Action"), Some(1970)), None);
    assert_eq!(search_matches(&movies[&2], &words, Some("action"), Some(1970)), Some(0));
    assert_eq!(search_matches(&movies[&9], &words, None, Some(1980)), None);
}

#[test]
fn query_words_are_lowercase() {
    let words = query_words(Some("  Star   WARS "));
    let as_strings: Vec<String> = words.iter().map(|w| w.iter().collect()).collect();
    assert_eq!(as_strings, vec!["star", "wars"]);
    assert!(query_words(None).is_empty());
    let movies = catalogue();
    assert_eq!(search_matches(&movies[&9], &words, None, None), Some(2));
}

#[test]
fn rating_index_groups_by_user_and_movie() {
    let index = RatingIndex::new(vec![196, 1, 196, 2, 1], vec![1, 1, 9, 2, 3]);
    assert_eq!(index.user_ids(), vec![196, 1, 2]);
    assert_eq!(index.item_ids(), vec![1, 9, 2, 3]);
    assert_eq!(index.user_positions(196), vec![0, 2]);
    assert_eq!(index.item_positions(1), vec![0, 1]);
    assert_eq!(index.user_count(1), 2);
    assert_eq!(index.item_count(7), 0);
    assert_eq!(index.user_seen(196), HashSet::from([1, 9]));
    assert!(index.user_seen(5).is_empty());
}

#[test]
fn unseen_candidates_skip_seen_items() {
    let index = RatingIndex::new(vec![196, 196, 1], vec![1, 9, 2]);
    let seen = index.user_seen(196);
    let candidates = unseen_items(&vec![1, 2, 9, 12], &seen);
    assert_eq!(candidates, vec![2, 12]);
    assert!(candidates.iter().all(|c| !seen.contains(c)));
}

#[test]
fn metric_hit_counts_match_known_values() {
    let relevant = HashSet::from([1, 3]);
    assert_eq!(hit_count_at_n(&vec![1, 2], &relevant, 2), 1);
    assert_eq!(hit_count_at_n(&vec![1, 3, 5], &relevant, 1), 1);
    assert_eq!(hit_count_at_n(&vec![2, 3], &relevant, 1), 0);
    assert_eq!(hit_count_at_n(&vec![3, 1], &relevant, 10), 2);
}

#[test]
fn genre_diversity_counts_unique_and_slots() {
    let movies = catalogue();
    assert_eq!(genre_diversity_counts(&vec![2, 9], &movies, 2), (5, 7));
    assert_eq!(genre_diversity_counts(&vec![2, 9], &movies, 1), (3, 3));
    assert_eq!(genre_diversity_counts(&vec![42, 12], &movies, 5), (2, 2));
    assert_eq!(genre_diversity_counts(&vec![], &movies, 5), (0, 0));
}

#[test]
fn holdout_keeps_latest_ratings_for_testing() {
    let (train, test) = split_user_holdout(&vec![30, 10, 20, 10, 50], 1);
    assert_eq!(train, vec![1, 3, 2, 0]);
    assert_eq!(test, vec![4]);
    let (train, test) = split_user_holdout(&vec![5, 4, 3], 7);
    assert_eq!(train, vec![2]);
    assert_eq!(test, vec![1, 0]);
    let (train, test) = split_user_holdout(&vec![5, 4], 0);
    assert_eq!(train, vec![1]);
    assert_eq!(test, vec![0]);
    let (train, test) = split_user_holdout(&vec![8], 1);
    assert_eq!(train, vec![0]);
    assert!(test.is_empty());
}

#[test]
fn dense_index_orders_ids() {
    let (sorted, index) = dense_index(&vec![196, 1, 6, 1, 3]);
    assert_eq!(sorted, vec![1, 3, 6, 196]);
    assert_eq!(index[&1], 0);
    assert_eq!(index[&196], 3);
    assert_eq!(index.len(), 4);
}

#[test]
fn seed_bucket_values() {
    assert_eq!(seed_bucket(0, 0), (1_103_515_245u64 + 7 * 12_345) % 1000);
    assert_eq!(seed_bucket(0, 0), 660);
    assert_eq!(seed_bucket(17, 3), ((18u64 * 1_103_515_245) + 10 * 12_345) % 1000);
}

#[test]
fn knowledge_rules_collect_rejected_genres_and_years() {
    let movies = catalogue();
    let history = vec![
        (9, Verdict::Liked),
        (12, Verdict::Disliked),
        (1, Verdict::Liked),
        (2, Verdict::Neutral),
        (42, Verdict::Disliked),
    ];
    let (rejected, range) = preference_facts(&history, &movies);
    assert_eq!(rejected, vec!["Drama", "Romance"]);
    assert_eq!(range, Some((1977, 1995)));
    let (rejected, range) = preference_facts(&vec![(2, Verdict::Neutral)], &movies);
    assert!(rejected.is_empty());
    assert_eq!(range, None);
    assert!(near_year_range((1977, 1995), 1972));
    assert!(!near_year_range((1977, 1995), 1971));
    assert!(near_year_range((3, 10), 0));
    assert!(!near_year_range((1977, 1995), 2001));
}

#[test]
fn content_features_of_a_movie() {
    let m = movie(9, "Star Wars: The 1977 Wars!", &["Sci-Fi", "War", "Sci-Fi"], Some(1977));
    let features = movie_feature_counts(&m);
    let listed: Vec<(String, FeatureKind, usize)> =
        features.into_iter().map(|f| (f.key, f.kind, f.count)).collect();
    assert_eq!(
        listed,
        vec![
            ("genre:sci-fi".to_string(), FeatureKind::Genre, 2),
            ("genre:war".to_string(), FeatureKind::Genre, 1),
            ("title:star".to_string(), FeatureKind::Title, 1),
            ("title:wars".to_string(), FeatureKind::Title, 2),
            ("title:the".to_string(), FeatureKind::Title, 1),
            ("decade:1970".to_string(), FeatureKind::Decade, 1),
        ]
    );
}

#[test]
fn algorithm_names_select_algorithms() {
    assert_eq!(algorithm_kind("content"), AlgorithmKind::Content);
    assert_eq!(algorithm_kind("knowledge"), AlgorithmKind::Knowledge);
    assert_eq!(algorithm_kind("user-cf"), AlgorithmKind::UserCf);
    assert_eq!(algorithm_kind("item-cf"), AlgorithmKind::ItemCf);
    assert_eq!(algorithm_kind("popularity"), AlgorithmKind::Popularity);
    assert_eq!(algorithm_kind("matrix"), AlgorithmKind::Matrix);
    assert_eq!(algorithm_kind("hybrid"), AlgorithmKind::Hybrid);
    assert_eq!(algorithm_kind("Content"), AlgorithmKind::Hybrid);
}

#[test]
fn command_line_options() {
    let args: Vec<String> = ["search", "--top-n", "5", "--query", "Star", "--top-n", "7", "--bad"]
        .iter()
        .map(|s| s.to_string())
        .collect();
    assert_eq!(value_arg(&args, "--query"), Some("Star".to_string()));
    assert_eq!(value_arg(&args, "--bad"), None);
    assert_eq!(value_arg(&args, "--missing"), None);
    assert_eq!(usize_arg(&args, "--top-n", 10), 5);
    assert_eq!(usize_arg(&args, "--query", 10), 10);
    assert_eq!(usize_arg(&args, "--missing", 3), 3);
    assert!(ensure_data(false, true));
    assert!(ensure_data(true, false));
    assert!(!ensure_data(true, true));
}

#[test]
fn report_sections_contain_required_headings() {
    let mut out = String::from("# report\n");
    push_method_section(&mut out);
    assert!(out.starts_with("# report\n## 方法与数学建模"));
    assert!(out.contains("### 矩阵分解"));
    let mut metrics = String::new();
    push_metric_section(&mut metrics, 5);
    assert!(metrics.starts_with("## 评价指标定义"));
    assert!(metrics.contains("### Top-5 排序指标"));
    assert!(metrics.contains("推荐列表前 `5` 个结果记为 `L_u@5`。"));
    assert!(metrics.contains("Precision"));
    let mut limits = String::new();
    push_limitations_section(&mut limits);
    assert!(limits.starts_with("## 局限性\n\n主要局限包括"));
}

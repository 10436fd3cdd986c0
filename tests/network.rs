use network_builder::edges::edges_of;
use network_builder::filter::filter_records;
use network_builder::index::{assign_sub_ids, position_of};
use network_builder::overlap::{compute_overlaps_arr, SCALE};
use network_builder::pipeline::{build_adjacency_matrix, build_edge_list, overlaps_from_columns, NetworkError};
use network_builder::record::{is_valid_lowered, is_valid_record, DataRecord};
use network_builder::aggregate::make_author_vec;

fn rec(count: u32, subreddit: &str, author: &str) -> DataRecord {
    DataRecord { count, subreddit: subreddit.to_string(), author: author.to_string() }
}

fn three_records() -> Vec<DataRecord> {
    vec![rec(10, "a", "u1"), rec(5, "b", "u1"), rec(3, "a", "u2")]
}

fn assert_symmetric_zero_diagonal(m: &Vec<Vec<u128>>) {
    for i in 0..m.len() {
        assert_eq!(m[i].len(), m.len());
        assert_eq!(m[i][i], 0);
        for j in 0..m.len() {
            assert_eq!(m[i][j], m[j][i]);
        }
    }
}

#[test]
fn three_records_scenario() {
    let (m, index) = build_adjacency_matrix(three_records(), 1000, 0).unwrap();
    assert_eq!(index.len(), 2);
    assert_eq!(index.name_of(0), "a");
    assert_eq!(index.name_of(1), "b");
    // raw[a][b] = 10*5/(15*5) and raw[b][a] = 5*10/(15*13); the score is the smaller.
    assert_eq!(m[0][1], 1101273667);
    assert_eq!(m[1][0], 1101273667);
    let score = m[0][1] as f64 / SCALE as f64;
    assert!((score - 0.2564).abs() < 1e-4);
    assert_eq!(m[0][0], 0);
    assert_eq!(m[1][1], 0);
}

#[test]
fn directed_contributions_of_one_author() {
    let profiles = vec![vec![(0usize, 10u64), (1usize, 5u64)], vec![(0usize, 3u64)]];
    let totals = vec![13u64, 5u64];
    let m = compute_overlaps_arr(&profiles, &totals);
    assert_eq!(m[0][1], 1101273667);
    assert_eq!(m[1][0], 1101273667);
    // The larger direction alone, 10*5/(15*5) = 2/3, loses to the smaller.
    let one_way = vec![vec![(0usize, 10u64), (1usize, 5u64)]];
    let m2 = compute_overlaps_arr(&one_way, &vec![10u64, 5u64]);
    assert_eq!(m2[0][1], m2[1][0]);
    assert_eq!(m2[0][1], 1431655766);
}

#[test]
fn moderator_account_is_excluded() {
    let mut records = vec![rec(7, "a", "AutoModerator"), rec(2, "a", "u1"), rec(1, "b", "u1")];
    filter_records(&mut records, 1000, 0);
    assert_eq!(records.len(), 2);
    assert!(records.iter().all(|r| r.author != "AutoModerator"));
}

#[test]
fn deleted_account_is_excluded() {
    let mut records = vec![rec(7, "a", "[deleted]"), rec(2, "a", "u1")];
    filter_records(&mut records, 1000, 0);
    assert_eq!(records.len(), 1);
    assert_eq!(records[0].author, "u1");
}

#[test]
fn busy_bot_is_excluded_in_any_case() {
    assert!(!is_valid_record(&rec(2000, "a", "HelperBot"), 1000));
    assert!(!is_valid_record(&rec(2000, "a", "helperbot"), 1000));
    assert!(is_valid_record(&rec(1000, "a", "HelperBot"), 1000));
    assert!(is_valid_record(&rec(2000, "a", "robotic"), 1000));
    assert!(is_valid_record(&rec(2000, "a", "bo"), 1000));
}

#[test]
fn exclusion_rule_with_lowered_name() {
    let name = "LazyBOT".to_string();
    assert!(!is_valid_lowered(&name, &"lazybot".to_string(), 5, 4));
    assert!(is_valid_lowered(&name, &"lazybot".to_string(), 4, 4));
    assert!(is_valid_lowered(&name, &name, 5, 4));
    assert!(!is_valid_lowered(&"[deleted]".to_string(), &"[deleted]".to_string(), 0, 4));
}

#[test]
fn community_at_threshold_is_excluded() {
    let mut records = vec![rec(3, "a", "u1"), rec(2, "a", "u2"), rec(6, "b", "u1")];
    filter_records(&mut records, 1000, 5);
    assert_eq!(records.len(), 1);
    assert_eq!(records[0].subreddit, "b");
}

#[test]
fn threshold_counts_only_records_left_after_exclusion() {
    let mut records = vec![rec(10, "a", "AutoModerator"), rec(3, "a", "u1"), rec(6, "b", "u1")];
    filter_records(&mut records, 1000, 5);
    assert_eq!(records.len(), 1);
    assert_eq!(records[0].subreddit, "b");
}

#[test]
fn filtering_twice_changes_nothing() {
    let mut records = vec![
        rec(3, "a", "u1"),
        rec(9, "b", "AutoModerator"),
        rec(4, "b", "u2"),
        rec(2000, "c", "newsbot"),
        rec(8, "c", "u3"),
        rec(1, "d", "u1"),
    ];
    filter_records(&mut records, 1000, 3);
    let once: Vec<(u32, String, String)> =
        records.iter().map(|r| (r.count, r.subreddit.clone(), r.author.clone())).collect();
    filter_records(&mut records, 1000, 3);
    let twice: Vec<(u32, String, String)> =
        records.iter().map(|r| (r.count, r.subreddit.clone(), r.author.clone())).collect();
    assert_eq!(once, twice);
    assert_eq!(once.len(), 2);
}

#[test]
fn ids_follow_first_appearance() {
    let records = vec![rec(1, "x", "u1"), rec(1, "y", "u1"), rec(1, "x", "u2"), rec(1, "z", "u3")];
    let index = assign_sub_ids(&records);
    assert_eq!(index.len(), 3);
    assert_eq!(index.id_of(&"x".to_string()), Some(0));
    assert_eq!(index.id_of(&"y".to_string()), Some(1));
    assert_eq!(index.id_of(&"z".to_string()), Some(2));
    assert_eq!(index.id_of(&"w".to_string()), None);
    let mut seen = vec![false; 3];
    for r in &records {
        seen[index.id_of(&r.subreddit).unwrap()] = true;
    }
    assert!(seen.iter().all(|s| *s));
}

#[test]
fn position_lookup() {
    let names = vec!["p".to_string(), "q".to_string()];
    assert_eq!(position_of(&names, &"q".to_string()), Some(1));
    assert_eq!(position_of(&names, &"r".to_string()), None);
}

#[test]
fn authors_are_grouped_and_counts_summed() {
    let authors = vec!["u1".to_string(), "u2".to_string(), "u1".to_string(), "u1".to_string()];
    let subs = vec![0usize, 1, 0, 1];
    let counts = vec![2u32, 5, 3, 4];
    let (profiles, totals) = make_author_vec(&authors, &subs, &counts, 2);
    assert_eq!(profiles.len(), 2);
    assert_eq!(profiles[0], vec![(0usize, 5u64), (1usize, 4u64)]);
    assert_eq!(profiles[1], vec![(1usize, 5u64)]);
    assert_eq!(totals, vec![5u64, 9u64]);
}

#[test]
fn matrix_is_symmetric_with_zero_diagonal() {
    let records = vec![
        rec(4, "a", "u1"),
        rec(6, "b", "u1"),
        rec(1, "c", "u1"),
        rec(9, "a", "u2"),
        rec(2, "c", "u2"),
        rec(5, "b", "u3"),
        rec(5, "c", "u3"),
    ];
    let (m, index) = build_adjacency_matrix(records, 1000, 0).unwrap();
    assert_eq!(m.len(), index.len());
    assert_symmetric_zero_diagonal(&m);
    assert!(m[0][1] > 0 && m[0][2] > 0 && m[1][2] > 0);
}

#[test]
fn empty_input_gives_empty_network() {
    let (m, index) = build_adjacency_matrix(Vec::new(), 1000, 0).unwrap();
    assert!(m.is_empty());
    assert_eq!(index.len(), 0);
}

#[test]
fn edge_list_holds_exactly_non_zero_entries() {
    let m = vec![vec![0u128, 7, 0], vec![7, 0, 2], vec![0, 2, 0]];
    let edges = edges_of(&m);
    assert_eq!(edges, vec![(0, 1, 7), (1, 0, 7), (1, 2, 2), (2, 1, 2)]);
}

#[test]
fn edge_list_of_scenario() {
    let (edges, index) = build_edge_list(three_records(), 1000, 0).unwrap();
    assert_eq!(index.len(), 2);
    assert_eq!(edges, vec![(0, 1, 1101273667), (1, 0, 1101273667)]);
}

#[test]
fn columns_entry_point_matches_records() {
    let authors = vec!["u1".to_string(), "u1".to_string(), "u2".to_string()];
    let subs = vec![0usize, 1, 0];
    let counts = vec![10u32, 5, 3];
    let m = overlaps_from_columns(&authors, &subs, &counts).unwrap();
    assert_eq!(m.len(), 2);
    assert_eq!(m[0][1], 1101273667);
    assert_eq!(m[1][0], 1101273667);
}

#[test]
fn too_many_communities_is_an_error() {
    let authors = vec!["u1".to_string()];
    let subs = vec![usize::MAX - 1];
    let counts = vec![1u32];
    assert_eq!(overlaps_from_columns(&authors, &subs, &counts), Err(NetworkError::TooManyCommunities));
}

#[test]
fn tiny_shares_stay_positive() {
    // One comment in each of two communities, the second holding 2^32
    // comments: the exact score is 1 / 2^33, which rounds up to one unit.
    let profiles = vec![vec![(0usize, 1u64), (1usize, 1u64)]];
    let totals = vec![1u64, 4294967296u64];
    let m = compute_overlaps_arr(&profiles, &totals);
    assert_eq!(m[0][1], 1);
    assert_eq!(m[1][0], 1);
    let edges = edges_of(&m);
    assert_eq!(edges, vec![(0, 1, 1), (1, 0, 1)]);
}

#[test]
fn zero_counts_give_no_edge() {
    let profiles = vec![vec![(0usize, 0u64), (1usize, 4u64)], vec![(0usize, 3u64), (2usize, 2u64)]];
    let totals = vec![3u64, 4u64, 2u64];
    let m = compute_overlaps_arr(&profiles, &totals);
    assert_eq!(m[0][1], 0);
    assert_eq!(m[1][0], 0);
    assert!(m[0][2] > 0);
    assert_eq!(m[1][2], 0);
}

#[test]
fn removing_moderator_rows_changes_nothing() {
    let with = vec![rec(10, "a", "u1"), rec(50, "c", "AutoModerator"), rec(5, "b", "u1"), rec(9, "a", "AutoModerator"), rec(3, "a", "u2")];
    let without = three_records();
    let (m1, i1) = build_adjacency_matrix(with, 1000, 0).unwrap();
    let (m2, i2) = build_adjacency_matrix(without, 1000, 0).unwrap();
    assert_eq!(m1, m2);
    assert_eq!(i1.names(), i2.names());
}

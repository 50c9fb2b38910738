use disk_usage::classify::Category;
use disk_usage::error::ConfigError;
use disk_usage::largest::{copy_files, offer_file};
use disk_usage::stats::AnalyzerStats;

fn names(list: &Vec<(String, u64)>) -> Vec<(&str, u64)> {
    list.iter().map(|(path, size)| (path.as_str(), *size)).collect()
}

#[test]
fn files_below_the_threshold_are_never_listed() {
    let mut list: Vec<(String, u64)> = Vec::new();
    offer_file(&mut list, "small", 99, 10, 100);
    assert!(list.is_empty());
    offer_file(&mut list, "edge", 100, 10, 100);
    assert_eq!(names(&list), vec![("edge", 100)]);
}

#[test]
fn the_list_is_kept_in_descending_order() {
    let mut list: Vec<(String, u64)> = Vec::new();
    for (path, size) in [("c", 30), ("a", 50), ("e", 10), ("b", 40), ("d", 20)] {
        offer_file(&mut list, path, size, 10, 0);
    }
    assert_eq!(names(&list), vec![("a", 50), ("b", 40), ("c", 30), ("d", 20), ("e", 10)]);
}

#[test]
fn among_equal_sizes_the_first_seen_stays_first() {
    let mut list: Vec<(String, u64)> = Vec::new();
    for (path, size) in [("first", 5), ("big", 9), ("second", 5), ("third", 5), ("small", 1)] {
        offer_file(&mut list, path, size, 10, 0);
    }
    assert_eq!(
        names(&list),
        vec![("big", 9), ("first", 5), ("second", 5), ("third", 5), ("small", 1)]
    );
}

#[test]
fn the_list_is_cut_back_to_its_bound() {
    let mut list: Vec<(String, u64)> = Vec::new();
    for (path, size) in [("a", 1), ("b", 2), ("c", 3), ("d", 4), ("e", 5)] {
        offer_file(&mut list, path, size, 3, 0);
        assert!(list.len() <= 3);
    }
    assert_eq!(names(&list), vec![("e", 5), ("d", 4), ("c", 3)]);
    offer_file(&mut list, "tie", 3, 3, 0);
    assert_eq!(names(&list), vec![("e", 5), ("d", 4), ("c", 3)]);
    offer_file(&mut list, "new", 4, 3, 0);
    assert_eq!(names(&list), vec![("e", 5), ("d", 4), ("new", 4)]);
}

#[test]
fn a_bound_of_zero_keeps_the_list_empty() {
    let mut list: Vec<(String, u64)> = Vec::new();
    offer_file(&mut list, "a", 1000, 0, 0);
    assert!(list.is_empty());
}

#[test]
fn a_longer_list_is_cut_back_too() {
    let mut list: Vec<(String, u64)> =
        vec![("a".to_string(), 9), ("b".to_string(), 8), ("c".to_string(), 7)];
    offer_file(&mut list, "d", 1, 2, 0);
    assert_eq!(names(&list), vec![("a", 9), ("b", 8)]);
}

#[test]
fn unlisted_files_are_no_larger_than_listed_ones() {
    let offered: Vec<(&str, u64)> =
        vec![("a", 70), ("b", 10), ("c", 95), ("d", 70), ("e", 64), ("f", 300), ("g", 63), ("h", 70)];
    let threshold = 64;
    let top_n = 3;
    let mut list: Vec<(String, u64)> = Vec::new();
    for (path, size) in &offered {
        offer_file(&mut list, path, *size, top_n, threshold);
    }
    assert_eq!(names(&list), vec![("f", 300), ("c", 95), ("a", 70)]);
    let smallest = list.last().unwrap().1;
    for (path, size) in &offered {
        let listed = list.iter().any(|(p, s)| p == path && s == size);
        if *size >= threshold && !listed {
            assert_eq!(list.len() as u64, top_n);
            assert!(*size <= smallest);
        }
    }
}

#[test]
fn copies_are_equal() {
    let list: Vec<(String, u64)> = vec![("a".to_string(), 9), ("b".to_string(), 8)];
    assert_eq!(copy_files(&list), list);
    assert_eq!(copy_files(&Vec::new()), Vec::<(String, u64)>::new());
}

#[test]
fn a_fresh_tracker_holds_nothing() {
    let stats = AnalyzerStats::new("**/node_modules", 100, 50).unwrap();
    assert!(stats.get_largest().is_empty());
    assert!(stats.developer_dirs().is_empty());
    assert_eq!(stats.dev_total_usage(), 0);
    assert_eq!(stats.totals().entries().iter().map(|row| row.1).sum::<u64>(), 0);
    assert_eq!(stats.reclaimable_glob(), "**/node_modules");
}

#[test]
fn a_malformed_glob_makes_no_tracker() {
    assert!(matches!(AnalyzerStats::new("a/**b", 100, 50), Err(ConfigError::ReclaimablePattern)));
}

#[test]
fn registering_counts_and_lists() {
    let mut stats = AnalyzerStats::new("**/node_modules", 2, 50).unwrap();
    stats.register_file("/x/a.jpg", 60);
    stats.register_file("/x/b.txt", 10);
    stats.register_file("/x/c.mp3", 70);
    stats.register_file("/x/d.png", 80);
    assert_eq!(stats.totals().images, 140);
    assert_eq!(stats.totals().documents, 10);
    assert_eq!(stats.totals().music, 70);
    assert_eq!(names(stats.get_largest()), vec![("/x/d.png", 80), ("/x/c.mp3", 70)]);
    let sum: u64 = stats.totals().entries().iter().map(|row| row.1).sum();
    assert_eq!(sum, 220);
    assert_eq!(stats.total_bytes(), 220);
}

#[test]
fn registering_under_a_given_category() {
    let mut stats = AnalyzerStats::new("", 5, 0).unwrap();
    stats.register_classified("whatever.jpg", 3, Category::Archives);
    assert_eq!(stats.totals().archives, 3);
    assert_eq!(stats.totals().images, 0);
    assert_eq!(names(stats.get_largest()), vec![("whatever.jpg", 3)]);
}

#[test]
fn push_largest_lists_without_counting() {
    let mut stats = AnalyzerStats::new("", 5, 10).unwrap();
    stats.push_largest("big.bin", 11);
    stats.push_largest("small.bin", 9);
    assert_eq!(names(stats.get_largest()), vec![("big.bin", 11)]);
    assert_eq!(stats.totals().entries().iter().map(|row| row.1).sum::<u64>(), 0);
}

#[test]
fn directories_are_reclaimable_by_their_base_name() {
    let mut stats = AnalyzerStats::new("**/node_modules", 5, 10).unwrap();
    assert!(stats.is_reclaimable("/a/b/node_modules"));
    assert!(stats.is_reclaimable("node_modules"));
    assert!(!stats.is_reclaimable("/a/node_modules/b"));
    assert!(!stats.is_reclaimable("/a/node_modules_old"));
    stats.register_dir_usage("/a/src", 5);
    stats.register_dir_usage("/a/node_modules", 200);
    stats.register_dir_usage("/b/node_modules", 0);
    assert_eq!(names(stats.developer_dirs()), vec![("/a/node_modules", 200), ("/b/node_modules", 0)]);
    assert_eq!(stats.dev_total_usage(), 200);
}

#[test]
fn record_dir_goes_by_what_it_is_told() {
    let mut stats = AnalyzerStats::new("**/node_modules", 5, 10).unwrap();
    stats.record_dir("/a/node_modules", 7, false);
    assert!(stats.developer_dirs().is_empty());
    stats.record_dir("/a/anything", 7, true);
    assert_eq!(names(stats.developer_dirs()), vec![("/a/anything", 7)]);
    assert_eq!(stats.dev_total_usage(), 7);
}

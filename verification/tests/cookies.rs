use redlib_subreddit::cookies::join_until_size_limit;

fn names(v: &[&str]) -> Vec<String> {
    v.iter().map(|s| s.to_string()).collect()
}

#[test]
fn join_small_list_fits_one_cookie() {
    assert_eq!(join_until_size_limit(&names(&["rust", "linux", "AskReddit"])), vec!["rust+linux+AskReddit".to_string()]);
}

#[test]
fn join_empty_list_gives_one_empty_value() {
    assert_eq!(join_until_size_limit(&[]), vec![String::new()]);
}

#[test]
fn join_long_list_splits_with_trailing_plus() {
    let items: Vec<String> = (0..1000).map(|i| format!("sub{:03}", i)).collect();
    let chunks = join_until_size_limit(&items);
    assert_eq!(chunks.len(), 2);
    assert_eq!(chunks[0].len(), 3990);
    assert_eq!(chunks[1].len(), 3009);
    assert!(chunks[0].ends_with('+'));
    assert!(!chunks[1].ends_with('+'));
    // what a reader of the cookies gets back
    assert_eq!(chunks.concat(), items.join("+"));
}

#[test]
fn join_counts_bytes_not_characters() {
    let items: Vec<String> = vec!["é".repeat(10); 500];
    let chunks = join_until_size_limit(&items);
    let sizes: Vec<usize> = chunks.iter().map(|c| c.len()).collect();
    assert_eq!(sizes, vec![3969, 3969, 2561]);
    assert_eq!(chunks.concat(), items.join("+"));
    assert!(chunks.iter().all(|c| c.len() <= 4001));
}

#[test]
fn join_oversized_first_item_opens_with_a_lone_plus() {
    let big = "x".repeat(4001);
    let chunks = join_until_size_limit(&[big.clone(), "y".to_string()]);
    assert_eq!(chunks[0], "+");
    assert_eq!(chunks[1], format!("{big}+"));
    assert_eq!(chunks[2], "y");
}

#[test]
fn join_oversized_item_stands_alone() {
    let big = "z".repeat(5000);
    let chunks = join_until_size_limit(&["a".to_string(), big.clone(), "b".to_string()]);
    assert_eq!(chunks, vec!["a+".to_string(), format!("{big}+"), "b".to_string()]);
}

#[test]
fn join_skips_separator_after_empty_start() {
    let chunks = join_until_size_limit(&["".to_string(), "a".to_string()]);
    assert_eq!(chunks, vec!["a".to_string()]);
}

use redlib_subreddit::listing::{
    all_posts_hidden_nsfw, all_subs_filtered, default_feeds_notice, geo_filter, listing_api_path,
    listing_api_path_in,
    listing_failure, listing_sort, new_posts_order, parse_u32, post_limit, redirect_url,
    resolve_sub_name, subreddit_source, user_redirect, FetchFailure, PostOrderKey, SubredditSource,
    FRONT_PAGE_NOT_DEFAULT, SUBSCRIBE_FIRST,
};

#[test]
fn sub_name_comes_from_path_then_front_page() {
    assert_eq!(resolve_sub_name(Some("rust"), "linux", "all"), "rust");
    assert_eq!(resolve_sub_name(None, "linux+rust", "default"), "linux+rust");
    assert_eq!(resolve_sub_name(None, "", ""), "popular");
    assert_eq!(resolve_sub_name(None, "linux", "all"), "all");
}

#[test]
fn default_feeds_can_be_disabled() {
    assert_eq!(default_feeds_notice("popular", true, ""), Some(SUBSCRIBE_FIRST));
    assert_eq!(default_feeds_notice("all", true, "rust"), Some(FRONT_PAGE_NOT_DEFAULT));
    assert_eq!(default_feeds_notice("all", false, ""), None);
    assert_eq!(default_feeds_notice("rust", true, ""), None);
}

#[test]
fn user_subreddits_redirect_to_profiles() {
    assert_eq!(user_redirect(true, "u_spez"), Some("/user/spez".to_string()));
    assert_eq!(user_redirect(false, "u_spez"), None);
    assert_eq!(user_redirect(true, "rust"), None);
}

#[test]
fn metadata_source_by_kind_of_listing() {
    assert!(matches!(subreddit_source("rust", "linux", "/r/rust"), SubredditSource::Fetch));
    assert!(matches!(subreddit_source("linux", "linux", "/r/linux"), SubredditSource::Fetch));
    assert!(matches!(subreddit_source("linux", "linux", "/"), SubredditSource::Blank));
    assert!(matches!(subreddit_source("rust+linux", "", "/r/rust+linux"), SubredditSource::NameOnly));
    assert!(matches!(subreddit_source("popular", "", "/"), SubredditSource::NameOnly));
}

#[test]
fn parse_u32_follows_std() {
    for s in ["", "+", "-1", "-0", "12a", " 5", "4294967295", "4294967296", "+7", "007", "99999999999999999999"] {
        assert_eq!(parse_u32(s), s.parse::<u32>().ok(), "{s:?}");
    }
}

#[test]
fn post_limit_is_clamped() {
    assert_eq!(post_limit("25"), 25);
    assert_eq!(post_limit("0"), 1);
    assert_eq!(post_limit("500"), 100);
    assert_eq!(post_limit("many"), 50);
    assert_eq!(post_limit(""), 50);
}

#[test]
fn geo_filter_from_query() {
    assert_eq!(geo_filter("geo_filter=US&t=day"), "US");
    assert_eq!(geo_filter("t=day"), "GLOBAL");
    assert_eq!(geo_filter("geo_filter=&t=day"), "GLOBAL");
}

#[test]
fn api_path_of_listing() {
    assert_eq!(listing_api_path("rust+linux", "hot", "t=day", "10"), "/r/rust%2Blinux/hot.json?t=day&raw_json=1&limit=10");
    assert_eq!(listing_api_path("popular", "top", "geo_filter=GB", "x"), "/r/popular/top.json?geo_filter=GB&raw_json=1&limit=50&geo_filter=GB");
    assert_eq!(listing_api_path("popular", "hot", "", "100"), "/r/popular/hot.json?&raw_json=1&limit=100&geo_filter=GLOBAL");
}

#[test]
fn redirect_url_escapes_query_characters() {
    assert_eq!(redirect_url("/r/rust+linux?sort=new&t=day"), "r/rust%2Blinux%3Fsort=new%26t=day");
    assert_eq!(redirect_url("/"), "");
}

#[test]
fn all_filtered_checks_every_part() {
    let filters = vec!["rust".to_string(), "linux".to_string()];
    assert!(all_subs_filtered("rust+linux", &filters));
    assert!(!all_subs_filtered("rust+go", &filters));
    assert!(!all_subs_filtered("rust+", &filters));
}

#[test]
fn nsfw_pages_are_hidden_only_when_all_nsfw() {
    assert!(all_posts_hidden_nsfw(&vec![true, true], "off"));
    assert!(!all_posts_hidden_nsfw(&vec![true, true], "on"));
    assert!(!all_posts_hidden_nsfw(&vec![true, false], ""));
    assert!(!all_posts_hidden_nsfw(&vec![], ""));
}

#[test]
fn new_sort_puts_pinned_then_newest_first() {
    let keys = vec![
        PostOrderKey { stickied: false, created_ts: 10 },
        PostOrderKey { stickied: true, created_ts: 5 },
        PostOrderKey { stickied: false, created_ts: 30 },
        PostOrderKey { stickied: false, created_ts: 10 },
        PostOrderKey { stickied: true, created_ts: 7 },
    ];
    assert_eq!(new_posts_order(&keys), vec![4, 1, 2, 0, 3]);
    assert_eq!(new_posts_order(&vec![]), Vec::<usize>::new());
}

#[test]
fn sort_falls_back_to_cookie_then_hot() {
    assert_eq!(listing_sort(Some("top"), Some("new"), Some("rising")), "top");
    assert_eq!(listing_sort(None, Some("new"), Some("rising")), "new");
    assert_eq!(listing_sort(None, None, Some("rising")), "rising");
    assert_eq!(listing_sort(None, None, None), "hot");
}

#[test]
fn failures_map_to_walls_and_messages() {
    assert!(matches!(listing_failure("edgy", "quarantined"), FetchFailure::Wall(m) if m == "quarantined"));
    assert!(matches!(listing_failure("drugs", "gated"), FetchFailure::Wall(m) if m == "gated"));
    assert!(matches!(listing_failure("x", "private"), FetchFailure::Error(m) if m == "r/x is a private community"));
    assert!(matches!(listing_failure("x", "banned"), FetchFailure::Error(m) if m == "r/x has been banned from Reddit"));
    assert!(matches!(listing_failure("x", "boom"), FetchFailure::Error(m) if m == "boom"));
}

#[test]
fn listing_path_in_a_given_region() {
    assert_eq!(listing_api_path_in("popular", "hot", "t=day", "", "DE"), "/r/popular/hot.json?t=day&raw_json=1&limit=50&geo_filter=DE");
    assert_eq!(listing_api_path_in("a+b+c", "new", "", "0", "DE"), "/r/a%2Bb%2Bc/new.json?&raw_json=1&limit=1");
}

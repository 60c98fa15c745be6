use redlib_subreddit::cookies::CookieLifetime;
use redlib_subreddit::subscriptions::{
    action_words, apply_action, cookie_updates, fetched_display_name, known_display_name,
    random_sub_error, remove_ignoring_case, sort_by_lowercase, subscription_parts, CookieUpdate,
};

fn strings(v: &[&str]) -> Vec<String> {
    v.iter().map(|s| s.to_string()).collect()
}

#[test]
fn action_words_come_from_path_segments() {
    let w = action_words("/r/rust/subscribe");
    assert!(w.subscribe && !w.unsubscribe && !w.filter && !w.unfilter);
    let w = action_words("/r/rust/unfilter");
    assert!(!w.subscribe && !w.filter && w.unfilter);
}

#[test]
fn random_subreddits_are_refused() {
    assert_eq!(random_sub_error("random", &action_words("/r/random/subscribe")), Some("Can't subscribe to random subreddit!"));
    assert_eq!(random_sub_error("randnsfw", &action_words("/r/randnsfw/filter")), Some("Can't filter random subreddit!"));
    assert_eq!(random_sub_error("rust", &action_words("/r/rust/filter")), None);
}

#[test]
fn parts_skip_empty_names() {
    assert_eq!(subscription_parts("a++b+"), strings(&["a", "b"]));
    assert_eq!(subscription_parts(""), Vec::<String>::new());
}

#[test]
fn display_names_from_posts_or_as_given() {
    let names = strings(&["Rust", "linux"]);
    assert_eq!(known_display_name("rust", &names), Some("Rust".to_string()));
    assert_eq!(known_display_name("u_alice", &names), Some("u_alice".to_string()));
    assert_eq!(known_display_name("golang", &names), None);
    assert_eq!(fetched_display_name(Some("GoLang"), "golang"), "GoLang");
    assert_eq!(fetched_display_name(None, "golang"), "golang");
}

#[test]
fn lists_sort_ignoring_case_stably() {
    assert_eq!(sort_by_lowercase(&strings(&["b", "A", "a", "C"])), strings(&["A", "a", "b", "C"]));
    assert_eq!(remove_ignoring_case(&strings(&["Rust", "go", "RUST"]), "rust"), strings(&["go"]));
}

#[test]
fn subscribing_adds_sorts_and_unfilters() {
    let mut subs = strings(&["linux", "Go"]);
    let mut filters = strings(&["RUST", "news"]);
    apply_action(&action_words("/r/Rust/subscribe"), &mut subs, &mut filters, "Rust");
    assert_eq!(subs, strings(&["Go", "linux", "Rust"]));
    assert_eq!(filters, strings(&["news"]));
}

#[test]
fn subscribing_twice_changes_nothing() {
    let mut subs = strings(&["rust"]);
    let mut filters = strings(&["b", "a"]);
    apply_action(&action_words("/r/rust/subscribe"), &mut subs, &mut filters, "rust");
    assert_eq!(subs, strings(&["rust"]));
    assert_eq!(filters, strings(&["b", "a"]));
}

#[test]
fn unsubscribing_and_filtering() {
    let mut subs = strings(&["Rust", "go"]);
    let mut filters = strings(&[]);
    apply_action(&action_words("/r/rust/unsubscribe"), &mut subs, &mut filters, "rust");
    assert_eq!(subs, strings(&["go"]));
    apply_action(&action_words("/r/Go/filter"), &mut subs, &mut filters, "Go");
    assert_eq!(subs, Vec::<String>::new());
    assert_eq!(filters, strings(&["Go"]));
    apply_action(&action_words("/r/go/unfilter"), &mut subs, &mut filters, "go");
    assert_eq!(filters, Vec::<String>::new());
}

fn ops_text(ops: &[CookieUpdate]) -> Vec<String> {
    ops.iter()
        .map(|o| match o {
            CookieUpdate::Insert(c) => format!("insert {}={}", c.name, c.value),
            CookieUpdate::Remove(n) => format!("remove {n}"),
        })
        .collect()
}

#[test]
fn cookie_updates_for_empty_list_remove_all() {
    let present = strings(&["subscriptions", "subscriptions1", "subscriptions2", "subscriptions4"]);
    let ops = cookie_updates("subscriptions", &vec![], &present);
    assert_eq!(ops_text(&ops), strings(&["remove subscriptions", "remove subscriptions1", "remove subscriptions2"]));
}

#[test]
fn cookie_updates_write_chunks_and_drop_stale_ones() {
    let present = strings(&["filters", "filters1", "filters2", "filters3"]);
    let ops = cookie_updates("filters", &strings(&["a", "b"]), &present);
    assert_eq!(ops_text(&ops), strings(&["insert filters=a+b", "remove filters1", "remove filters2", "remove filters3"]));
    let many: Vec<String> = (0..1000).map(|i| format!("sub{:03}", i)).collect();
    let ops = cookie_updates("subscriptions", &many, &strings(&[]));
    let text = ops_text(&ops);
    assert_eq!(text.len(), 2);
    assert!(text[0].starts_with("insert subscriptions=sub000+"));
    assert!(text[1].starts_with("insert subscriptions1="));
}

#[test]
fn unsubscribe_undoes_subscribe() {
    let mut subs = strings(&["linux", "Go", "RUST"]);
    let mut filters = strings(&["rust", "news"]);
    apply_action(&action_words("/r/Rust/subscribe"), &mut subs, &mut filters, "Rust");
    let filters_after_subscribe = filters.clone();
    apply_action(&action_words("/r/Rust/unsubscribe"), &mut subs, &mut filters, "Rust");
    assert_eq!(subs, strings(&["Go", "linux"]));
    assert_eq!(filters, filters_after_subscribe);
}

#[test]
fn unfilter_undoes_filter() {
    let mut subs = strings(&["Go"]);
    let mut filters = strings(&["news", "b"]);
    apply_action(&action_words("/r/go/filter"), &mut subs, &mut filters, "go");
    let subs_after_filter = subs.clone();
    apply_action(&action_words("/r/go/unfilter"), &mut subs, &mut filters, "go");
    assert_eq!(filters, strings(&["b", "news"]));
    assert_eq!(subs, subs_after_filter);
}

#[test]
fn list_cookies_are_site_wide_http_only_for_a_year() {
    let ops = cookie_updates("subscriptions", &strings(&["rust", "linux"]), &strings(&["subscriptions1"]));
    assert_eq!(ops.len(), 2);
    match &ops[0] {
        CookieUpdate::Insert(c) => {
            assert_eq!((c.name.as_str(), c.value.as_str(), c.path.as_str()), ("subscriptions", "rust+linux", "/"));
            assert!(c.http_only);
            assert_eq!(c.lifetime, CookieLifetime::Weeks(52));
        }
        CookieUpdate::Remove(_) => panic!("expected an insert"),
    }
    assert!(matches!(&ops[1], CookieUpdate::Remove(n) if n == "subscriptions1"));
}

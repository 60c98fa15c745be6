use redlib_subreddit::cookies::CookieLifetime;
use redlib_subreddit::feed::RssItemText;
use redlib_subreddit::listing::FetchFailure;
use redlib_subreddit::pages::{
    about_api_path, can_access_quarantine, member_count, page_failure, page_subreddit,
    quarantine_cookie_name, quarantine_exception, quarantine_wall_title, rss_api_path, rss_channel,
    rss_feed,
    subreddit_icon, subscription_redirect, wiki_api_path, wiki_content, wiki_page_name,
};

#[test]
fn quarantine_wall_and_cookie() {
    assert_eq!(quarantine_wall_title("edgy", "quarantined"), "r/edgy is quarantined");
    assert_eq!(quarantine_cookie_name("EdGy"), "allow_quaran_edgy");
    assert!(can_access_quarantine("true"));
    assert!(!can_access_quarantine("True"));
    assert!(!can_access_quarantine(""));
}

#[test]
fn quarantine_exception_needs_sub_and_redirect() {
    let (cookie, redir) = quarantine_exception(Some("Edgy"), Some("/r/edgy")).ok().unwrap();
    assert_eq!(cookie.name, "allow_quaran_edgy");
    assert_eq!(cookie.value, "true");
    assert_eq!(cookie.path, "/");
    assert!(cookie.http_only);
    assert_eq!(cookie.lifetime, CookieLifetime::Session);
    assert_eq!(redir, "/r/edgy");
    assert_eq!(quarantine_exception(None, Some("/r/edgy")).err(), Some("Invalid URL"));
    assert_eq!(quarantine_exception(Some("edgy"), None).err(), Some("Invalid URL"));
}

#[test]
fn wiki_and_sidebar_paths() {
    assert_eq!(page_subreddit(None), "reddit.com");
    assert_eq!(wiki_page_name(None), "index");
    assert_eq!(wiki_api_path("rust", "faq"), "/r/rust/wiki/faq.json?raw_json=1");
    assert_eq!(about_api_path("rust"), "/r/rust/about.json?raw_json=1");
    assert_eq!(wiki_content(None), "<h3>Wiki not found</h3>");
    assert_eq!(wiki_content(Some("<p>x</p>")), "<p>x</p>");
    assert!(matches!(page_failure("gated"), FetchFailure::Wall(_)));
    assert!(matches!(page_failure("private"), FetchFailure::Error(m) if m == "private"));
}

#[test]
fn subreddit_metadata() {
    assert_eq!(subreddit_icon("", "icon.png"), "icon.png");
    assert_eq!(subreddit_icon("c.png", "icon.png"), "c.png");
    assert_eq!(member_count(Some(42)), 42);
    assert_eq!(member_count(None), 0);
    assert_eq!(member_count(Some(u64::MAX)), -1);
    assert_eq!(member_count(Some(1u64 << 63)), i64::MIN);
}

#[test]
fn feed_channel_and_path() {
    let c = rss_channel("", "rust");
    assert_eq!((c.title.as_str(), c.link.as_str(), c.image_url.as_str(), c.image_title.as_str(), c.image_link.as_str()), ("/r/rust", "/r/rust", "/favicon.png", "Redlib", "/"));
    let c = rss_channel("https://r.example", "rust");
    assert_eq!(c.link, "https://r.example/r/rust");
    assert_eq!(c.image_url, "https://r.example/favicon.png");
    assert_eq!(c.image_link, "https://r.example");
    assert_eq!(rss_api_path("rust", "new", "t=all"), "/r/rust/new.json?t=all");
}

#[test]
fn redirect_after_subscription_change() {
    assert_eq!(subscription_redirect(Some("settings"), "rust"), "/settings");
    assert_eq!(subscription_redirect(None, "rust"), "/r/rust");
}

#[test]
fn consent_cookie_lets_the_subreddit_through_in_any_case() {
    let (cookie, _) = quarantine_exception(Some("EdGy"), Some("/r/EdGy")).ok().unwrap();
    assert_eq!(cookie.name, quarantine_cookie_name("edgy"));
    assert_eq!(cookie.name, quarantine_cookie_name("EDGY"));
    assert!(can_access_quarantine(&cookie.value));
}

#[test]
fn feed_document_holds_channel_and_items() {
    let item = RssItemText {
        title: "A & B".to_string(),
        link: "https://r.example/r/rust/comments/1/a/".to_string(),
        author: "/u/alice".to_string(),
        comments: "https://r.example/r/rust/comments/1/a/".to_string(),
        guid: "https://r.example/r/rust/comments/1/a/".to_string(),
        content: "<p>hi</p>".to_string(),
        description: "hi".to_string(),
        pub_date: "Thu, 1 Jan 1970 00:00:00 +0000".to_string(),
    };
    let xml = rss_feed("https://r.example", "rust", "About Rust", vec![item]);
    assert!(xml.starts_with("<?xml version=\"1.0\" encoding=\"utf-8\"?><rss version=\"2.0\""));
    assert!(xml.contains("<title>/r/rust</title>"));
    assert!(xml.contains("<link>https://r.example/r/rust</link>"));
    assert!(xml.contains("<description>About Rust</description>"));
    assert!(xml.contains("<url>https://r.example/favicon.png</url>"));
    assert!(xml.contains("<title>A &amp; B</title>"));
    assert!(xml.contains("<guid>https://r.example/r/rust/comments/1/a/</guid>"));
    assert!(xml.contains("<pubDate>Thu, 1 Jan 1970 00:00:00 +0000</pubDate>"));
    assert!(xml.ends_with("</rss>"));
}

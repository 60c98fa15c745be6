use chrono::Datelike;
use redlib_subreddit::feed::{RFC2822_MAX_SECS, RFC2822_MIN_SECS};
use redlib_subreddit::feed::{
    gallery_html, rss_base_url, rss_item, rss_item_from, rss_pub_date, RssGalleryImage, RssPost, CHRONO_MAX_SECS,
    CHRONO_MIN_SECS,
};

#[test]
fn base_url_prefers_configured_url() {
    assert_eq!(rss_base_url(Some("https://red.example/"), Some("host"), None), "https://red.example");
    assert_eq!(rss_base_url(Some("   "), Some("red.example"), None), "https://red.example");
    assert_eq!(rss_base_url(None, Some(" localhost:8080 "), None), "http://localhost:8080");
    assert_eq!(rss_base_url(None, Some("127.0.0.1"), None), "http://127.0.0.1");
    assert_eq!(rss_base_url(None, Some("red.example"), Some(" http , https")), "http://red.example");
    assert_eq!(rss_base_url(None, Some("red.example"), Some(" ,https")), "https://red.example");
    assert_eq!(rss_base_url(None, None, Some("http")), "");
}

#[test]
fn pub_date_is_rfc2822() {
    assert_eq!(rss_pub_date(0), "Thu, 1 Jan 1970 00:00:00 +0000");
    assert_eq!(rss_pub_date(1431648000), "Fri, 15 May 2015 00:00:00 +0000");
    // past chrono's range the epoch is used
    assert_eq!(rss_pub_date(CHRONO_MAX_SECS as u64 + 1), "Thu, 1 Jan 1970 00:00:00 +0000");
}

#[test]
fn chrono_range_matches_library_constants() {
    assert!(chrono::DateTime::from_timestamp(CHRONO_MAX_SECS, 0).is_some());
    assert!(chrono::DateTime::from_timestamp(CHRONO_MAX_SECS + 1, 0).is_none());
    assert!(chrono::DateTime::from_timestamp(CHRONO_MIN_SECS, 0).is_some());
    assert!(chrono::DateTime::from_timestamp(CHRONO_MIN_SECS - 1, 0).is_none());
}

fn post() -> RssPost {
    RssPost {
        title: "A <title>".to_string(),
        post_type: "self".to_string(),
        domain: "self.rust".to_string(),
        permalink: "/r/rust/comments/1/a/".to_string(),
        out_url: None,
        media_url: String::new(),
        media_poster: String::new(),
        media_alt_url: String::new(),
        gallery: Vec::new(),
        body: "<p>Body &amp; text</p>".to_string(),
        author: "alice".to_string(),
        score: "12".to_string(),
        comments: "3".to_string(),
        created_ts: 0,
    }
}

#[test]
fn self_post_item() {
    let p = post();
    let item = rss_item("https://red.example", &p, "<p>Body & text <a href=\"/r/x\">x</a></p>");
    assert_eq!(item.title, "A <title>");
    assert_eq!(item.link, "https://red.example/r/rust/comments/1/a/");
    assert_eq!(item.guid, item.link);
    assert_eq!(item.comments, item.link);
    assert_eq!(item.author, "/u/alice");
    assert_eq!(item.description, "Body & text");
    assert_eq!(item.pub_date, "Thu, 1 Jan 1970 00:00:00 +0000");
    assert_eq!(
        item.content,
        "<p><strong>Points: 12 | Comments: 3 | submitted by <a href=\"https://red.example/u/alice\">/u/alice</a></strong></p><hr><p>Body & text <a href=\"https://red.example/r/x\">x</a></p>"
    );
}

#[test]
fn link_post_item_names_domain_and_links() {
    let mut p = post();
    p.post_type = "link".to_string();
    p.domain = "example.com".to_string();
    p.out_url = Some("https://example.com/a?b=1&c=2".to_string());
    let item = rss_item("", &p, "");
    assert_eq!(item.title, "A <title> (example.com)");
    assert_eq!(
        item.content,
        "<p><strong>Points: 12 | Comments: 3 | submitted by <a href=\"/u/alice\">/u/alice</a></strong></p><p><a href=\"https://example.com/a?b=1&amp;c=2\">[link]</a> <a href=\"/r/rust/comments/1/a/\">[comments]</a></p><hr>"
    );
}

#[test]
fn youtube_post_item_embeds_player() {
    let mut p = post();
    p.post_type = "link".to_string();
    p.domain = "youtube.com".to_string();
    p.out_url = Some("https://www.youtube.com/watch?v=dQw4w9WgXcQ".to_string());
    let item = rss_item("", &p, "");
    assert_eq!(item.title, "A <title> (Video)");
    assert!(item.content.contains("<hr><iframe width=\"560\" height=\"315\" src=\"https://www.youtube.com/embed/dQw4w9WgXcQ\""));
}

#[test]
fn image_post_item_shows_image() {
    let mut p = post();
    p.post_type = "image".to_string();
    p.domain = "i.redd.it".to_string();
    p.media_url = "/img/abc.png".to_string();
    let item = rss_item("https://red.example", &p, "");
    assert_eq!(item.title, "A <title> (image)");
    assert!(item.content.ends_with("<hr><p><img src=\"https://red.example/img/abc.png\" alt=\"A &lt;title&gt;\" /></p>"));
}

#[test]
fn video_post_without_poster_links_comments() {
    let mut p = post();
    p.post_type = "video".to_string();
    p.media_url = "https://v.redd.it/abc/HLS.m3u8".to_string();
    let item = rss_item("", &p, "");
    assert_eq!(item.title, "A <title> (video)");
    assert!(item.content.ends_with("<hr><p><a href=\"/r/rust/comments/1/a/\">Video link</a></p>"));
    p.media_poster = "https://x/p.jpg".to_string();
    let item = rss_item("", &p, "");
    assert!(item.content.ends_with("<hr><p><video controls preload=\"metadata\" poster=\"https://x/p.jpg\"><source src=\"https://v.redd.it/abc/HLS.m3u8\"><img src=\"https://x/p.jpg\" alt=\"A &lt;title&gt;\" /></video></p>"));
}

#[test]
fn gallery_images_with_sizes_and_captions() {
    let imgs = vec![
        RssGalleryImage { url: "/a.png".to_string(), width: 640, height: 0, caption: "One & two".to_string() },
        RssGalleryImage { url: String::new(), width: 1, height: 1, caption: String::new() },
        RssGalleryImage { url: "https://i.redd.it/b.png".to_string(), width: 0, height: 480, caption: String::new() },
    ];
    assert_eq!(
        gallery_html("https://r.example", &imgs),
        "<p><img src=\"https://r.example/a.png\" alt=\"One &amp; two\" width=\"640\" /></p><p>One &amp; two</p><p><img src=\"https://i.redd.it/b.png\" alt=\"\" height=\"480\" /></p>"
    );
}

#[test]
fn rfc2822_range_matches_library_constants() {
    let last = chrono::DateTime::from_timestamp(RFC2822_MAX_SECS, 0).unwrap();
    assert_eq!(last.to_rfc2822(), "Fri, 31 Dec 9999 23:59:59 +0000");
    assert_eq!(chrono::DateTime::from_timestamp(RFC2822_MAX_SECS + 1, 0).unwrap().year(), 10000);
    let first = chrono::DateTime::from_timestamp(RFC2822_MIN_SECS, 0).unwrap();
    assert_eq!(first.year(), 0);
    assert_eq!(chrono::DateTime::from_timestamp(RFC2822_MIN_SECS - 1, 0).unwrap().year(), -1);
}

#[test]
fn item_from_finished_parts() {
    let p = post();
    let item = rss_item_from("https://red.example", &p, "<p>done</p>", "the description", "Mon, 1 Jan 2024 00:00:00 +0000");
    assert_eq!(item.description, "the description");
    assert_eq!(item.pub_date, "Mon, 1 Jan 2024 00:00:00 +0000");
    assert_eq!(item.title, "A <title>");
    assert_eq!(
        item.content,
        "<p><strong>Points: 12 | Comments: 3 | submitted by <a href=\"https://red.example/u/alice\">/u/alice</a></strong></p><hr><p>done</p>"
    );
}

#[test]
fn chrono_range_ends_are_the_calendar_ends() {
    let first = chrono::DateTime::from_timestamp(CHRONO_MIN_SECS, 0).unwrap();
    assert_eq!((first.year(), first.month(), first.day()), (-262143, 1, 1));
    let last = chrono::DateTime::from_timestamp(CHRONO_MAX_SECS, 0).unwrap();
    assert_eq!((last.year(), last.month(), last.day()), (262142, 12, 31));
}

use redlib_subreddit::links::{
    absolute_url, is_reddit_owned_url, is_youtube_url, media_title_suffix, youtube_embed,
};

#[test]
fn absolute_url_prefixes_site_paths() {
    assert_eq!(absolute_url("https://example.org", "/r/rust"), "https://example.org/r/rust");
    assert_eq!(absolute_url("", "/r/rust"), "/r/rust");
    assert_eq!(absolute_url("https://example.org", "https://other.net/a"), "https://other.net/a");
    assert_eq!(absolute_url("https://example.org", ""), "");
}

#[test]
fn youtube_urls_are_recognised() {
    assert!(is_youtube_url("https://www.youtube.com/watch?v=abc"));
    assert!(is_youtube_url("https://youtu.be/abc"));
    assert!(is_youtube_url("https://youtube.com/embed/abc"));
    assert!(!is_youtube_url("https://vimeo.com/123"));
}

#[test]
fn reddit_owned_urls_ignore_ascii_case() {
    assert!(is_reddit_owned_url("/r/rust/comments/1"));
    assert!(is_reddit_owned_url("HTTPS://WWW.REDDIT.COM/r/rust"));
    assert!(is_reddit_owned_url("https://i.redd.it/x.png"));
    assert!(is_reddit_owned_url("https://external-preview.redd.it/x.png"));
    assert!(!is_reddit_owned_url("https://example.com/r/rust"));
    assert!(!is_reddit_owned_url("https://notreddit.com/"));
}

#[test]
fn media_suffix_follows_type_domain_and_link() {
    assert_eq!(media_title_suffix("gallery", "", None), Some("gallery"));
    assert_eq!(media_title_suffix("link", "", Some("https://www.reddit.com/gallery/abc")), Some("gallery"));
    assert_eq!(media_title_suffix("link", "i.redd.it", None), Some("image"));
    assert_eq!(media_title_suffix("gif", "", None), Some("video"));
    assert_eq!(media_title_suffix("link", "", Some("https://v.redd.it/abc")), Some("video"));
    assert_eq!(media_title_suffix("self", "self.rust", None), None);
}

const PLAYER_END: &str = "\" frameborder=\"0\" allow=\"accelerometer; autoplay; clipboard-write; encrypted-media; gyroscope; picture-in-picture; web-share\" allowfullscreen></iframe>";

#[test]
fn youtube_embed_takes_the_eleven_character_id() {
    let html = youtube_embed("https://www.youtube.com/watch?v=dQw4w9WgXcQ&t=5").unwrap();
    assert_eq!(
        html,
        format!("<iframe width=\"560\" height=\"315\" src=\"https://www.youtube.com/embed/dQw4w9WgXcQ{PLAYER_END}")
    );
}

#[test]
fn youtube_embed_uses_leftmost_link() {
    let html = youtube_embed("see youtu.be/AAAAAAAAAAA and youtube.com/watch?v=BBBBBBBBBBB").unwrap();
    assert!(html.contains("/embed/AAAAAAAAAAA\""));
}

#[test]
fn youtube_embed_skips_links_without_full_id() {
    assert_eq!(youtube_embed("https://youtu.be/short"), None);
    let html = youtube_embed("youtu.be/short then youtube.com/embed/CCCCCCCCCCC").unwrap();
    assert!(html.contains("/embed/CCCCCCCCCCC\""));
    assert_eq!(youtube_embed("https://example.com"), None);
}

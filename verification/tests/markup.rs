use redlib_subreddit::markup::{
    absolutize_html, decode_or_keep, describe_decoded, html_url, inline_image_links, is_unicode_space,
    join_words, rss_description, split_first, trim, trim_end_matches,
};

#[test]
fn html_url_escapes_five_characters() {
    assert_eq!(html_url("<em>Hej!</em>"), "&lt;em&gt;Hej!&lt;/em&gt;");
    assert_eq!(html_url("a \"b\" 'c'"), "a &quot;b&quot; &#x27;c&#x27;");
}

#[test]
fn decoding_falls_back_to_the_text() {
    assert_eq!(decode_or_keep("a &amp; b"), "a & b");
    assert_eq!(decode_or_keep("a &bogus; b"), "a &bogus; b");
    assert_eq!(decode_or_keep("plain"), "plain");
}

#[test]
fn html_url_decodes_then_escapes() {
    assert_eq!(html_url("https://x.org/?a=1&amp;b=2"), "https://x.org/?a=1&amp;b=2");
    assert_eq!(html_url("https://x.org/?a=1&b=2"), "https://x.org/?a=1&amp;b=2");
}

#[test]
fn unicode_space_matches_char_is_whitespace() {
    for u in 0u32..=0x10FFFF {
        if let Some(c) = char::from_u32(u) {
            assert_eq!(is_unicode_space(c), c.is_whitespace(), "{u:#x}");
        }
    }
}

#[test]
fn words_are_joined_by_single_spaces() {
    assert_eq!(join_words("  hello \n\t world  "), "hello world");
    assert_eq!(join_words("   "), "");
    assert_eq!(join_words("a\u{3000}b"), "a b");
}

#[test]
fn trimming_follows_str_trim() {
    assert_eq!(trim("  x y \n"), "x y");
    assert_eq!(trim("\u{a0}x"), "x");
    assert_eq!(trim_end_matches("https://x.org///", '/'), "https://x.org");
    assert_eq!(split_first("https, http", ','), "https");
    assert_eq!(split_first("", ','), "");
}

#[test]
fn description_strips_tags_and_collapses_space() {
    assert_eq!(rss_description("<p>Hello   <b>world</b></p>", "title"), "Hello world");
    assert_eq!(rss_description("a &lt;b&gt; c", "title"), "a c");
    assert_eq!(rss_description("1 <> 2", "title"), "1 <> 2");
    assert_eq!(rss_description("", "The title"), "The title");
    assert_eq!(rss_description("<p> </p>", "The title"), "The title");
}

#[test]
fn description_is_cut_to_280_characters() {
    let body = "é".repeat(300);
    let d = rss_description(&body, "t");
    assert_eq!(d.chars().count(), 280);
    assert!(d.ends_with("..."));
    assert_eq!(d, format!("{}...", "é".repeat(277)));
    let exact = "b".repeat(280);
    assert_eq!(rss_description(&exact, "t"), exact);
}

#[test]
fn absolutize_points_attributes_at_base() {
    assert_eq!(
        absolutize_html("https://x.org", "<a href=\"/r/rust\"><img src=\"/img.png\"><video poster=\"/p.jpg\"></a>"),
        "<a href=\"https://x.org/r/rust\"><img src=\"https://x.org/img.png\"><video poster=\"https://x.org/p.jpg\"></a>"
    );
    assert_eq!(absolutize_html("", "<a href=\"/r/rust\">"), "<a href=\"/r/rust\">");
    assert_eq!(absolutize_html("https://x.org", "<a href=\"https://y.org/\">"), "<a href=\"https://y.org/\">");
}

#[test]
fn image_links_become_images() {
    assert_eq!(
        inline_image_links("<p><a href=\"https://i.redd.it/abc.png\">https://i.redd.it/abc.png</a></p>"),
        "<p><img src=\"https://i.redd.it/abc.png\" alt=\"\" /></p>"
    );
    assert_eq!(inline_image_links("<p>no links</p>"), "<p>no links</p>");
    assert_eq!(
        inline_image_links("<p><a href=\"https://example.com/page\">page</a></p>"),
        "<p><a href=\"https://example.com/page\">page</a></p>"
    );
}

#[test]
fn description_of_an_already_decoded_body() {
    assert_eq!(describe_decoded("<p>a &lt;b&gt;</p>", "t"), "a &lt;b&gt;");
    assert_eq!(describe_decoded("  <br/>  ", "The title"), "The title");
    assert_eq!(describe_decoded(&"x".repeat(281), "t"), format!("{}...", "x".repeat(277)));
}

#[test]
fn absolutizing_twice_changes_nothing() {
    let html = "<a href=\"/r/rust\"><img src=\"/i.png\"><video poster=\"/p.jpg\"> href=\"/x src=\"/y";
    let once = absolutize_html("https://x.org", html);
    assert_eq!(absolutize_html("https://x.org", &once), once);
    let once = absolutize_html("", html);
    assert_eq!(absolutize_html("", &once), once);
}

//! Classifying and completing the links of a post.
use vstd::prelude::*;
use crate::text::{
    ascii_lowercase, chars_of, concat2, concat3, contains, contains_exec, occurs_at,
    starts_with, starts_with_exec, text_eq, to_ascii_lowercase,
};

verus! {

/// `url` made absolute against `base`: a link that starts with `/` gets
/// `base` in front when there is a base; an empty link stays empty.
pub open spec fn absolute_url_of(base: Seq<char>, url: Seq<char>) -> Seq<char> {
    if url.len() == 0 {
        Seq::empty()
    } else if url[0] == '/' && base.len() > 0 {
        base + url
    } else {
        url
    }
}

/// Makes a site-relative link absolute against the feed's base URL.
pub fn absolute_url(base_url: &str, url: &str) -> (r: String)
    ensures
        r@ == absolute_url_of(base_url@, url@),
{
    let uv = chars_of(url);
    if uv.len() == 0 {
        String::new()
    } else if uv[0] == '/' && !base_url.is_empty() {
        concat2(base_url, url)
    } else {
        url.to_owned()
    }
}

/// Whether the link points at a YouTube video page.
pub open spec fn youtube_url(url: Seq<char>) -> bool {
    ||| contains(url, "youtube.com/watch"@)
    ||| contains(url, "youtu.be/"@)
    ||| contains(url, "youtube.com/embed/"@)
}

/// Whether `url` points at a YouTube video page.
pub fn is_youtube_url(url: &str) -> (b: bool)
    ensures
        b == youtube_url(url@),
{
    contains_exec(url, "youtube.com/watch") || contains_exec(url, "youtu.be/") || contains_exec(
        url,
        "youtube.com/embed/",
    )
}

/// Whether the link, ignoring ASCII case, is a Reddit-relative path or
/// points at a host that Reddit owns.
pub open spec fn reddit_owned_url(url: Seq<char>) -> bool {
    let l = ascii_lowercase(url);
    ||| starts_with(l, "/r/"@)
    ||| contains(l, "://reddit.com/"@)
    ||| contains(l, "://www.reddit.com/"@)
    ||| contains(l, "://old.reddit.com/"@)
    ||| contains(l, "://np.reddit.com/"@)
    ||| contains(l, "://redd.it/"@)
    ||| contains(l, "://i.redd.it/"@)
    ||| contains(l, "://v.redd.it/"@)
    ||| contains(l, "://preview.redd.it/"@)
    ||| contains(l, "://external-preview.redd.it/"@)
}

/// Law: whether a link is Reddit's does not depend on its ASCII case.
pub proof fn lemma_reddit_owned_ignores_case(url: Seq<char>)
    ensures
        reddit_owned_url(ascii_lowercase(url)) == reddit_owned_url(url),
{
    crate::text::lemma_ascii_lowercase_idempotent(url);
}

/// Whether `url` is a Reddit-relative path or a link to a host Reddit owns.
pub fn is_reddit_owned_url(url: &str) -> (b: bool)
    ensures
        b == reddit_owned_url(url@),
{
    let lower = to_ascii_lowercase(url);
    let l = lower.as_str();
    starts_with_exec(l, "/r/") || contains_exec(l, "://reddit.com/") || contains_exec(
        l,
        "://www.reddit.com/",
    ) || contains_exec(l, "://old.reddit.com/") || contains_exec(l, "://np.reddit.com/")
        || contains_exec(l, "://redd.it/") || contains_exec(l, "://i.redd.it/") || contains_exec(
        l,
        "://v.redd.it/",
    ) || contains_exec(l, "://preview.redd.it/") || contains_exec(
        l,
        "://external-preview.redd.it/",
    )
}

/// The link of an optional outbound URL contains `p`.
pub open spec fn out_url_contains(out_url: Option<Seq<char>>, p: Seq<char>) -> bool {
    match out_url {
        Some(u) => contains(u, p),
        None => false,
    }
}

/// The kind of media a feed item title is marked with, from the post's
/// type, its domain and its outbound link.
pub open spec fn media_suffix_of(
    post_type: Seq<char>,
    domain: Seq<char>,
    out_url: Option<Seq<char>>,
) -> Option<Seq<char>> {
    if post_type == "gallery"@ || out_url_contains(out_url, "/gallery/"@) {
        Some("gallery"@)
    } else if post_type == "image"@ || domain == "i.redd.it"@ || out_url_contains(
        out_url,
        "i.redd.it"@,
    ) {
        Some("image"@)
    } else if post_type == "video"@ || post_type == "gif"@ || domain == "v.redd.it"@
        || out_url_contains(out_url, "v.redd.it"@) {
        Some("video"@)
    } else {
        None
    }
}

/// The view of an optional string slice.
pub open spec fn opt_view(o: Option<&str>) -> Option<Seq<char>> {
    match o {
        Some(s) => Some(s@),
        None => None,
    }
}

fn out_url_contains_exec(out_url: Option<&str>, p: &str) -> (b: bool)
    ensures
        b == out_url_contains(opt_view(out_url), p@),
{
    match out_url {
        Some(u) => contains_exec(u, p),
        None => false,
    }
}

/// The media kind (`gallery`, `image` or `video`) that a feed item's title
/// is marked with, if any.
pub fn media_title_suffix(post_type: &str, domain: &str, raw_out_url: Option<&str>) -> (r: Option<
    &'static str,
>)
    ensures
        opt_view(r) == media_suffix_of(post_type@, domain@, opt_view(raw_out_url)),
{
    if text_eq(post_type, "gallery") || out_url_contains_exec(raw_out_url, "/gallery/") {
        Some("gallery")
    } else if text_eq(post_type, "image") || text_eq(domain, "i.redd.it") || out_url_contains_exec(
        raw_out_url,
        "i.redd.it",
    ) {
        Some("image")
    } else if text_eq(post_type, "video") || text_eq(post_type, "gif") || text_eq(
        domain,
        "v.redd.it",
    ) || out_url_contains_exec(raw_out_url, "v.redd.it") {
        Some("video")
    } else {
        None
    }
}

/// A character that may stand in a YouTube video id.
pub open spec fn video_id_char(c: char) -> bool {
    ||| 'a' <= c && c <= 'z'
    ||| 'A' <= c && c <= 'Z'
    ||| '0' <= c && c <= '9'
    ||| c == '_'
    ||| c == '-'
}

/// Eleven video id characters stand in `s` from index `k`.
pub open spec fn video_id_at(s: Seq<char>, k: int) -> bool {
    &&& 0 <= k
    &&& k + 11 <= s.len()
    &&& forall|j: int| k <= j < k + 11 ==> video_id_char(#[trigger] s[j])
}

/// Where the video id starts when a YouTube video link, followed by a full
/// id, starts at index `i` of `s`.
pub open spec fn youtube_link_at(s: Seq<char>, i: int) -> Option<int> {
    let watch = "youtube.com/watch?v="@;
    let short = "youtu.be/"@;
    let embed = "youtube.com/embed/"@;
    if occurs_at(s, watch, i) && video_id_at(s, i + watch.len()) {
        Some(i + watch.len())
    } else if occurs_at(s, short, i) && video_id_at(s, i + short.len()) {
        Some(i + short.len())
    } else if occurs_at(s, embed, i) && video_id_at(s, i + embed.len()) {
        Some(i + embed.len())
    } else {
        None
    }
}

/// The video id of the leftmost YouTube video link in `s` at or after `i`.
pub open spec fn youtube_id_from(s: Seq<char>, i: int) -> Option<Seq<char>>
    decreases s.len() - i,
{
    if i < 0 || i >= s.len() {
        None
    } else {
        match youtube_link_at(s, i) {
            Some(k) => Some(s.subrange(k, k + 11)),
            None => youtube_id_from(s, i + 1),
        }
    }
}

/// The video id of the leftmost YouTube video link in `s`: the eleven
/// characters after `youtube.com/watch?v=`, `youtu.be/` or
/// `youtube.com/embed/`.
pub open spec fn youtube_id(s: Seq<char>) -> Option<Seq<char>> {
    youtube_id_from(s, 0)
}

/// Trusted: the `regex` crate's `Regex::captures` with the pattern
/// `(?:youtube\.com/watch\?v=|youtu\.be/|youtube\.com/embed/)([a-zA-Z0-9_-]{11})`,
/// taking the first capture group. The contract claims that the regex's
/// leftmost-first search finds exactly the id that `youtube_id` describes.
#[verifier::external_body]
fn youtube_id_capture(url: &str) -> (r: Option<String>)
    ensures
        r is Some <==> youtube_id(url@) is Some,
        r matches Some(id) ==> youtube_id(url@) == Some(id@),
{
    let re = regex::Regex::new(
        r"(?:youtube\.com/watch\?v=|youtu\.be/|youtube\.com/embed/)([a-zA-Z0-9_-]{11})",
    ).unwrap();
    match re.captures(url) {
        Some(caps) => match caps.get(1) {
            Some(m) => Some(m.as_str().to_string()),
            None => None,
        },
        None => None,
    }
}

/// The embedded player for the video `id`.
pub open spec fn youtube_embed_of(id: Seq<char>) -> Seq<char> {
    "<iframe width=\"560\" height=\"315\" src=\"https://www.youtube.com/embed/"@ + id
        + "\" frameborder=\"0\" allow=\"accelerometer; autoplay; clipboard-write; encrypted-media; gyroscope; picture-in-picture; web-share\" allowfullscreen></iframe>"@
}

/// An embedded YouTube player for the video that `url` links to, if it
/// links to one.
pub fn youtube_embed(url: &str) -> (r: Option<String>)
    ensures
        match youtube_id(url@) {
            Some(id) => r matches Some(h) && h@ == youtube_embed_of(id),
            None => r is None,
        },
{
    match youtube_id_capture(url) {
        Some(id) => Some(
            concat3(
                "<iframe width=\"560\" height=\"315\" src=\"https://www.youtube.com/embed/",
                id.as_str(),
                "\" frameborder=\"0\" allow=\"accelerometer; autoplay; clipboard-write; encrypted-media; gyroscope; picture-in-picture; web-share\" allowfullscreen></iframe>",
            ),
        ),
        None => None,
    }
}

} // verus!

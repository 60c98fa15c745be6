//! The RSS feed of a subreddit: its base URL and the text of each item.
use vstd::prelude::*;
use crate::links::{
    absolute_url, absolute_url_of, is_reddit_owned_url, is_youtube_url, media_suffix_of,
    media_title_suffix, opt_view, out_url_contains, reddit_owned_url, youtube_embed,
    youtube_embed_of, youtube_id, youtube_url,
};
use crate::markup::{
    absolutize_html, absolutized, before_char, decoded_or_kept, encode_minimal,
    html_escaped, html_url, inline_image_links, inline_images, rss_description,
    rss_description_of, split_first, trim, trim_end_char, trim_end_matches, trimmed,
};
use crate::text::{concat2, contains_exec, push_decimal, decimal, starts_with, starts_with_exec, text_eq};

verus! {

/// A link as it is written into an attribute of the feed's HTML.
pub open spec fn html_url_of(u: Seq<char>) -> Seq<char> {
    html_escaped(decoded_or_kept(u))
}

/// The base URL that feed links are made absolute against: the configured
/// full URL (if it is not blank) without trailing slashes, else the request's
/// host with the forwarded scheme (or `http` for a local host and `https`
/// otherwise), else nothing.
pub open spec fn base_url_of(
    full_url: Option<Seq<char>>,
    host: Option<Seq<char>>,
    forwarded_proto: Option<Seq<char>>,
) -> Seq<char> {
    if full_url is Some && trimmed(full_url->0).len() > 0 {
        trim_end_char(full_url->0, '/')
    } else {
        let h = trimmed(
            match host {
                Some(h) => h,
                None => Seq::empty(),
            },
        );
        if h.len() == 0 {
            Seq::empty()
        } else {
            let p = match forwarded_proto {
                Some(p) => trimmed(before_char(p, ',')),
                None => Seq::empty(),
            };
            let scheme = if p.len() > 0 {
                p
            } else if starts_with(h, "localhost"@) || starts_with(h, "127.0.0.1"@) || starts_with(
                h,
                "[::1]"@,
            ) {
                "http"@
            } else {
                "https"@
            };
            scheme + "://"@ + h
        }
    }
}

/// The base URL of the feed, from the configured full URL, the `Host`
/// header and the `X-Forwarded-Proto` header.
pub fn rss_base_url(full_url: Option<&str>, host: Option<&str>, forwarded_proto: Option<&str>) -> (r:
    String)
    ensures
        r@ == base_url_of(opt_view(full_url), opt_view(host), opt_view(forwarded_proto)),
{
    if let Some(u) = full_url {
        let t = trim(u);
        if !t.as_str().is_empty() {
            return trim_end_matches(u, '/');
        }
    }
    let h = match host {
        Some(h) => trim(h),
        None => trim(""),
    };
    proof {
        reveal_strlit("");
    }
    if h.as_str().is_empty() {
        return String::new();
    }
    let p = match forwarded_proto {
        Some(p) => {
            let first = split_first(p, ',');
            trim(first.as_str())
        },
        None => String::new(),
    };
    let mut r = if !p.as_str().is_empty() {
        p
    } else if starts_with_exec(h.as_str(), "localhost") || starts_with_exec(h.as_str(), "127.0.0.1")
        || starts_with_exec(h.as_str(), "[::1]") {
        "http".to_owned()
    } else {
        "https".to_owned()
    };
    r.append("://");
    r.append(h.as_str());
    r
}

/// Smallest and largest timestamps that `chrono::DateTime::from_timestamp`
/// accepts (the start of January 1 of year -262143 and the last second of
/// year 262142).
pub const CHRONO_MIN_SECS: i64 = -8334601228800;
pub const CHRONO_MAX_SECS: i64 = 8210266876799;

/// Smallest and largest timestamps whose year RFC 2822 can write (years 0
/// through 9999).
pub const RFC2822_MIN_SECS: i64 = -62167219200;
pub const RFC2822_MAX_SECS: i64 = 253402300799;

/// The RFC 2822 text of the UTC time `secs` seconds after the UNIX epoch, as
/// `chrono::DateTime::to_rfc2822` writes it.
pub uninterp spec fn rfc2822_text(secs: int) -> Seq<char>;

/// The timestamps on which `to_rfc2822` panics: in chrono's range, but with
/// a year outside 0 through 9999.
pub open spec fn rfc2822_unwritable(secs: int) -> bool {
    ||| RFC2822_MAX_SECS < secs <= CHRONO_MAX_SECS
    ||| CHRONO_MIN_SECS <= secs < RFC2822_MIN_SECS
}

/// Trusted: `chrono::DateTime::from_timestamp(secs, 0)` and, when it gives a
/// time, `to_rfc2822` of that time. The contract claims the range in which
/// `from_timestamp` succeeds, read from chrono's source, and names the text.
#[verifier::external_body]
fn rfc2822_from_timestamp(secs: i64) -> (r: Option<String>)
    requires
        !rfc2822_unwritable(secs as int),
    ensures
        r is Some <==> CHRONO_MIN_SECS <= secs <= CHRONO_MAX_SECS,
        r matches Some(t) ==> t@ == rfc2822_text(secs as int),
{
    match chrono::DateTime::from_timestamp(secs, 0) {
        Some(d) => Some(d.to_rfc2822()),
        None => None,
    }
}

/// The publication date of a feed item created at `created_ts`: the time
/// read as a signed timestamp, or the UNIX epoch when chrono cannot hold it.
pub open spec fn pub_date_of(created_ts: u64) -> Seq<char> {
    let secs = (created_ts as i64) as int;
    if CHRONO_MIN_SECS <= secs <= CHRONO_MAX_SECS {
        rfc2822_text(secs)
    } else {
        rfc2822_text(0)
    }
}

/// The RFC 2822 publication date of a post created at `created_ts`.
pub fn rss_pub_date(created_ts: u64) -> (r: String)
    requires
        !rfc2822_unwritable((created_ts as i64) as int),
    ensures
        r@ == pub_date_of(created_ts),
{
    let secs = created_ts as i64;
    match rfc2822_from_timestamp(secs) {
        Some(t) => t,
        None => match rfc2822_from_timestamp(0) {
            Some(t) => t,
            None => String::new(),
        },
    }
}


/// One image of a gallery post.
pub struct RssGalleryImage {
    pub url: String,
    pub width: i64,
    pub height: i64,
    pub caption: String,
}

/// What a feed item is made from: the fields of a post that the feed reads.
pub struct RssPost {
    pub title: String,
    pub post_type: String,
    pub domain: String,
    pub permalink: String,
    pub out_url: Option<String>,
    pub media_url: String,
    pub media_poster: String,
    pub media_alt_url: String,
    pub gallery: Vec<RssGalleryImage>,
    pub body: String,
    pub author: String,
    pub score: String,
    pub comments: String,
    pub created_ts: u64,
}

/// The text of one feed item.
pub struct RssItemText {
    pub title: String,
    pub link: String,
    pub author: String,
    pub comments: String,
    pub guid: String,
    pub content: String,
    pub description: String,
    pub pub_date: String,
}

/// The view of an optional string.
pub open spec fn opt_string_view(o: Option<String>) -> Option<Seq<char>> {
    match o {
        Some(s) => Some(s@),
        None => None,
    }
}

/// The `width` or `height` attribute of a gallery image, written only for a
/// positive size.
pub open spec fn size_attr(name: Seq<char>, v: i64) -> Seq<char> {
    if v > 0 {
        " "@ + name + "=\""@ + decimal(v as nat) + "\""@
    } else {
        Seq::empty()
    }
}

/// The HTML of one gallery image: nothing when it has no link.
pub open spec fn gallery_image_html_of(base: Seq<char>, img: RssGalleryImage) -> Seq<char> {
    let src = absolute_url_of(base, img.url@);
    let caption_html = if img.caption@.len() == 0 {
        Seq::<char>::empty()
    } else {
        "<p>"@ + html_escaped(img.caption@) + "</p>"@
    };
    if src.len() == 0 {
        Seq::empty()
    } else {
        "<p><img src=\""@ + html_url_of(src) + "\" alt=\""@ + html_escaped(img.caption@) + "\""@
            + size_attr("width"@, img.width) + size_attr("height"@, img.height) + " /></p>"@
            + caption_html
    }
}

/// The HTML of all the images of a gallery, in order.
pub open spec fn gallery_html_of(base: Seq<char>, imgs: Seq<RssGalleryImage>) -> Seq<char>
    decreases imgs.len(),
{
    if imgs.len() == 0 {
        Seq::empty()
    } else {
        gallery_html_of(base, imgs.drop_last()) + gallery_image_html_of(base, imgs.last())
    }
}

fn push_size_attr(s: &mut String, name: &str, v: i64)
    ensures
        final(s)@ == old(s)@ + size_attr(name@, v),
{
    if v > 0 {
        s.append(" ");
        s.append(name);
        s.append("=\"");
        push_decimal(s, v as u128);
        s.append("\"");
    }
}

fn gallery_image_html(base_url: &str, img: &RssGalleryImage) -> (r: String)
    ensures
        r@ == gallery_image_html_of(base_url@, *img),
{
    let src = absolute_url(base_url, img.url.as_str());
    if src.as_str().is_empty() {
        return String::new();
    }
    let mut r = "<p><img src=\"".to_owned();
    let u = html_url(src.as_str());
    r.append(u.as_str());
    r.append("\" alt=\"");
    let c = encode_minimal(img.caption.as_str());
    r.append(c.as_str());
    r.append("\"");
    push_size_attr(&mut r, "width", img.width);
    push_size_attr(&mut r, "height", img.height);
    r.append(" /></p>");
    if !img.caption.as_str().is_empty() {
        r.append("<p>");
        r.append(c.as_str());
        r.append("</p>");
    }
    r
}

/// The HTML of the images of a gallery post.
pub fn gallery_html(base_url: &str, imgs: &Vec<RssGalleryImage>) -> (r: String)
    ensures
        r@ == gallery_html_of(base_url@, imgs@),
{
    let mut r = String::new();
    let mut i: usize = 0;
    assert(imgs@.take(0) =~= Seq::<RssGalleryImage>::empty());
    while i < imgs.len()
        invariant
            i <= imgs.len(),
            r@ == gallery_html_of(base_url@, imgs@.take(i as int)),
        decreases imgs.len() - i,
    {
        let h = gallery_image_html(base_url, &imgs[i]);
        r.append(h.as_str());
        assert(imgs@.take(i + 1).drop_last() =~= imgs@.take(i as int));
        i += 1;
    }
    assert(imgs@.take(i as int) =~= imgs@);
    r
}

/// The video player of a video post: its poster with the stream as
/// source, or only a link to the comments when there is no poster.
pub open spec fn video_html_of(base: Seq<char>, post: RssPost, comments_url: Seq<char>) -> Seq<
    char,
> {
    let poster = absolute_url_of(base, post.media_poster@);
    let stream = if post.media_alt_url@.len() > 0 {
        absolute_url_of(base, post.media_alt_url@)
    } else {
        absolute_url_of(base, post.media_url@)
    };
    if poster.len() == 0 {
        "<p><a href=\""@ + html_url_of(comments_url) + "\">Video link</a></p>"@
    } else {
        "<p><video controls preload=\"metadata\" poster=\""@ + html_url_of(poster)
            + "\"><source src=\""@ + html_url_of(stream) + "\"><img src=\""@ + html_url_of(poster)
            + "\" alt=\""@ + html_escaped(post.title@) + "\" /></video></p>"@
    }
}

fn video_html(base_url: &str, post: &RssPost, comments_url: &str) -> (r: String)
    ensures
        r@ == video_html_of(base_url@, *post, comments_url@),
{
    let poster = absolute_url(base_url, post.media_poster.as_str());
    let stream = if !post.media_alt_url.as_str().is_empty() {
        absolute_url(base_url, post.media_alt_url.as_str())
    } else {
        absolute_url(base_url, post.media_url.as_str())
    };
    if poster.as_str().is_empty() {
        let mut r = "<p><a href=\"".to_owned();
        let u = html_url(comments_url);
        r.append(u.as_str());
        r.append("\">Video link</a></p>");
        r
    } else {
        let p = html_url(poster.as_str());
        let st = html_url(stream.as_str());
        let t = encode_minimal(post.title.as_str());
        let mut r = "<p><video controls preload=\"metadata\" poster=\"".to_owned();
        r.append(p.as_str());
        r.append("\"><source src=\"");
        r.append(st.as_str());
        r.append("\"><img src=\"");
        r.append(p.as_str());
        r.append("\" alt=\"");
        r.append(t.as_str());
        r.append("\" /></video></p>");
        r
    }
}

/// The media of a feed item: an image, a video player or a gallery by the
/// post's type, a video player for a `v.redd.it` link, or nothing.
pub open spec fn media_html_of(base: Seq<char>, post: RssPost, comments_url: Seq<char>) -> Seq<
    char,
> {
    let t = post.post_type@;
    if t == "image"@ && post.media_url@.len() > 0 {
        "<p><img src=\""@ + html_url_of(absolute_url_of(base, post.media_url@)) + "\" alt=\""@
            + html_escaped(post.title@) + "\" /></p>"@
    } else if (t == "video"@ || t == "gif"@) && post.media_url@.len() > 0 {
        video_html_of(base, post, comments_url)
    } else if t == "gallery"@ {
        gallery_html_of(base, post.gallery@)
    } else if out_url_contains(opt_string_view(post.out_url), "v.redd.it"@) {
        video_html_of(base, post, comments_url)
    } else {
        Seq::empty()
    }
}

fn out_url_of(post: &RssPost) -> (r: Option<&str>)
    ensures
        opt_view(r) == opt_string_view(post.out_url),
{
    match &post.out_url {
        Some(u) => Some(u.as_str()),
        None => None,
    }
}

fn media_html(base_url: &str, post: &RssPost, comments_url: &str) -> (r: String)
    ensures
        r@ == media_html_of(base_url@, *post, comments_url@),
{
    let t = post.post_type.as_str();
    let has_media = !post.media_url.as_str().is_empty();
    if text_eq(t, "image") && has_media {
        let src = absolute_url(base_url, post.media_url.as_str());
        let mut r = "<p><img src=\"".to_owned();
        let u = html_url(src.as_str());
        r.append(u.as_str());
        r.append("\" alt=\"");
        let e = encode_minimal(post.title.as_str());
        r.append(e.as_str());
        r.append("\" /></p>");
        r
    } else if (text_eq(t, "video") || text_eq(t, "gif")) && has_media {
        video_html(base_url, post, comments_url)
    } else if text_eq(t, "gallery") {
        gallery_html(base_url, &post.gallery)
    } else {
        let is_vreddit = match out_url_of(post) {
            Some(u) => contains_exec(u, "v.redd.it"),
            None => false,
        };
        if is_vreddit {
            video_html(base_url, post, comments_url)
        } else {
            String::new()
        }
    }
}


/// The outbound link of a post made absolute, when it leaves Reddit.
pub open spec fn external_url_of(base: Seq<char>, out_url: Option<Seq<char>>) -> Option<Seq<char>> {
    match out_url {
        Some(u) => if reddit_owned_url(u) {
            None
        } else {
            Some(absolute_url_of(base, u))
        },
        None => None,
    }
}

/// What a feed item title is marked with: `Video` for a YouTube link, the
/// domain of an outbound link, else the kind of media of the post.
pub open spec fn title_suffix_of(base: Seq<char>, post: RssPost) -> Option<Seq<char>> {
    let out = opt_string_view(post.out_url);
    if out is Some && youtube_url(out->0) {
        Some("Video"@)
    } else if external_url_of(base, out) is Some && post.domain@.len() > 0 {
        Some(post.domain@)
    } else {
        media_suffix_of(post.post_type@, post.domain@, out)
    }
}

/// The title of a feed item: the post title, with its mark in brackets.
pub open spec fn item_title_of(base: Seq<char>, post: RssPost) -> Seq<char> {
    match title_suffix_of(base, post) {
        Some(x) => post.title@ + " ("@ + x + ")"@,
        None => post.title@,
    }
}

/// The score, comment count and author line of a feed item.
pub open spec fn metadata_html_of(base: Seq<char>, post: RssPost) -> Seq<char> {
    let author_url = absolute_url_of(base, "/u/"@ + post.author@);
    "<p><strong>Points: "@ + html_escaped(post.score@) + " | Comments: "@ + html_escaped(
        post.comments@,
    ) + " | submitted by <a href=\""@ + html_url_of(author_url) + "\">/u/"@ + html_escaped(
        post.author@,
    ) + "</a></strong></p>"@
}

/// The links of a feed item with an outbound link: the link and the comments.
pub open spec fn links_html_of(external: Option<Seq<char>>, comments_url: Seq<char>) -> Seq<char> {
    match external {
        Some(l) => "<p><a href=\""@ + html_url_of(l) + "\">[link]</a> <a href=\""@ + html_url_of(
            comments_url,
        ) + "\">[comments]</a></p>"@,
        None => Seq::empty(),
    }
}

/// An embedded YouTube player, only when the item has no other media.
pub open spec fn youtube_html_of(media: Seq<char>, out_url: Option<Seq<char>>) -> Seq<char> {
    if media.len() == 0 && out_url is Some && youtube_id(out_url->0) is Some {
        youtube_embed_of(youtube_id(out_url->0)->0)
    } else {
        Seq::empty()
    }
}

/// The HTML content of a feed item: metadata, links, a rule, the media, a
/// YouTube player and `body_html`, the finished HTML of the post body.
pub open spec fn item_content_with(base: Seq<char>, post: RssPost, body_html: Seq<char>) -> Seq<
    char,
> {
    let comments_url = absolute_url_of(base, post.permalink@);
    let out = opt_string_view(post.out_url);
    let media = media_html_of(base, post, comments_url);
    metadata_html_of(base, post) + links_html_of(external_url_of(base, out), comments_url)
        + "<hr>"@ + media + youtube_html_of(media, out) + body_html
}

/// The whole text of the feed item of `post`, given the finished HTML of its
/// body, its description and its publication date.
pub open spec fn rss_item_with(
    base: Seq<char>,
    post: RssPost,
    body_html: Seq<char>,
    description: Seq<char>,
    pub_date: Seq<char>,
) -> (Seq<char>, Seq<char>, Seq<char>, Seq<char>, Seq<char>, Seq<char>, Seq<char>, Seq<char>) {
    let comments_url = absolute_url_of(base, post.permalink@);
    (
        item_title_of(base, post),
        comments_url,
        "/u/"@ + post.author@,
        comments_url,
        comments_url,
        item_content_with(base, post, body_html),
        description,
        pub_date,
    )
}

/// The HTML of a post body in a feed item: `rewritten_body` (the body after
/// entity decoding and the front end's URL rewriting) with links made
/// absolute and image links inlined.
pub open spec fn item_body_html_of(base: Seq<char>, rewritten_body: Seq<char>) -> Seq<char> {
    inline_images(absolutized(base, rewritten_body))
}

/// The whole text of the feed item of `post`.
pub open spec fn rss_item_of(base: Seq<char>, post: RssPost, rewritten_body: Seq<char>) -> (
    Seq<char>,
    Seq<char>,
    Seq<char>,
    Seq<char>,
    Seq<char>,
    Seq<char>,
    Seq<char>,
    Seq<char>,
) {
    rss_item_with(
        base,
        post,
        item_body_html_of(base, rewritten_body),
        rss_description_of(post.body@, post.title@),
        pub_date_of(post.created_ts),
    )
}

proof fn lemma_media_words_differ()
    ensures
        "gif"@ != "image"@,
        "gif"@ != "video"@,
        "gif"@ != "gallery"@,
        "video"@ != "image"@,
        "video"@ != "gallery"@,
{
    reveal_strlit("gif");
    reveal_strlit("video");
    reveal_strlit("image");
    reveal_strlit("gallery");
    assert("gif"@[0] == 'g' && "image"@[0] == 'i' && "video"@[0] == 'v');
    assert("gallery"@.len() == 7 && "gif"@.len() == 3 && "video"@.len() == 5);
}

/// `p` and `q` are the same post but perhaps for their type.
pub open spec fn same_but_type(p: RssPost, q: RssPost) -> bool {
    &&& p.title == q.title
    &&& p.domain == q.domain
    &&& p.permalink == q.permalink
    &&& p.out_url == q.out_url
    &&& p.media_url == q.media_url
    &&& p.media_poster == q.media_poster
    &&& p.media_alt_url == q.media_alt_url
    &&& p.gallery == q.gallery
    &&& p.body == q.body
    &&& p.author == q.author
    &&& p.score == q.score
    &&& p.comments == q.comments
    &&& p.created_ts == q.created_ts
}

/// Law: a gif post gets the same feed item (title mark, media player and
/// all) as a video post with the same fields.
pub proof fn lemma_gif_item_is_video_item(
    base: Seq<char>,
    gif: RssPost,
    video: RssPost,
    rewritten_body: Seq<char>,
)
    requires
        gif.post_type@ == "gif"@,
        video.post_type@ == "video"@,
        same_but_type(gif, video),
    ensures
        rss_item_of(base, gif, rewritten_body) == rss_item_of(base, video, rewritten_body),
{
    lemma_media_words_differ();
    let c = absolute_url_of(base, gif.permalink@);
    assert(video_html_of(base, gif, c) == video_html_of(base, video, c));
    assert(media_html_of(base, gif, c) == media_html_of(base, video, c));
    assert(item_title_of(base, gif) == item_title_of(base, video));
}

/// Law: a video or gif post with a media URL shows media in its feed item
/// (a player, or a link to the comments when it has no poster), so it gets
/// no YouTube player.
pub proof fn lemma_video_media_shown(base: Seq<char>, post: RssPost, comments_url: Seq<char>)
    requires
        post.post_type@ == "video"@ || post.post_type@ == "gif"@,
        post.media_url@.len() > 0,
    ensures
        media_html_of(base, post, comments_url).len() > 0,
        media_html_of(base, post, comments_url) == video_html_of(base, post, comments_url),
        youtube_html_of(media_html_of(base, post, comments_url), opt_string_view(post.out_url)).len()
            == 0,
{
    lemma_media_words_differ();
    reveal_strlit("<p><a href=\"");
    reveal_strlit("<p><video controls preload=\"metadata\" poster=\"");
}

/// The views of the fields of an item, in declaration order.
pub open spec fn item_view(i: RssItemText) -> (
    Seq<char>,
    Seq<char>,
    Seq<char>,
    Seq<char>,
    Seq<char>,
    Seq<char>,
    Seq<char>,
    Seq<char>,
) {
    (
        i.title@,
        i.link@,
        i.author@,
        i.comments@,
        i.guid@,
        i.content@,
        i.description@,
        i.pub_date@,
    )
}

fn external_url(base_url: &str, out: Option<&str>) -> (r: Option<String>)
    ensures
        opt_string_view(r) == external_url_of(base_url@, opt_view(out)),
{
    match out {
        Some(u) => if is_reddit_owned_url(u) {
            None
        } else {
            Some(absolute_url(base_url, u))
        },
        None => None,
    }
}

fn item_title(base_url: &str, post: &RssPost) -> (r: String)
    ensures
        r@ == item_title_of(base_url@, *post),
{
    let out = out_url_of(post);
    let is_youtube = match out {
        Some(u) => is_youtube_url(u),
        None => false,
    };
    let external = external_url(base_url, out);
    let mut r = post.title.clone();
    if is_youtube {
        r.append(" (Video)");
        proof {
            reveal_strlit(" (Video)");
            reveal_strlit(" (");
            reveal_strlit("Video");
            reveal_strlit(")");
            assert(" ("@ + "Video"@ + ")"@ =~= " (Video)"@);
            assert(post.title@ + " ("@ + "Video"@ + ")"@ =~= post.title@ + " (Video)"@);
        }
    } else if external.is_some() && !post.domain.as_str().is_empty() {
        r.append(" (");
        r.append(post.domain.as_str());
        r.append(")");
    } else {
        match media_title_suffix(post.post_type.as_str(), post.domain.as_str(), out) {
            Some(x) => {
                r.append(" (");
                r.append(x);
                r.append(")");
            },
            None => {},
        }
    }
    r
}

fn metadata_html(base_url: &str, post: &RssPost) -> (r: String)
    ensures
        r@ == metadata_html_of(base_url@, *post),
{
    let author_path = concat2("/u/", post.author.as_str());
    let author_url = absolute_url(base_url, author_path.as_str());
    let mut r = "<p><strong>Points: ".to_owned();
    let e = encode_minimal(post.score.as_str());
    r.append(e.as_str());
    r.append(" | Comments: ");
    let e = encode_minimal(post.comments.as_str());
    r.append(e.as_str());
    r.append(" | submitted by <a href=\"");
    let u = html_url(author_url.as_str());
    r.append(u.as_str());
    r.append("\">/u/");
    let e = encode_minimal(post.author.as_str());
    r.append(e.as_str());
    r.append("</a></strong></p>");
    r
}

fn links_html(external: &Option<String>, comments_url: &str) -> (r: String)
    ensures
        r@ == links_html_of(opt_string_view(*external), comments_url@),
{
    match external {
        Some(l) => {
            let mut r = "<p><a href=\"".to_owned();
            let u = html_url(l.as_str());
            r.append(u.as_str());
            r.append("\">[link]</a> <a href=\"");
            let c = html_url(comments_url);
            r.append(c.as_str());
            r.append("\">[comments]</a></p>");
            r
        },
        None => String::new(),
    }
}

/// The text of the feed item of `post`, with links made absolute against
/// `base_url`, given `body_html`, the finished HTML of the post body,
/// `description` and `pub_date`.
pub fn rss_item_from(
    base_url: &str,
    post: &RssPost,
    body_html: &str,
    description: &str,
    pub_date: &str,
) -> (r: RssItemText)
    ensures
        item_view(r) == rss_item_with(base_url@, *post, body_html@, description@, pub_date@),
{
    let comments_url = absolute_url(base_url, post.permalink.as_str());
    let out = out_url_of(post);
    let external = external_url(base_url, out);
    let title = item_title(base_url, post);
    let media = media_html(base_url, post, comments_url.as_str());
    let youtube = if media.as_str().is_empty() {
        match out {
            Some(u) => match youtube_embed(u) {
                Some(h) => h,
                None => String::new(),
            },
            None => String::new(),
        }
    } else {
        String::new()
    };
    let mut content = metadata_html(base_url, post);
    let links = links_html(&external, comments_url.as_str());
    content.append(links.as_str());
    content.append("<hr>");
    content.append(media.as_str());
    content.append(youtube.as_str());
    content.append(body_html);
    RssItemText {
        title,
        link: comments_url.clone(),
        author: concat2("/u/", post.author.as_str()),
        comments: comments_url.clone(),
        guid: comments_url,
        content,
        description: description.to_owned(),
        pub_date: pub_date.to_owned(),
    }
}

/// The text of the feed item of `post`, with links made absolute against
/// `base_url`. `rewritten_body` is the post body after entity decoding and
/// the front end's URL rewriting.
pub fn rss_item(base_url: &str, post: &RssPost, rewritten_body: &str) -> (r: RssItemText)
    requires
        !rfc2822_unwritable((post.created_ts as i64) as int),
    ensures
        item_view(r) == rss_item_of(base_url@, *post, rewritten_body@),
{
    let absolutized_body = absolutize_html(base_url, rewritten_body);
    let body_html = inline_image_links(absolutized_body.as_str());
    let description = rss_description(post.body.as_str(), post.title.as_str());
    let pub_date = rss_pub_date(post.created_ts);
    rss_item_from(base_url, post, body_html.as_str(), description.as_str(), pub_date.as_str())
}

} // verus!

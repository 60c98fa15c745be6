//! Paths, walls and fallbacks of the subreddit, wiki, sidebar and feed
//! pages.
use vstd::prelude::*;
use crate::cookies::{set_cookie_view, site_cookie, site_cookie_of, CookieLifetime, SetCookie};
use crate::feed::{item_view, RssItemText};
use crate::links::{absolute_url, absolute_url_of};
use crate::listing::{failure_view, listing_failure_of, opt_str, FetchFailure};
use crate::text::{concat2, concat3, lowercase, text_eq, to_lowercase};

verus! {

/// The wall title of a restricted subreddit, such as `r/name is quarantined`.
pub open spec fn wall_title_of(sub: Seq<char>, restriction: Seq<char>) -> Seq<char> {
    "r/"@ + sub + " is "@ + restriction
}

/// The message under the wall title.
pub const WALL_MESSAGE: &'static str = "Please click the button below to continue to this subreddit.";

/// The title of the wall in front of a quarantined or gated subreddit.
pub fn quarantine_wall_title(sub: &str, restriction: &str) -> (r: String)
    ensures
        r@ == wall_title_of(sub@, restriction@),
{
    let mut r = concat3("r/", sub, " is ");
    r.append(restriction);
    r
}

/// The cookie that records consent to view a quarantined subreddit: named
/// after the subreddit in lower case.
pub open spec fn quarantine_cookie_name_of(sub: Seq<char>) -> Seq<char> {
    "allow_quaran_"@ + lowercase(sub)
}

/// The name of the cookie that lets the quarantined subreddit `sub` through.
pub fn quarantine_cookie_name(sub: &str) -> (r: String)
    ensures
        r@ == quarantine_cookie_name_of(sub@),
{
    let l = to_lowercase(sub);
    concat2("allow_quaran_", l.as_str())
}

/// Whether the quarantine cookie's setting grants access: only the text
/// `true` does (anything that does not parse as a boolean counts as false).
pub open spec fn grants_access(setting: Seq<char>) -> bool {
    setting == "true"@
}

/// Whether the quarantine cookie's setting `setting` grants access.
pub fn can_access_quarantine(setting: &str) -> (b: bool)
    ensures
        b == grants_access(setting@),
{
    text_eq(setting, "true")
}

/// The cookie that records consent to view the quarantined subreddit `sub`:
/// named after the subreddit in lower case, holding `true`, site-wide,
/// HTTP-only, for the browser session.
pub open spec fn consent_cookie_of(sub: Seq<char>) -> (Seq<char>, Seq<char>, Seq<char>, bool, CookieLifetime) {
    site_cookie_of(quarantine_cookie_name_of(sub), "true"@, CookieLifetime::Session)
}

/// The consent cookie, and where to go back to, for a request to enter a
/// quarantined subreddit; `Invalid URL` when the subreddit or the `redir`
/// parameter is missing.
pub open spec fn quarantine_exception_of(sub: Option<Seq<char>>, redir: Option<Seq<char>>) -> Result<
    ((Seq<char>, Seq<char>, Seq<char>, bool, CookieLifetime), Seq<char>),
    Seq<char>,
> {
    match (sub, redir) {
        (Some(s), Some(r)) => Ok((consent_cookie_of(s), r)),
        _ => Err("Invalid URL"@),
    }
}

/// The view of the result of `quarantine_exception`.
pub open spec fn exception_view(r: Result<(SetCookie, String), &'static str>) -> Result<
    ((Seq<char>, Seq<char>, Seq<char>, bool, CookieLifetime), Seq<char>),
    Seq<char>,
> {
    match r {
        Ok((c, d)) => Ok((set_cookie_view(c), d@)),
        Err(e) => Err(e@),
    }
}

/// The consent cookie and the redirect target for entering a quarantined
/// subreddit.
pub fn quarantine_exception(sub: Option<&str>, redir: Option<&str>) -> (r: Result<
    (SetCookie, String),
    &'static str,
>)
    ensures
        exception_view(r) == quarantine_exception_of(opt_str(sub), opt_str(redir)),
{
    match (sub, redir) {
        (Some(s), Some(d)) => {
            let cookie = site_cookie(quarantine_cookie_name(s), "true".to_owned(), CookieLifetime::Session);
            Ok((cookie, d.to_owned()))
        },
        _ => Err("Invalid URL"),
    }
}

/// Law: the icon shown is the community icon whenever there is one,
/// whatever the other icon holds, and the other icon only when there is
/// not; so there is an icon when either holds one.
pub proof fn lemma_icon_prefers_community_icon(community_icon: Seq<char>, icon_img: Seq<char>, other_img: Seq<
    char,
>)
    ensures
        community_icon.len() > 0 ==> subreddit_icon_of(community_icon, icon_img) == community_icon,
        community_icon.len() > 0 ==> subreddit_icon_of(community_icon, icon_img) == subreddit_icon_of(
            community_icon,
            other_img,
        ),
        community_icon.len() == 0 ==> subreddit_icon_of(community_icon, icon_img) == icon_img,
        (subreddit_icon_of(community_icon, icon_img).len() > 0) == (community_icon.len() > 0
            || icon_img.len() > 0),
{
}

/// Law: the consent cookie set on entering a quarantined subreddit lets
/// that subreddit through afterwards, however its name is written: it is
/// the cookie that `can_access_quarantine` reads for any name equal to it
/// ignoring case, and its value grants access.
pub proof fn lemma_consent_cookie_grants_access(sub: Seq<char>, redir: Seq<char>, other: Seq<char>)
    requires
        lowercase(other) == lowercase(sub),
    ensures
        quarantine_exception_of(Some(sub), Some(redir)) matches Ok((c, d)) && c.0
            == quarantine_cookie_name_of(other) && grants_access(c.1) && d == redir,
{
}

/// A quarantined or gated subreddit gets a wall, any other failure an
/// error page with the message.
pub open spec fn page_failure_of(msg: Seq<char>) -> (bool, Seq<char>) {
    (msg == "quarantined"@ || msg == "gated"@, msg)
}

/// How a failure to fetch a wiki page or sidebar is answered.
pub fn page_failure(msg: &str) -> (r: FetchFailure)
    ensures
        failure_view(r) == page_failure_of(msg@),
{
    if text_eq(msg, "quarantined") || text_eq(msg, "gated") {
        FetchFailure::Wall(msg.to_owned())
    } else {
        FetchFailure::Error(msg.to_owned())
    }
}

/// Law: a wiki page or sidebar that cannot be fetched gets a wall exactly
/// when the subreddit listing would: for the restrictions `quarantined`
/// and `gated`, a wall that names the restriction; any other message gives
/// an error page.
pub proof fn lemma_page_walls_match_listing(sub: Seq<char>, msg: Seq<char>)
    ensures
        page_failure_of(msg).0 == listing_failure_of(sub, msg).0,
        page_failure_of(msg).0 ==> page_failure_of(msg).1 == msg,
        (msg == "quarantined"@ || msg == "gated"@) ==> page_failure_of(msg) == (true, msg),
        !(msg == "quarantined"@ || msg == "gated"@) ==> page_failure_of(msg) == (false, msg),
{
}

/// A value from the request, or a default.
pub open spec fn or_default(o: Option<Seq<char>>, d: Seq<char>) -> Seq<char> {
    match o {
        Some(s) => s,
        None => d,
    }
}

/// The subreddit of a wiki or sidebar page: the path's, else `reddit.com`.
pub fn page_subreddit(sub_param: Option<&str>) -> (r: String)
    ensures
        r@ == or_default(opt_str(sub_param), "reddit.com"@),
{
    match sub_param {
        Some(s) => s.to_owned(),
        None => "reddit.com".to_owned(),
    }
}

/// The wiki page shown: the path's, else `index`.
pub fn wiki_page_name(page_param: Option<&str>) -> (r: String)
    ensures
        r@ == or_default(opt_str(page_param), "index"@),
{
    match page_param {
        Some(p) => p.to_owned(),
        None => "index".to_owned(),
    }
}

/// The Reddit API path of a wiki page.
pub open spec fn wiki_api_path_of(sub: Seq<char>, page: Seq<char>) -> Seq<char> {
    "/r/"@ + sub + "/wiki/"@ + page + ".json?raw_json=1"@
}

/// The Reddit API path to fetch the wiki page `page` of `sub` from.
pub fn wiki_api_path(sub: &str, page: &str) -> (r: String)
    ensures
        r@ == wiki_api_path_of(sub@, page@),
{
    let mut r = concat3("/r/", sub, "/wiki/");
    r.append(page);
    r.append(".json?raw_json=1");
    r
}

/// The HTML of a wiki page: the fetched content, else a not-found heading.
pub fn wiki_content(content_html: Option<&str>) -> (r: String)
    ensures
        r@ == or_default(opt_str(content_html), "<h3>Wiki not found</h3>"@),
{
    match content_html {
        Some(c) => c.to_owned(),
        None => "<h3>Wiki not found</h3>".to_owned(),
    }
}

/// The Reddit API path of a subreddit's metadata (also its sidebar).
pub open spec fn about_api_path_of(sub: Seq<char>) -> Seq<char> {
    "/r/"@ + sub + "/about.json?raw_json=1"@
}

/// The Reddit API path to fetch the metadata of `sub` from.
pub fn about_api_path(sub: &str) -> (r: String)
    ensures
        r@ == about_api_path_of(sub@),
{
    concat3("/r/", sub, "/about.json?raw_json=1")
}

/// The icon of a subreddit: its community icon, else its icon image.
pub open spec fn subreddit_icon_of(community_icon: Seq<char>, icon_img: Seq<char>) -> Seq<char> {
    if community_icon.len() == 0 {
        icon_img
    } else {
        community_icon
    }
}

/// The icon shown for a subreddit.
pub fn subreddit_icon(community_icon: &str, icon_img: &str) -> (r: String)
    ensures
        r@ == subreddit_icon_of(community_icon@, icon_img@),
{
    if community_icon.is_empty() {
        icon_img.to_owned()
    } else {
        community_icon.to_owned()
    }
}

/// A member count as the page formats it: the fetched count (0 when
/// missing) read as a signed number, as `u64 as i64` does.
pub fn member_count(count: Option<u64>) -> (r: i64)
    ensures
        r as int == match count {
            Some(c) => if c <= i64::MAX {
                c as int
            } else {
                c - 0x1_0000_0000_0000_0000
            },
            None => 0,
        },
{
    match count {
        Some(c) => if c <= i64::MAX as u64 {
            c as i64
        } else {
            let low = c - (i64::MAX as u64) - 1;
            let r = (low as i64) + i64::MIN;
            r
        },
        None => 0,
    }
}

/// The Reddit API path of a listing fetched for the feed.
pub open spec fn rss_api_path_of(sub: Seq<char>, sort: Seq<char>, query: Seq<char>) -> Seq<char> {
    "/r/"@ + sub + "/"@ + sort + ".json?"@ + query
}

/// The Reddit API path to fetch the posts of a feed from.
pub fn rss_api_path(sub: &str, sort: &str, query: &str) -> (r: String)
    ensures
        r@ == rss_api_path_of(sub@, sort@, query@),
{
    let mut r = concat3("/r/", sub, "/");
    r.append(sort);
    r.append(".json?");
    r.append(query);
    r
}

/// The text of a feed's channel.
pub struct RssChannelText {
    pub title: String,
    pub link: String,
    pub image_url: String,
    pub image_title: String,
    pub image_link: String,
}

/// The views of the fields of a channel, in declaration order.
pub open spec fn channel_view(c: RssChannelText) -> (Seq<char>, Seq<char>, Seq<char>, Seq<char>, Seq<char>) {
    (c.title@, c.link@, c.image_url@, c.image_title@, c.image_link@)
}

/// A feed's channel: titled and linked after the subreddit, with the
/// front end's icon linking to its home page.
pub open spec fn rss_channel_of(base: Seq<char>, name: Seq<char>) -> (Seq<char>, Seq<char>, Seq<char>, Seq<char>, Seq<char>) {
    (
        "/r/"@ + name,
        if base.len() == 0 {
            "/r/"@ + name
        } else {
            base + "/r/"@ + name
        },
        absolute_url_of(base, "/favicon.png"@),
        "Redlib"@,
        if base.len() == 0 {
            "/"@
        } else {
            base
        },
    )
}

/// The text of the feed channel of the subreddit `name`.
pub fn rss_channel(base_url: &str, name: &str) -> (r: RssChannelText)
    ensures
        channel_view(r) == rss_channel_of(base_url@, name@),
{
    let title = concat2("/r/", name);
    let link = if base_url.is_empty() {
        concat2("/r/", name)
    } else {
        concat3(base_url, "/r/", name)
    };
    let image_link = if base_url.is_empty() {
        "/".to_owned()
    } else {
        base_url.to_owned()
    };
    RssChannelText {
        title,
        link,
        image_url: absolute_url(base_url, "/favicon.png"),
        image_title: "Redlib".to_owned(),
        image_link,
    }
}

/// The RSS document of a channel whose text is `channel`, with the channel
/// description `description` and the items `items`, as the `rss` crate
/// writes it.
pub uninterp spec fn rss_xml(
    channel: (Seq<char>, Seq<char>, Seq<char>, Seq<char>, Seq<char>),
    description: Seq<char>,
    items: Seq<(Seq<char>, Seq<char>, Seq<char>, Seq<char>, Seq<char>, Seq<char>, Seq<char>, Seq<char>)>,
) -> Seq<char>;

/// The views of the fields of each item, in order.
pub open spec fn items_view(items: Seq<RssItemText>) -> Seq<
    (Seq<char>, Seq<char>, Seq<char>, Seq<char>, Seq<char>, Seq<char>, Seq<char>, Seq<char>),
> {
    items.map_values(|i: RssItemText| item_view(i))
}

/// Trusted: `rss::ChannelBuilder` given the channel's title, link,
/// description and image (`rss::Image`) and the items (`rss::Item`, each
/// GUID a permalink), then the built `rss::Channel` written out through its
/// `Display`. The contract names the document; it depends on these values
/// alone.
#[verifier::external_body]
fn channel_xml(channel: RssChannelText, description: &str, items: Vec<RssItemText>) -> (r: String)
    ensures
        r@ == rss_xml(channel_view(channel), description@, items_view(items@)),
{
    let items: Vec<rss::Item> = items.into_iter().map(|i| rss::Item {
        title: Some(i.title), link: Some(i.link), author: Some(i.author), comments: Some(i.comments),
        guid: Some(rss::Guid { value: i.guid, permalink: true }), content: Some(i.content),
        pub_date: Some(i.pub_date), description: Some(i.description), ..Default::default()
    }).collect();
    let image = rss::Image {
        url: channel.image_url, title: channel.image_title, link: channel.image_link, ..Default::default()
    };
    rss::ChannelBuilder::default().title(channel.title).link(channel.link).description(description)
        .image(image).items(items).build().to_string()
}

/// The RSS document of the subreddit `name`: the channel that
/// `rss_channel` makes, with the subreddit's description and the items.
pub fn rss_feed(base_url: &str, name: &str, description: &str, items: Vec<RssItemText>) -> (r: String)
    ensures
        r@ == rss_xml(rss_channel_of(base_url@, name@), description@, items_view(items@)),
{
    let channel = rss_channel(base_url, name);
    channel_xml(channel, description, items)
}

/// Where to go after a subscription change: the `redirect` parameter under
/// the site root, else the subreddit.
pub open spec fn subscription_redirect_of(redirect: Option<Seq<char>>, sub: Seq<char>) -> Seq<char> {
    match redirect {
        Some(r) => "/"@ + r,
        None => "/r/"@ + sub,
    }
}

/// The page to return to after changing subscriptions or filters.
pub fn subscription_redirect(redirect: Option<&str>, sub: &str) -> (r: String)
    ensures
        r@ == subscription_redirect_of(opt_str(redirect), sub@),
{
    match redirect {
        Some(r) => concat2("/", r),
        None => concat2("/r/", sub),
    }
}

} // verus!

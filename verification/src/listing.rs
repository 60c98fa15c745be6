//! The decisions behind a subreddit listing page.
use vstd::prelude::*;
use crate::order::{is_permutation, stable_order, stably_sorted, SortKey};
use crate::text::{
    chars_of, concat2, contains, decimal, list_contains, push_decimal, replace_all, replaced,
    split_chars, split_on, starts_with, starts_with_exec, string_of_range, text_eq,
};

verus! {

/// The view of an optional string slice.
pub open spec fn opt_str(o: Option<&str>) -> Option<Seq<char>> {
    match o {
        Some(s) => Some(s@),
        None => None,
    }
}

/// The subreddit a listing shows: the one in the path, else the front page
/// setting, where `default` (or nothing) means the subscriptions, or
/// `popular` without any.
pub open spec fn sub_name_of(sub_param: Option<Seq<char>>, subscribed: Seq<char>, front_page: Seq<
    char,
>) -> Seq<char> {
    match sub_param {
        Some(s) => s,
        None => if front_page == "default"@ || front_page.len() == 0 {
            if subscribed.len() == 0 {
                "popular"@
            } else {
                subscribed
            }
        } else {
            front_page
        },
    }
}

/// The subreddit a listing shows.
pub fn resolve_sub_name(sub_param: Option<&str>, subscribed: &str, front_page: &str) -> (r: String)
    ensures
        r@ == sub_name_of(opt_str(sub_param), subscribed@, front_page@),
{
    match sub_param {
        Some(s) => s.to_owned(),
        None => if text_eq(front_page, "default") || front_page.is_empty() {
            if subscribed.is_empty() {
                "popular".to_owned()
            } else {
                subscribed.to_owned()
            }
        } else {
            front_page.to_owned()
        },
    }
}

/// Law: without a subreddit in the path the listing always names one: the
/// front page setting when it names a feed of its own, else the
/// subscriptions, or `popular` when there are none. A subreddit in the path
/// is taken as it is.
pub proof fn lemma_sub_name_from_settings(
    sub_param: Option<Seq<char>>,
    subscribed: Seq<char>,
    front_page: Seq<char>,
)
    ensures
        sub_param matches Some(s) ==> sub_name_of(sub_param, subscribed, front_page) == s,
        sub_param is None ==> sub_name_of(sub_param, subscribed, front_page).len() > 0,
        sub_param is None && (front_page == "default"@ || front_page.len() == 0) && subscribed.len() > 0
            ==> sub_name_of(sub_param, subscribed, front_page) == subscribed,
        sub_param is None && (front_page == "default"@ || front_page.len() == 0) && subscribed.len() == 0
            ==> sub_name_of(sub_param, subscribed, front_page) == "popular"@,
        sub_param is None && front_page != "default"@ && front_page.len() > 0 ==> sub_name_of(
            sub_param,
            subscribed,
            front_page,
        ) == front_page,
{
    reveal_strlit("popular");
}

/// Shown instead of `popular` or `all` when default feeds are turned off
/// and there are no subscriptions.
pub const SUBSCRIBE_FIRST: &'static str = "Subscribe to some subreddits! (Default feeds disabled in settings)";

/// Shown instead of `popular` or `all` when default feeds are turned off
/// although there are subscriptions.
pub const FRONT_PAGE_NOT_DEFAULT: &'static str = "You have subscribed to some subreddits, but your front page is not set to default. Visit settings and change front page to default.";

/// The notice that replaces a default feed when default feeds are off.
pub open spec fn default_feeds_notice_of(sub_name: Seq<char>, remove_default_feeds: bool, subscribed: Seq<
    char,
>) -> Option<Seq<char>> {
    if (sub_name == "popular"@ || sub_name == "all"@) && remove_default_feeds {
        if subscribed.len() == 0 {
            Some(SUBSCRIBE_FIRST@)
        } else {
            Some(FRONT_PAGE_NOT_DEFAULT@)
        }
    } else {
        None
    }
}

/// The notice shown instead of `popular` or `all` when default feeds are
/// turned off, if the listing is one of them.
pub fn default_feeds_notice(sub_name: &str, remove_default_feeds: bool, subscribed: &str) -> (r:
    Option<&'static str>)
    ensures
        opt_str(r) == default_feeds_notice_of(sub_name@, remove_default_feeds, subscribed@),
{
    if (text_eq(sub_name, "popular") || text_eq(sub_name, "all")) && remove_default_feeds {
        if subscribed.is_empty() {
            Some(SUBSCRIBE_FIRST)
        } else {
            Some(FRONT_PAGE_NOT_DEFAULT)
        }
    } else {
        None
    }
}

/// A user profile named as a subreddit (`u_name`) in the path is
/// redirected to the user page.
pub open spec fn user_redirect_of(sub_in_path: bool, sub_name: Seq<char>) -> Option<Seq<char>> {
    if sub_in_path && starts_with(sub_name, "u_"@) {
        Some("/user/"@ + sub_name.skip(2))
    } else {
        None
    }
}

/// Where to redirect a listing of a user profile, if it is one.
pub fn user_redirect(sub_in_path: bool, sub_name: &str) -> (r: Option<String>)
    ensures
        opt_string(r) == user_redirect_of(sub_in_path, sub_name@),
{
    if sub_in_path && starts_with_exec(sub_name, "u_") {
        proof {
            reveal_strlit("u_");
        }
        let v = chars_of(sub_name);
        let rest = string_of_range(&v, 2, v.len());
        assert(rest@ =~= sub_name@.skip(2));
        Some(concat2("/user/", rest.as_str()))
    } else {
        None
    }
}

/// The view of an optional string.
pub open spec fn opt_string(o: Option<String>) -> Option<Seq<char>> {
    match o {
        Some(s) => Some(s@),
        None => None,
    }
}

/// Where the metadata shown above a listing comes from.
pub enum SubredditSource {
    /// Fetched from Reddit for the subreddit.
    Fetch,
    /// Left blank.
    Blank,
    /// Blank but for the listing's name (multireddits, `popular`, `all`).
    NameOnly,
}

/// Single subreddits other than the default feeds get their metadata
/// fetched; so does the subscription feed when it is reached under `/r/`.
pub open spec fn subreddit_source_of(sub_name: Seq<char>, subscribed: Seq<char>, path: Seq<char>) -> SubredditSource {
    if !sub_name.contains('+') && sub_name != subscribed && sub_name != "popular"@ && sub_name
        != "all"@ {
        SubredditSource::Fetch
    } else if sub_name == subscribed {
        if starts_with(path, "/r/"@) {
            SubredditSource::Fetch
        } else {
            SubredditSource::Blank
        }
    } else {
        SubredditSource::NameOnly
    }
}

fn contains_char(s: &str, c: char) -> (b: bool)
    ensures
        b == s@.contains(c),
{
    let v = chars_of(s);
    let mut i: usize = 0;
    while i < v.len()
        invariant
            v@ == s@,
            i <= v.len(),
            forall|j: int| 0 <= j < i ==> v@[j] != c,
        decreases v.len() - i,
    {
        if v[i] == c {
            return true;
        }
        i += 1;
    }
    false
}

/// Where the metadata above the listing of `sub_name` comes from.
pub fn subreddit_source(sub_name: &str, subscribed: &str, path: &str) -> (r: SubredditSource)
    ensures
        r == subreddit_source_of(sub_name@, subscribed@, path@),
{
    if !contains_char(sub_name, '+') && !text_eq(sub_name, subscribed) && !text_eq(
        sub_name,
        "popular",
    ) && !text_eq(sub_name, "all") {
        SubredditSource::Fetch
    } else if text_eq(sub_name, subscribed) {
        if starts_with_exec(path, "/r/") {
            SubredditSource::Fetch
        } else {
            SubredditSource::Blank
        }
    } else {
        SubredditSource::NameOnly
    }
}

/// A decimal digit character.
pub open spec fn is_digit(c: char) -> bool {
    '0' <= c && c <= '9'
}

/// The number that the decimal digits `d` stand for.
pub open spec fn digits_value(d: Seq<char>) -> nat
    decreases d.len(),
{
    if d.len() == 0 {
        0
    } else {
        (digits_value(d.drop_last()) * 10 + ((d.last() as u32) - ('0' as u32))) as nat
    }
}

/// `s` without a leading `+`.
pub open spec fn unsigned_digits(s: Seq<char>) -> Seq<char> {
    if s.len() > 0 && s[0] == '+' {
        s.skip(1)
    } else {
        s
    }
}

/// Every character of `d` is a decimal digit.
pub open spec fn all_digits(d: Seq<char>) -> bool {
    forall|i: int| 0 <= i < d.len() ==> is_digit(#[trigger] d[i])
}

/// What `str::parse::<u32>` gives: an optional `+` and at least one decimal
/// digit, with a value that fits in a `u32`.
pub open spec fn parsed_u32(s: Seq<char>) -> Option<u32> {
    let d = unsigned_digits(s);
    if d.len() > 0 && all_digits(d) && digits_value(d) <= u32::MAX {
        Some(digits_value(d) as u32)
    } else {
        None
    }
}

/// Parses `s` as an unsigned 32-bit decimal number.
pub fn parse_u32(s: &str) -> (r: Option<u32>)
    ensures
        r == parsed_u32(s@),
{
    let v = chars_of(s);
    let start: usize = if v.len() > 0 && v[0] == '+' {
        1
    } else {
        0
    };
    let ghost d = unsigned_digits(s@);
    assert(d =~= v@.skip(start as int));
    if start == v.len() {
        return None;
    }
    let mut acc: u64 = 0;
    let mut over = false;
    let mut i: usize = start;
    assert(d.take(0) =~= Seq::<char>::empty());
    while i < v.len()
        invariant
            v@ == s@,
            start <= i <= v.len(),
            d =~= v@.skip(start as int),
            d == unsigned_digits(s@),
            forall|j: int| 0 <= j < i - start ==> is_digit(#[trigger] d[j]),
            !over ==> acc == digits_value(d.take(i - start)) && acc <= u32::MAX,
            over ==> digits_value(d.take(i - start)) > u32::MAX,
        decreases v.len() - i,
    {
        let c = v[i];
        if !('0' <= c && c <= '9') {
            assert(d[i - start] == c);
            assert(!is_digit(d[i - start]));
            return None;
        }
        assert(d.take(i - start + 1).drop_last() =~= d.take(i - start));
        assert(d.take(i - start + 1).last() == c);
        if !over {
            acc = acc * 10 + ((c as u32) - ('0' as u32)) as u64;
            if acc > u32::MAX as u64 {
                over = true;
            }
        }
        i += 1;
    }
    assert(d.take(i - start) =~= d);
    if over {
        None
    } else {
        Some(acc as u32)
    }
}

/// Posts per page when the setting does not give a number.
pub const DEFAULT_POST_COUNT: u32 = 50;

/// The number of posts per page: the setting read as a number (50 when it
/// is not one), held to 1 through 100.
pub open spec fn post_limit_of(post_count: Seq<char>) -> u32 {
    let n = match parsed_u32(post_count) {
        Some(n) => n,
        None => DEFAULT_POST_COUNT,
    };
    if n < 1 {
        1
    } else if n > 100 {
        100
    } else {
        n
    }
}

/// The number of posts per page for the `post_count` setting.
pub fn post_limit(post_count: &str) -> (r: u32)
    ensures
        r == post_limit_of(post_count@),
        1 <= r <= 100,
{
    let n = match parse_u32(post_count) {
        Some(n) => n,
        None => DEFAULT_POST_COUNT,
    };
    if n < 1 {
        1
    } else if n > 100 {
        100
    } else {
        n
    }
}


/// What the `regex` crate's `Regex::captures` with the pattern
/// `geo_filter=(?<region>\w+)` finds as `region` in `query`, if it matches.
pub uninterp spec fn geo_filter_capture(query: Seq<char>) -> Option<Seq<char>>;

/// Trusted: `Regex::captures` with the pattern `geo_filter=(?<region>\w+)`,
/// taking the `region` group. The contract names the result and claims
/// what the pattern shows: a found region is nonempty and follows
/// `geo_filter=` in the query, and a query without `geo_filter=` has none.
#[verifier::external_body]
fn geo_filter_region(query: &str) -> (r: Option<String>)
    ensures
        opt_string(r) == geo_filter_capture(query@),
        r matches Some(g) ==> g@.len() > 0 && contains(query@, "geo_filter="@ + g@),
        r is Some ==> contains(query@, "geo_filter="@),
{
    let re = regex::Regex::new(r"geo_filter=(?<region>\w+)").unwrap();
    match re.captures(query) {
        Some(caps) => match caps.name("region") {
            Some(m) => Some(m.as_str().to_string()),
            None => None,
        },
        None => None,
    }
}

/// The region of the `popular` feed: the query's `geo_filter`, else `GLOBAL`.
pub open spec fn geo_filter_of(query: Seq<char>) -> Seq<char> {
    match geo_filter_capture(query) {
        Some(g) => g,
        None => "GLOBAL"@,
    }
}

/// The region that the `popular` feed is asked for.
pub fn geo_filter(query: &str) -> (r: String)
    ensures
        r@ == geo_filter_of(query@),
        !contains(query@, "geo_filter="@) ==> r@ == "GLOBAL"@,
{
    match geo_filter_region(query) {
        Some(g) => g,
        None => "GLOBAL".to_owned(),
    }
}

/// The Reddit API path of a listing in the region `geo`: the subreddits
/// (with `+` escaped), the sort, the page's own query, raw JSON, the post
/// limit and, for `popular`, the region.
pub open spec fn listing_api_path_in_of(
    sub_name: Seq<char>,
    sort: Seq<char>,
    query: Seq<char>,
    post_count: Seq<char>,
    geo: Seq<char>,
) -> Seq<char> {
    let region = if sub_name == "popular"@ {
        "&geo_filter="@ + geo
    } else {
        Seq::empty()
    };
    "/r/"@ + replaced(sub_name, "+"@, "%2B"@) + "/"@ + sort + ".json?"@ + query + "&raw_json=1"@
        + "&limit="@ + decimal(post_limit_of(post_count) as nat) + region
}

/// The Reddit API path of a listing, in the region that its query asks for.
pub open spec fn listing_api_path_of(sub_name: Seq<char>, sort: Seq<char>, query: Seq<char>, post_count: Seq<
    char,
>) -> Seq<char> {
    listing_api_path_in_of(sub_name, sort, query, post_count, geo_filter_of(query))
}

/// The Reddit API path to fetch a listing from, for the region `geo`.
pub fn listing_api_path_in(sub_name: &str, sort: &str, query: &str, post_count: &str, geo: &str) -> (r:
    String)
    ensures
        r@ == listing_api_path_in_of(sub_name@, sort@, query@, post_count@, geo@),
{
    proof {
        reveal_strlit("+");
    }
    let mut r = "/r/".to_owned();
    let escaped = replace_all(sub_name, "+", "%2B");
    r.append(escaped.as_str());
    r.append("/");
    r.append(sort);
    r.append(".json?");
    r.append(query);
    r.append("&raw_json=1");
    r.append("&limit=");
    let limit = post_limit(post_count);
    push_decimal(&mut r, limit as u128);
    if text_eq(sub_name, "popular") {
        r.append("&geo_filter=");
        r.append(geo);
    }
    r
}

/// The Reddit API path to fetch a listing from.
pub fn listing_api_path(sub_name: &str, sort: &str, query: &str, post_count: &str) -> (r: String)
    ensures
        r@ == listing_api_path_of(sub_name@, sort@, query@, post_count@),
{
    let g = geo_filter(query);
    listing_api_path_in(sub_name, sort, query, post_count, g.as_str())
}

/// The page's own path and query, as a `redirect` parameter: without the
/// leading `/`, with `?`, `&` and `+` escaped.
pub open spec fn redirect_url_of(url: Seq<char>) -> Seq<char> {
    replaced(replaced(replaced(url.skip(1), "?"@, "%3F"@), "&"@, "%26"@), "+"@, "%2B"@)
}

/// The page's own path and query as a `redirect` parameter. `url` starts
/// with a one-byte character (a path starts with `/`).
pub fn redirect_url(url: &str) -> (r: String)
    requires
        url@.len() > 0,
        (url@[0] as u32) < 128,
    ensures
        r@ == redirect_url_of(url@),
{
    proof {
        reveal_strlit("?");
        reveal_strlit("&");
        reveal_strlit("+");
    }
    let v = chars_of(url);
    let rest = string_of_range(&v, 1, v.len());
    assert(rest@ =~= url@.skip(1));
    let a = replace_all(rest.as_str(), "?", "%3F");
    let b = replace_all(a.as_str(), "&", "%26");
    replace_all(b.as_str(), "+", "%2B")
}

/// Law: the `redirect` parameter holds no `?`, `&` or `+`, so it stays one
/// query parameter.
pub proof fn lemma_redirect_url_is_one_parameter(url: Seq<char>)
    ensures
        !redirect_url_of(url).contains('?'),
        !redirect_url_of(url).contains('&'),
        !redirect_url_of(url).contains('+'),
{
    reveal_strlit("?");
    reveal_strlit("&");
    reveal_strlit("+");
    reveal_strlit("%3F");
    reveal_strlit("%26");
    reveal_strlit("%2B");
    assert("?"@ =~= seq!['?']);
    assert("&"@ =~= seq!['&']);
    assert("+"@ =~= seq!['+']);
    let a = replaced(url.skip(1), "?"@, "%3F"@);
    let b = replaced(a, "&"@, "%26"@);
    let c = replaced(b, "+"@, "%2B"@);
    crate::text::lemma_replaced_removes(url.skip(1), '?', "%3F"@);
    crate::text::lemma_replaced_keeps_absent(a, "&"@, "%26"@, '?');
    crate::text::lemma_replaced_keeps_absent(b, "+"@, "%2B"@, '?');
    crate::text::lemma_replaced_removes(a, '&', "%26"@);
    crate::text::lemma_replaced_keeps_absent(b, "+"@, "%2B"@, '&');
    crate::text::lemma_replaced_removes(b, '+', "%2B"@);
}

/// Every subreddit of a `+`-joined listing name is filtered.
pub open spec fn all_subs_filtered_of(sub_name: Seq<char>, filters: Seq<Seq<char>>) -> bool {
    forall|k: int|
        0 <= k < split_on(sub_name, '+').len() ==> filters.contains(
            #[trigger] split_on(sub_name, '+')[k],
        )
}

/// Whether every subreddit of the listing is filtered, so that no posts
/// need to be fetched.
pub fn all_subs_filtered(sub_name: &str, filters: &Vec<String>) -> (b: bool)
    ensures
        b == all_subs_filtered_of(sub_name@, filters.deep_view()),
{
    let pieces = split_chars(sub_name, '+');
    let ghost fs = filters.deep_view();
    let mut i: usize = 0;
    while i < pieces.len()
        invariant
            pieces.deep_view() == split_on(sub_name@, '+'),
            fs == filters.deep_view(),
            i <= pieces.len(),
            forall|k: int| 0 <= k < i ==> fs.contains(#[trigger] split_on(sub_name@, '+')[k]),
        decreases pieces.len() - i,
    {
        let found = list_contains(filters, pieces[i].as_str());
        assert(pieces.deep_view()[i as int] == pieces@[i as int]@);
        if found {
            let ghost j = choose|j: int| 0 <= j < filters.len() && (#[trigger] filters@[j])@
                == pieces@[i as int]@;
            assert(fs[j] == filters@[j]@);
        } else {
            assert forall|j: int| 0 <= j < fs.len() implies fs[j] != pieces@[i as int]@ by {
                assert(fs[j] == filters@[j]@);
            }
            return false;
        }
        i += 1;
    }
    true
}

/// Every fetched post is NSFW and NSFW posts are not shown.
pub open spec fn all_hidden_nsfw_of(nsfw: Seq<bool>, show_nsfw: Seq<char>) -> bool {
    nsfw.len() > 0 && (forall|k: int| 0 <= k < nsfw.len() ==> #[trigger] nsfw[k])
        && show_nsfw != "on"@
}

/// Whether a nonempty page of posts is all hidden because it is NSFW.
pub fn all_posts_hidden_nsfw(nsfw: &Vec<bool>, show_nsfw: &str) -> (b: bool)
    ensures
        b == all_hidden_nsfw_of(nsfw@, show_nsfw@),
{
    if nsfw.len() == 0 {
        return false;
    }
    let mut i: usize = 0;
    while i < nsfw.len()
        invariant
            i <= nsfw.len(),
            forall|k: int| 0 <= k < i ==> #[trigger] nsfw@[k],
        decreases nsfw.len() - i,
    {
        if !nsfw[i] {
            return false;
        }
        i += 1;
    }
    !text_eq(show_nsfw, "on")
}

/// What the `new` sort orders posts by: pinned posts first, then newest
/// first.
pub struct PostOrderKey {
    pub stickied: bool,
    pub created_ts: u64,
}

impl SortKey for PostOrderKey {
    open spec fn le_key(self, other: Self) -> bool {
        (self.stickied && !other.stickied) || (self.stickied == other.stickied && self.created_ts
            >= other.created_ts)
    }

    proof fn lemma_le_total(a: Self, b: Self) {
    }

    proof fn lemma_le_trans(a: Self, b: Self, c: Self) {
    }

    fn key_le(&self, other: &Self) -> (r: bool) {
        (self.stickied && !other.stickied) || (self.stickied == other.stickied && self.created_ts
            >= other.created_ts)
    }
}

/// The order of a page of posts under the `new` sort: by creation time,
/// newest first, then with pinned posts moved to the front, both stably.
/// Position `k` of the result holds the index of the post shown `k`-th.
pub fn new_posts_order(keys: &Vec<PostOrderKey>) -> (order: Vec<usize>)
    ensures
        is_permutation(order@, keys@.len()),
        stably_sorted(keys@, order@),
        forall|a: int, b: int|
            0 <= a < b < order@.len() ==> (keys@[order@[a] as int].stickied || !keys@[order@[
                b] as int].stickied),
        forall|a: int, b: int|
            0 <= a < b < order@.len() && keys@[order@[a] as int].stickied == keys@[order@[
                b] as int].stickied ==> keys@[order@[a] as int].created_ts >= keys@[order@[
                b] as int].created_ts,
{
    let order = stable_order(keys);
    assert forall|a: int, b: int| 0 <= a < b < order@.len() implies (keys@[order@[a] as int].stickied
        || !keys@[order@[b] as int].stickied) && (keys@[order@[a] as int].stickied == keys@[order@[
        b] as int].stickied ==> keys@[order@[a] as int].created_ts >= keys@[order@[
        b] as int].created_ts) by {
        assert(keys@[order@[a] as int].le_key(keys@[order@[b] as int]));
    }
    order
}

/// The sort of a listing: the path's sort, else its id, else the
/// `post_sort` cookie, else `hot`.
pub open spec fn listing_sort_of(sort_param: Option<Seq<char>>, id_param: Option<Seq<char>>, cookie: Option<
    Seq<char>,
>) -> Seq<char> {
    match sort_param {
        Some(s) => s,
        None => match id_param {
            Some(s) => s,
            None => match cookie {
                Some(s) => s,
                None => "hot"@,
            },
        },
    }
}

/// The sort a listing is shown in.
pub fn listing_sort(sort_param: Option<&str>, id_param: Option<&str>, cookie: Option<&str>) -> (r:
    String)
    ensures
        r@ == listing_sort_of(opt_str(sort_param), opt_str(id_param), opt_str(cookie)),
{
    match sort_param {
        Some(s) => s.to_owned(),
        None => match id_param {
            Some(s) => s.to_owned(),
            None => match cookie {
                Some(s) => s.to_owned(),
                None => "hot".to_owned(),
            },
        },
    }
}

/// How a failed fetch is answered.
pub enum FetchFailure {
    /// A page asking to continue into a quarantined or gated subreddit,
    /// with the restriction.
    Wall(String),
    /// An error page with the message.
    Error(String),
}

/// The view of a failure: whether it is a wall, and its text.
pub open spec fn failure_view(f: FetchFailure) -> (bool, Seq<char>) {
    match f {
        FetchFailure::Wall(s) => (true, s@),
        FetchFailure::Error(s) => (false, s@),
    }
}

/// A quarantined or gated subreddit gets a wall; a private or banned one
/// an explanation naming it; any other failure its message.
pub open spec fn listing_failure_of(sub_name: Seq<char>, msg: Seq<char>) -> (bool, Seq<char>) {
    if msg == "quarantined"@ || msg == "gated"@ {
        (true, msg)
    } else if msg == "private"@ {
        (false, "r/"@ + sub_name + " is a private community"@)
    } else if msg == "banned"@ {
        (false, "r/"@ + sub_name + " has been banned from Reddit"@)
    } else {
        (false, msg)
    }
}

/// How a failure to fetch the posts of `sub_name` is answered.
pub fn listing_failure(sub_name: &str, msg: &str) -> (r: FetchFailure)
    ensures
        failure_view(r) == listing_failure_of(sub_name@, msg@),
{
    if text_eq(msg, "quarantined") || text_eq(msg, "gated") {
        FetchFailure::Wall(msg.to_owned())
    } else if text_eq(msg, "private") {
        let mut m = concat2("r/", sub_name);
        m.append(" is a private community");
        FetchFailure::Error(m)
    } else if text_eq(msg, "banned") {
        let mut m = concat2("r/", sub_name);
        m.append(" has been banned from Reddit");
        FetchFailure::Error(m)
    } else {
        FetchFailure::Error(msg.to_owned())
    }
}

} // verus!

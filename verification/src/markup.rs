//! HTML escaping, decoding and the text of feed item descriptions.
use vstd::prelude::*;
use crate::text::{
    attribute_pattern, chars_of, concat3, lemma_replaced_absent, lemma_replaced_no_attribute,
    push_char, replace_all, replaced, slash_safe, string_of_range,
};

verus! {

/// The entity that `htmlescape::encode_minimal` writes for `c`, or `c`
/// itself.
pub open spec fn escape_char(c: char) -> Seq<char> {
    if c == '"' {
        "&quot;"@
    } else if c == '&' {
        "&amp;"@
    } else if c == '\'' {
        "&#x27;"@
    } else if c == '<' {
        "&lt;"@
    } else if c == '>' {
        "&gt;"@
    } else {
        seq![c]
    }
}

/// `s` with `"`, `&`, `'`, `<` and `>` replaced by their entities.
pub open spec fn html_escaped(s: Seq<char>) -> Seq<char>
    decreases s.len(),
{
    if s.len() == 0 {
        Seq::empty()
    } else {
        html_escaped(s.drop_last()) + escape_char(s.last())
    }
}

/// Trusted: `htmlescape::encode_minimal`, which writes each character of
/// `s` in turn, replacing the five characters of its minimal entity table.
#[verifier::external_body]
pub(crate) fn encode_minimal(s: &str) -> (r: String)
    ensures
        r@ == html_escaped(s@),
{
    htmlescape::encode_minimal(s)
}

#[verifier::external_type_specification]
#[verifier::external_body]
pub struct ExDecodeErr(htmlescape::DecodeErr);

/// What `htmlescape::decode_html` makes of `s`: the text with its entities
/// decoded, or `None` when it holds a malformed or unknown entity.
pub uninterp spec fn html_decoded(s: Seq<char>) -> Option<Seq<char>>;

/// Trusted: `htmlescape::decode_html`. The contract names its result and
/// claims one fact of its source: text without `&` is copied unchanged.
#[verifier::external_body]
fn decode_html(s: &str) -> (r: Result<String, htmlescape::DecodeErr>)
    ensures
        r is Ok <==> html_decoded(s@) is Some,
        r matches Ok(d) ==> html_decoded(s@) == Some(d@),
        r is Err ==> s@.contains('&'),
        r matches Ok(d) ==> (!s@.contains('&') ==> d@ == s@),
{
    htmlescape::decode_html(s)
}

/// `s` with its entities decoded, or `s` itself when it cannot be decoded.
pub open spec fn decoded_or_kept(s: Seq<char>) -> Seq<char> {
    match html_decoded(s) {
        Some(d) => d,
        None => s,
    }
}

/// Decodes the entities of `s`, keeping `s` as it is when that fails.
pub fn decode_or_keep(s: &str) -> (r: String)
    ensures
        r@ == decoded_or_kept(s@),
        !s@.contains('&') ==> r@ == s@,
{
    match decode_html(s) {
        Ok(d) => d,
        Err(_) => s.to_owned(),
    }
}

/// A link written into an attribute of the feed's HTML: entities decoded,
/// then the minimal set re-encoded.
pub fn html_url(url: &str) -> (r: String)
    ensures
        r@ == html_escaped(decoded_or_kept(url@)),
{
    let d = decode_or_keep(url);
    encode_minimal(d.as_str())
}

/// Index of the first `>` in `s` at or after `from`.
pub open spec fn next_gt(s: Seq<char>, from: int) -> Option<int>
    decreases s.len() - from,
{
    if from < 0 || from >= s.len() {
        None
    } else if s[from] == '>' {
        Some(from)
    } else {
        next_gt(s, from + 1)
    }
}

/// `s` with every tag, a `<` followed by at least one character other than
/// `>` and then a `>`, replaced by one space, matching from left to right.
pub open spec fn tags_blanked(s: Seq<char>) -> Seq<char>
    decreases s.len(),
{
    if s.len() == 0 {
        Seq::empty()
    } else if s[0] == '<' && next_gt(s, 1) is Some && next_gt(s, 1)->0 >= 2 && next_gt(s, 1)->0
        < s.len() {
        seq![' '] + tags_blanked(s.skip(next_gt(s, 1)->0 + 1))
    } else {
        seq![s[0]] + tags_blanked(s.skip(1))
    }
}

/// Trusted: the `regex` crate's `Regex::replace_all` with the pattern
/// `<[^>]+>` and the replacement `" "`. The contract claims the leftmost,
/// non-overlapping matches that `tags_blanked` describes.
#[verifier::external_body]
fn blank_tags(s: &str) -> (r: String)
    ensures
        r@ == tags_blanked(s@),
{
    regex::Regex::new(r"<[^>]+>").unwrap().replace_all(s, " ").to_string()
}

/// Whether `c` has the Unicode `White_Space` property, as
/// `char::is_whitespace` tests.
pub open spec fn unicode_space(c: char) -> bool {
    let u = c as u32;
    ||| 0x9 <= u && u <= 0xD
    ||| u == 0x20
    ||| u == 0x85
    ||| u == 0xA0
    ||| u == 0x1680
    ||| 0x2000 <= u && u <= 0x200A
    ||| u == 0x2028
    ||| u == 0x2029
    ||| u == 0x202F
    ||| u == 0x205F
    ||| u == 0x3000
}

/// Whether `c` is Unicode white space.
pub fn is_unicode_space(c: char) -> (b: bool)
    ensures
        b == unicode_space(c),
{
    let u = c as u32;
    (0x9 <= u && u <= 0xD) || u == 0x20 || u == 0x85 || u == 0xA0 || u == 0x1680 || (0x2000 <= u
        && u <= 0x200A) || u == 0x2028 || u == 0x2029 || u == 0x202F || u == 0x205F || u == 0x3000
}

/// `s` without its leading white space.
pub open spec fn trim_start(s: Seq<char>) -> Seq<char>
    decreases s.len(),
{
    if s.len() > 0 && unicode_space(s[0]) {
        trim_start(s.skip(1))
    } else {
        s
    }
}

/// `s` without its trailing white space.
pub open spec fn trim_end(s: Seq<char>) -> Seq<char>
    decreases s.len(),
{
    if s.len() > 0 && unicode_space(s.last()) {
        trim_end(s.drop_last())
    } else {
        s
    }
}

/// `s` without leading and trailing white space, as `str::trim` gives it.
pub open spec fn trimmed(s: Seq<char>) -> Seq<char> {
    trim_end(trim_start(s))
}

/// Removes leading and trailing Unicode white space from `s`.
pub fn trim(s: &str) -> (r: String)
    ensures
        r@ == trimmed(s@),
{
    let v = chars_of(s);
    let mut lo: usize = 0;
    assert(s@.skip(0) =~= s@);
    while lo < v.len() && is_unicode_space(v[lo])
        invariant
            v@ == s@,
            lo <= v.len(),
            trim_start(s@) == trim_start(s@.skip(lo as int)),
        decreases v.len() - lo,
    {
        assert(s@.skip(lo as int).skip(1) =~= s@.skip(lo + 1));
        lo += 1;
    }
    assert(trim_start(s@) == s@.subrange(lo as int, v.len() as int)) by {
        assert(s@.skip(lo as int) =~= s@.subrange(lo as int, v.len() as int));
    }
    let mut hi: usize = v.len();
    while hi > lo && is_unicode_space(v[hi - 1])
        invariant
            v@ == s@,
            lo <= hi <= v.len(),
            trimmed(s@) == trim_end(s@.subrange(lo as int, hi as int)),
        decreases hi - lo,
    {
        assert(s@.subrange(lo as int, hi as int).drop_last() =~= s@.subrange(lo as int, hi - 1));
        hi -= 1;
    }
    string_of_range(&v, lo, hi)
}

/// `s` without the characters `c` at its end, as `str::trim_end_matches`
/// gives it for one character.
pub open spec fn trim_end_char(s: Seq<char>, c: char) -> Seq<char>
    decreases s.len(),
{
    if s.len() > 0 && s.last() == c {
        trim_end_char(s.drop_last(), c)
    } else {
        s
    }
}

/// Removes every trailing `c` from `s`.
pub fn trim_end_matches(s: &str, c: char) -> (r: String)
    ensures
        r@ == trim_end_char(s@, c),
{
    let v = chars_of(s);
    let mut hi: usize = v.len();
    assert(s@.subrange(0, hi as int) =~= s@);
    while hi > 0 && v[hi - 1] == c
        invariant
            v@ == s@,
            hi <= v.len(),
            trim_end_char(s@, c) == trim_end_char(s@.subrange(0, hi as int), c),
        decreases hi,
    {
        assert(s@.subrange(0, hi as int).drop_last() =~= s@.subrange(0, hi - 1));
        hi -= 1;
    }
    string_of_range(&v, 0, hi)
}

/// The part of `s` before its first `c`, as `split(c).next()` gives it.
pub open spec fn before_char(s: Seq<char>, c: char) -> Seq<char>
    decreases s.len(),
{
    if s.len() == 0 || s[0] == c {
        Seq::empty()
    } else {
        seq![s[0]] + before_char(s.skip(1), c)
    }
}

/// The part of `s` before its first `c`.
pub fn split_first(s: &str, c: char) -> (r: String)
    ensures
        r@ == before_char(s@, c),
{
    let v = chars_of(s);
    let mut i: usize = 0;
    assert(s@.skip(0) =~= s@);
    while i < v.len() && v[i] != c
        invariant
            v@ == s@,
            i <= v.len(),
            before_char(s@, c) == s@.take(i as int) + before_char(s@.skip(i as int), c),
        decreases v.len() - i,
    {
        assert(s@.skip(i as int).skip(1) =~= s@.skip(i + 1));
        assert(s@.take(i + 1) =~= s@.take(i as int) + seq![s@[i as int]]);
        i += 1;
    }
    assert(s@.take(i as int) + Seq::<char>::empty() =~= s@.subrange(0, i as int));
    string_of_range(&v, 0, i)
}

/// The words of `s` joined by single spaces, given whether a word was
/// already written (`wrote`) and whether white space followed it (`gap`).
pub open spec fn collapse_from(s: Seq<char>, wrote: bool, gap: bool) -> Seq<char>
    decreases s.len(),
{
    if s.len() == 0 {
        Seq::empty()
    } else if unicode_space(s[0]) {
        collapse_from(s.skip(1), wrote, wrote)
    } else if gap {
        seq![' ', s[0]] + collapse_from(s.skip(1), true, false)
    } else {
        seq![s[0]] + collapse_from(s.skip(1), true, false)
    }
}

/// The white-space separated words of `s` joined by single spaces, as
/// `split_whitespace` followed by `join(" ")` gives them.
pub open spec fn words_joined(s: Seq<char>) -> Seq<char> {
    collapse_from(s, false, false)
}

/// Joins the white-space separated words of `s` with single spaces.
pub fn join_words(s: &str) -> (r: String)
    ensures
        r@ == words_joined(s@),
{
    let v = chars_of(s);
    let mut r = String::new();
    let mut wrote = false;
    let mut gap = false;
    let mut i: usize = 0;
    assert(s@.skip(0) =~= s@);
    while i < v.len()
        invariant
            v@ == s@,
            i <= v.len(),
            r@ + collapse_from(s@.skip(i as int), wrote, gap) == words_joined(s@),
        decreases v.len() - i,
    {
        let c = v[i];
        let ghost rest = s@.skip(i as int);
        assert(rest[0] == c);
        assert(rest.skip(1) =~= s@.skip(i + 1));
        let ghost before = r@;
        if is_unicode_space(c) {
            gap = wrote;
        } else {
            if gap {
                push_char(&mut r, ' ');
            }
            push_char(&mut r, c);
            proof {
                let tail = collapse_from(s@.skip(i + 1), true, false);
                if gap {
                    assert(r@ + tail =~= before + (seq![' ', c] + tail));
                } else {
                    assert(r@ + tail =~= before + (seq![c] + tail));
                }
            }
            wrote = true;
            gap = false;
        }
        i += 1;
    }
    assert(s@.skip(i as int) =~= Seq::<char>::empty());
    assert(r@ + Seq::<char>::empty() =~= r@);
    r
}

/// One of the characters that the minimal escaping replaces.
pub open spec fn markup_char(c: char) -> bool {
    c == '<' || c == '>' || c == '"' || c == '\''
}

proof fn lemma_escape_char_clean(c: char)
    ensures
        forall|i: int|
            0 <= i < escape_char(c).len() ==> !markup_char(#[trigger] escape_char(c)[i]),
{
    reveal_strlit("&quot;");
    reveal_strlit("&amp;");
    reveal_strlit("&#x27;");
    reveal_strlit("&lt;");
    reveal_strlit("&gt;");
}

/// Law: escaped text holds no `<`, `>`, `"` or `'`, so it cannot open a
/// tag or close an attribute.
pub proof fn lemma_escaped_has_no_markup(s: Seq<char>)
    ensures
        forall|i: int| 0 <= i < html_escaped(s).len() ==> !markup_char(#[trigger] html_escaped(s)[i]),
    decreases s.len(),
{
    if s.len() > 0 {
        lemma_escaped_has_no_markup(s.drop_last());
        lemma_escape_char_clean(s.last());
        let a = html_escaped(s.drop_last());
        let b = escape_char(s.last());
        assert forall|i: int| 0 <= i < (a + b).len() implies !markup_char(#[trigger] (a + b)[i]) by {
            if i < a.len() {
                assert((a + b)[i] == a[i]);
            } else {
                assert((a + b)[i] == b[i - a.len()]);
            }
        }
    }
}

/// Longest feed item description, in characters.
pub const DESCRIPTION_MAX_CHARS: usize = 280;

/// The plain-text description made from an entity-decoded body: tags
/// blanked and white space collapsed; the title when that leaves nothing;
/// cut to 277 characters and `...` when longer than 280.
pub open spec fn description_of_decoded(decoded: Seq<char>, title: Seq<char>) -> Seq<char> {
    let normalized = words_joined(tags_blanked(decoded));
    if normalized.len() == 0 {
        title
    } else if normalized.len() <= DESCRIPTION_MAX_CHARS {
        normalized
    } else {
        normalized.take(DESCRIPTION_MAX_CHARS - 3) + "..."@
    }
}

/// The plain-text description of a feed item: the body with entities
/// decoded (or as it is when it cannot be), then as
/// `description_of_decoded` says.
pub open spec fn rss_description_of(body: Seq<char>, title: Seq<char>) -> Seq<char> {
    description_of_decoded(decoded_or_kept(body), title)
}

/// Law: a feed item description is the title, or at most 280 characters.
pub proof fn lemma_description_bounded(body: Seq<char>, title: Seq<char>)
    ensures
        rss_description_of(body, title) == title || rss_description_of(body, title).len()
            <= DESCRIPTION_MAX_CHARS,
{
    reveal_strlit("...");
}

/// The description of a feed item whose body, with entities decoded, is
/// `decoded` and whose title is `title`.
pub fn describe_decoded(decoded: &str, title: &str) -> (r: String)
    ensures
        r@ == description_of_decoded(decoded@, title@),
{
    let plain = blank_tags(decoded);
    let normalized = join_words(plain.as_str());
    let v = chars_of(normalized.as_str());
    if v.len() == 0 {
        title.to_owned()
    } else if v.len() <= DESCRIPTION_MAX_CHARS {
        normalized
    } else {
        let mut truncated = String::new();
        let mut i: usize = 0;
        while i < DESCRIPTION_MAX_CHARS - 3
            invariant
                i <= DESCRIPTION_MAX_CHARS - 3 < v.len(),
                truncated@ == v@.take(i as int),
            decreases DESCRIPTION_MAX_CHARS - 3 - i,
        {
            push_char(&mut truncated, v[i]);
            assert(v@.take(i + 1) =~= v@.take(i as int).push(v@[i as int]));
            i += 1;
        }
        truncated.append("...");
        truncated
    }
}

/// The description of a feed item with body `body` and title `title`.
pub fn rss_description(body: &str, title: &str) -> (r: String)
    ensures
        r@ == rss_description_of(body@, title@),
{
    let decoded = decode_or_keep(body);
    describe_decoded(decoded.as_str(), title)
}

/// `html` with site-relative `href`, `src` and `poster` attributes pointed
/// at `base`; unchanged when there is no base.
pub open spec fn absolutized(base: Seq<char>, html: Seq<char>) -> Seq<char> {
    if base.len() == 0 {
        html
    } else {
        let h = replaced(html, "href=\"/"@, "href=\""@ + base + "/"@);
        let s = replaced(h, "src=\"/"@, "src=\""@ + base + "/"@);
        replaced(s, "poster=\"/"@, "poster=\""@ + base + "/"@)
    }
}

/// Points the site-relative links in `html` at `base_url`.
pub fn absolutize_html(base_url: &str, html: &str) -> (r: String)
    ensures
        r@ == absolutized(base_url@, html@),
{
    if base_url.is_empty() {
        html.to_owned()
    } else {
        proof {
            reveal_strlit("href=\"/");
            reveal_strlit("src=\"/");
            reveal_strlit("poster=\"/");
        }
        let href_to = concat3("href=\"", base_url, "/");
        let h = replace_all(html, "href=\"/", href_to.as_str());
        let src_to = concat3("src=\"", base_url, "/");
        let s = replace_all(h.as_str(), "src=\"/", src_to.as_str());
        let poster_to = concat3("poster=\"", base_url, "/");
        replace_all(s.as_str(), "poster=\"/", poster_to.as_str())
    }
}

proof fn lemma_attribute_replacement_safe(w: Seq<char>, base: Seq<char>)
    requires
        w.len() >= 2,
        w[0] != '/',
        w[w.len() - 1] == '"',
        forall|k: int| 0 <= k < w.len() - 1 ==> w[k] != '"',
        base.len() > 0,
        base[0] != '/',
        !base.contains('"'),
    ensures
        slash_safe(w + base + "/"@),
{
    reveal_strlit("/");
    let r = w + base + "/"@;
    assert forall|k: int| 0 <= k < r.len() - 1 implies !(#[trigger] r[k] == '"' && r[k + 1] == '/') by {
        if k < w.len() - 1 {
            assert(r[k] == w[k]);
        } else if k == w.len() - 1 {
            assert(r[k + 1] == base[0]);
        } else {
            assert(r[k] == base[k - w.len()]);
        }
    }
}

/// Law: pointing links at a base a second time changes nothing, when the
/// base is empty or does not start with `/`, and holds no `"`.
pub proof fn lemma_absolutize_idempotent(base: Seq<char>, html: Seq<char>)
    requires
        base.len() == 0 || base[0] != '/',
        !base.contains('"'),
    ensures
        absolutized(base, absolutized(base, html)) == absolutized(base, html),
{
    if base.len() > 0 {
        reveal_strlit("href=\"/");
        reveal_strlit("src=\"/");
        reveal_strlit("poster=\"/");
        reveal_strlit("href=\"");
        reveal_strlit("src=\"");
        reveal_strlit("poster=\"");
        let p1 = "href=\"/"@;
        let p2 = "src=\"/"@;
        let p3 = "poster=\"/"@;
        let r1 = "href=\""@ + base + "/"@;
        let r2 = "src=\""@ + base + "/"@;
        let r3 = "poster=\""@ + base + "/"@;
        lemma_attribute_replacement_safe("href=\""@, base);
        lemma_attribute_replacement_safe("src=\""@, base);
        lemma_attribute_replacement_safe("poster=\""@, base);
        assert(attribute_pattern(p1));
        assert(attribute_pattern(p2));
        assert(attribute_pattern(p3));
        let a1 = replaced(html, p1, r1);
        let a2 = replaced(a1, p2, r2);
        let a3 = replaced(a2, p3, r3);
        lemma_replaced_no_attribute(html, p1, r1, p1);
        lemma_replaced_no_attribute(a1, p2, r2, p2);
        lemma_replaced_no_attribute(a1, p2, r2, p1);
        lemma_replaced_no_attribute(a2, p3, r3, p3);
        lemma_replaced_no_attribute(a2, p3, r3, p1);
        lemma_replaced_no_attribute(a2, p3, r3, p2);
        lemma_replaced_absent(a3, p1, r1);
        lemma_replaced_absent(a3, p2, r2);
        lemma_replaced_absent(a3, p3, r3);
    }
}

/// What the `regex` crate's `Regex::replace_all` makes of `html` with the
/// inline-image pattern of this library (a paragraph holding only a link
/// to an image) and the replacement `<p><img src="$1" alt="" /></p>`.
pub uninterp spec fn inline_images(html: Seq<char>) -> Seq<char>;

/// Trusted: `Regex::replace_all` with the pattern
/// `<p><a href="([^"]+(?:/img/|/preview/|https?://(?:i|preview|external-preview)\.redd\.it/[^"]+|\.(?:png|jpe?g|gif|webp))(?:\?[^"]*)?)">.*?</a></p>`.
/// The contract names the result and claims one fact: every match starts
/// with `<p><a href="`, so text without it comes back unchanged.
#[verifier::external_body]
fn regex_inline_images(html: &str) -> (r: String)
    ensures
        r@ == inline_images(html@),
        !crate::text::contains(html@, "<p><a href=\""@) ==> r@ == html@,
{
    let re = regex::Regex::new(
        r#"<p><a href="([^"]+(?:/img/|/preview/|https?://(?:i|preview|external-preview)\.redd\.it/[^"]+|\.(?:png|jpe?g|gif|webp))(?:\?[^"]*)?)">.*?</a></p>"#,
    ).unwrap();
    re.replace_all(html, r#"<p><img src="$1" alt="" /></p>"#).to_string()
}

/// Turns paragraphs that only link to an image into inline images.
pub fn inline_image_links(html: &str) -> (r: String)
    ensures
        r@ == inline_images(html@),
        !crate::text::contains(html@, "<p><a href=\""@) ==> r@ == html@,
{
    regex_inline_images(html)
}

} // verus!

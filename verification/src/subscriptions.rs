//! Subscribing to, filtering and unfiltering subreddits, and the cookies
//! that keep those lists.
use vstd::prelude::*;
use crate::cookies::{
    join_until_size_limit, set_cookie_view, site_cookie, site_cookie_of, size_limited_chunks,
    CookieLifetime, SetCookie,
};
use crate::order::{is_permutation, lex_le, stable_order, SortKey, TextKey};
use crate::text::{
    chars_of, decimal, list_contains, lowercase, push_decimal, split_chars, split_on,
    starts_with, starts_with_exec, text_eq, to_lowercase,
};

verus! {

/// Which actions the words of a request path ask for.
pub struct ActionWords {
    pub subscribe: bool,
    pub unsubscribe: bool,
    pub filter: bool,
    pub unfilter: bool,
}

/// The actions that the `/`-separated segments of `path` name.
pub open spec fn action_words_of(path: Seq<char>) -> ActionWords {
    let segments = split_on(path, '/');
    ActionWords {
        subscribe: segments.contains("subscribe"@),
        unsubscribe: segments.contains("unsubscribe"@),
        filter: segments.contains("filter"@),
        unfilter: segments.contains("unfilter"@),
    }
}

fn segments_contain(segments: &Vec<String>, word: &str) -> (b: bool)
    ensures
        b == segments.deep_view().contains(word@),
{
    let b = list_contains(segments, word);
    proof {
        let d = segments.deep_view();
        if b {
            let j = choose|j: int| 0 <= j < segments.len() && (#[trigger] segments@[j])@ == word@;
            assert(d[j] == word@);
        } else {
            assert forall|j: int| 0 <= j < d.len() implies d[j] != word@ by {
                assert(d[j] == segments@[j]@);
            }
        }
    }
    b
}

/// The actions that the request path asks for.
pub fn action_words(path: &str) -> (w: ActionWords)
    ensures
        w == action_words_of(path@),
{
    let segments = split_chars(path, '/');
    ActionWords {
        subscribe: segments_contain(&segments, "subscribe"),
        unsubscribe: segments_contain(&segments, "unsubscribe"),
        filter: segments_contain(&segments, "filter"),
        unfilter: segments_contain(&segments, "unfilter"),
    }
}

/// The random subreddits cannot be subscribed to or filtered.
pub open spec fn random_sub_error_of(sub: Seq<char>, words: ActionWords) -> Option<Seq<char>> {
    if sub == "random"@ || sub == "randnsfw"@ {
        if words.filter || words.unfilter {
            Some("Can't filter random subreddit!"@)
        } else {
            Some("Can't subscribe to random subreddit!"@)
        }
    } else {
        None
    }
}

/// The error for an action on a random subreddit, if `sub` is one.
pub fn random_sub_error(sub: &str, words: &ActionWords) -> (r: Option<&'static str>)
    ensures
        crate::listing::opt_str(r) == random_sub_error_of(sub@, *words),
{
    if text_eq(sub, "random") || text_eq(sub, "randnsfw") {
        if words.filter || words.unfilter {
            Some("Can't filter random subreddit!")
        } else {
            Some("Can't subscribe to random subreddit!")
        }
    } else {
        None
    }
}

/// The nonempty ones of `pieces`, in order.
pub open spec fn nonempty_pieces(pieces: Seq<Seq<char>>) -> Seq<Seq<char>>
    decreases pieces.len(),
{
    if pieces.len() == 0 {
        Seq::empty()
    } else if pieces.last().len() > 0 {
        nonempty_pieces(pieces.drop_last()).push(pieces.last())
    } else {
        nonempty_pieces(pieces.drop_last())
    }
}

/// The subreddits that a `+`-joined name stands for, empty names left out.
pub fn subscription_parts(sub: &str) -> (parts: Vec<String>)
    ensures
        parts.deep_view() == nonempty_pieces(split_on(sub@, '+')),
{
    let pieces = split_chars(sub, '+');
    let ghost all = pieces.deep_view();
    let mut parts: Vec<String> = Vec::new();
    let mut i: usize = 0;
    assert(all.take(0) =~= Seq::<Seq<char>>::empty());
    while i < pieces.len()
        invariant
            all == pieces.deep_view(),
            i <= pieces.len(),
            parts.deep_view() == nonempty_pieces(all.take(i as int)),
        decreases pieces.len() - i,
    {
        assert(all.take(i + 1).drop_last() =~= all.take(i as int));
        assert(all.take(i + 1).last() == pieces@[i as int]@);
        if !pieces[i].as_str().is_empty() {
            let ghost before = parts.deep_view();
            parts.push(pieces[i].clone());
            assert(parts.deep_view() =~= before.push(pieces@[i as int]@));
        }
        i += 1;
    }
    assert(all.take(i as int) =~= all);
    parts
}

/// The first of `names` at or after `i` whose lower-case form is `key`.
pub open spec fn first_lower_match(names: Seq<Seq<char>>, key: Seq<char>, i: int) -> Option<
    Seq<char>,
>
    decreases names.len() - i,
{
    if i < 0 || i >= names.len() {
        None
    } else if lowercase(names[i]) == key {
        Some(names[i])
    } else {
        first_lower_match(names, key, i + 1)
    }
}

/// The display name of a part that needs no lookup: a user profile keeps
/// its name; a subreddit seen among `names` (ignoring case) takes the
/// first such spelling.
pub open spec fn known_display_name_of(part: Seq<char>, names: Seq<Seq<char>>) -> Option<Seq<char>> {
    if starts_with(part, "u_"@) {
        Some(part)
    } else {
        first_lower_match(names, lowercase(part), 0)
    }
}

/// The display name of `part` when it is known without asking Reddit;
/// `names` are the display names of the subreddit's posts.
pub fn known_display_name(part: &str, names: &Vec<String>) -> (r: Option<String>)
    ensures
        crate::listing::opt_string(r) == known_display_name_of(part@, names.deep_view()),
{
    if starts_with_exec(part, "u_") {
        return Some(part.to_owned());
    }
    let key = to_lowercase(part);
    let ghost d = names.deep_view();
    let mut i: usize = 0;
    while i < names.len()
        invariant
            d == names.deep_view(),
            i <= names.len(),
            key@ == lowercase(part@),
            !starts_with(part@, "u_"@),
            first_lower_match(d, key@, 0) == first_lower_match(d, key@, i as int),
        decreases names.len() - i,
    {
        let l = to_lowercase(names[i].as_str());
        assert(d[i as int] == names@[i as int]@);
        if text_eq(l.as_str(), key.as_str()) {
            assert(first_lower_match(d, key@, i as int) == Some(d[i as int]));
            return Some(names[i].clone());
        }
        i += 1;
    }
    None
}

/// The display name of `part`, as Reddit gave it, or `part` itself.
pub fn fetched_display_name(fetched: Option<&str>, part: &str) -> (r: String)
    ensures
        r@ == match fetched {
            Some(f) => f@,
            None => part@,
        },
{
    match fetched {
        Some(f) => f.to_owned(),
        None => part.to_owned(),
    }
}

/// `list` without the names equal to `key` in lower case.
pub open spec fn without_lower(list: Seq<Seq<char>>, key: Seq<char>) -> Seq<Seq<char>>
    decreases list.len(),
{
    if list.len() == 0 {
        Seq::empty()
    } else if lowercase(list.last()) != key {
        without_lower(list.drop_last(), key).push(list.last())
    } else {
        without_lower(list.drop_last(), key)
    }
}

proof fn lemma_without_lower(list: Seq<Seq<char>>, key: Seq<char>)
    ensures
        forall|k: int|
            0 <= k < without_lower(list, key).len() ==> lowercase(
                #[trigger] without_lower(list, key)[k],
            ) != key,
    decreases list.len(),
{
    if list.len() > 0 {
        lemma_without_lower(list.drop_last(), key);
        let prev = without_lower(list.drop_last(), key);
        if lowercase(list.last()) != key {
            assert forall|k: int| 0 <= k < prev.len() + 1 implies lowercase(
                #[trigger] prev.push(list.last())[k],
            ) != key by {
                if k < prev.len() {
                    assert(prev.push(list.last())[k] == prev[k]);
                }
            }
        }
    }
}

/// `list` without the names that equal `name` ignoring case.
pub fn remove_ignoring_case(list: &Vec<String>, name: &str) -> (r: Vec<String>)
    ensures
        r.deep_view() == without_lower(list.deep_view(), lowercase(name@)),
{
    let key = to_lowercase(name);
    let ghost d = list.deep_view();
    let mut r: Vec<String> = Vec::new();
    let mut i: usize = 0;
    assert(d.take(0) =~= Seq::<Seq<char>>::empty());
    while i < list.len()
        invariant
            d == list.deep_view(),
            i <= list.len(),
            key@ == lowercase(name@),
            r.deep_view() == without_lower(d.take(i as int), key@),
        decreases list.len() - i,
    {
        assert(d.take(i + 1).drop_last() =~= d.take(i as int));
        assert(d.take(i + 1).last() == list@[i as int]@);
        let l = to_lowercase(list[i].as_str());
        if !text_eq(l.as_str(), key.as_str()) {
            let ghost before = r.deep_view();
            r.push(list[i].clone());
            assert(r.deep_view() =~= before.push(list@[i as int]@));
        }
        i += 1;
    }
    assert(d.take(i as int) =~= d);
    r
}

/// `new` is `old` stably sorted by the lower-case form of each name, with
/// `order` saying where each name came from.
pub open spec fn lower_sorted_as(old: Seq<Seq<char>>, new: Seq<Seq<char>>, order: Seq<usize>) -> bool {
    &&& is_permutation(order, old.len())
    &&& new.len() == old.len()
    &&& forall|k: int| 0 <= k < new.len() ==> #[trigger] new[k] == old[order[k] as int]
    &&& forall|a: int, b: int|
        0 <= a < b < order.len() ==> {
            &&& lex_le(lowercase(old[order[a] as int]), lowercase(old[order[b] as int]))
            &&& lex_le(lowercase(old[order[b] as int]), lowercase(old[order[a] as int]))
                ==> order[a] < order[b]
        }
}

/// `new` is `old` sorted by the lower-case form of each name, names with
/// the same lower-case form keeping their order (as `sort_by_key` does).
pub open spec fn sorted_by_lowercase(old: Seq<Seq<char>>, new: Seq<Seq<char>>) -> bool {
    exists|order: Seq<usize>| lower_sorted_as(old, new, order)
}

/// Sorts `list` by the lower-case form of each name, stably.
pub fn sort_by_lowercase(list: &Vec<String>) -> (r: Vec<String>)
    ensures
        sorted_by_lowercase(list.deep_view(), r.deep_view()),
{
    let ghost d = list.deep_view();
    let mut keys: Vec<TextKey> = Vec::new();
    let mut i: usize = 0;
    while i < list.len()
        invariant
            d == list.deep_view(),
            i <= list.len(),
            keys@.len() == i,
            forall|k: int| 0 <= k < i ==> (#[trigger] keys@[k]).chars@ == lowercase(d[k]),
        decreases list.len() - i,
    {
        let l = to_lowercase(list[i].as_str());
        assert(d[i as int] == list@[i as int]@);
        keys.push(TextKey { chars: chars_of(l.as_str()) });
        i += 1;
    }
    let order = stable_order(&keys);
    let mut r: Vec<String> = Vec::new();
    let mut k: usize = 0;
    while k < order.len()
        invariant
            d == list.deep_view(),
            is_permutation(order@, keys@.len()),
            keys@.len() == list.len(),
            k <= order.len(),
            r.deep_view().len() == k,
            forall|j: int| 0 <= j < k ==> #[trigger] r.deep_view()[j] == d[order@[j] as int],
        decreases order.len() - k,
    {
        let ghost before = r.deep_view();
        r.push(list[order[k]].clone());
        assert(r.deep_view() =~= before.push(d[order@[k as int] as int]));
        k += 1;
    }
    proof {
        assert forall|a: int, b: int| 0 <= a < b < order@.len() implies {
            &&& lex_le(lowercase(d[order@[a] as int]), lowercase(d[order@[b] as int]))
            &&& lex_le(lowercase(d[order@[b] as int]), lowercase(d[order@[a] as int])) ==> order@[a]
                < order@[b]
        } by {
            assert(keys@[order@[a] as int].le_key(keys@[order@[b] as int]));
        }
        assert(lower_sorted_as(d, r.deep_view(), order@));
    }
    r
}

/// The subscription and filter lists after acting on the subreddit `name`:
/// subscribing (when not subscribed) adds it to the subscriptions, drops
/// it from the filters and sorts both; unsubscribing drops it; filtering
/// (when not filtered) adds it to the filters, drops it from the
/// subscriptions and sorts both; unfiltering drops it from the filters.
/// Names are dropped ignoring case.
pub open spec fn action_applied(
    words: ActionWords,
    subs: Seq<Seq<char>>,
    filters: Seq<Seq<char>>,
    name: Seq<char>,
    new_subs: Seq<Seq<char>>,
    new_filters: Seq<Seq<char>>,
) -> bool {
    let key = lowercase(name);
    if words.subscribe && !subs.contains(name) {
        &&& sorted_by_lowercase(subs.push(name), new_subs)
        &&& sorted_by_lowercase(without_lower(filters, key), new_filters)
    } else if words.unsubscribe {
        &&& new_subs == without_lower(subs, key)
        &&& new_filters == filters
    } else if words.filter && !filters.contains(name) {
        &&& sorted_by_lowercase(filters.push(name), new_filters)
        &&& sorted_by_lowercase(without_lower(subs, key), new_subs)
    } else if words.unfilter {
        &&& new_subs == subs
        &&& new_filters == without_lower(filters, key)
    } else {
        &&& new_subs == subs
        &&& new_filters == filters
    }
}

proof fn lemma_sorted_keeps(old: Seq<Seq<char>>, new: Seq<Seq<char>>, i: int)
    requires
        sorted_by_lowercase(old, new),
        0 <= i < old.len(),
    ensures
        new.contains(old[i]),
{
    let order = choose|order: Seq<usize>| lower_sorted_as(old, new, order);
    // the permutation hits every index
    let n = old.len();
    let f = |k: int| order[k] as int;
    assert(exists|k: int| 0 <= k < n && order[k] == i) by {
        let dom = vstd::set_lib::set_int_range(0, n as int);
        vstd::set_lib::lemma_int_range(0, n as int);
        let img = dom.map(f);
        assert(vstd::relations::injective_on(f, dom)) by {
            assert forall|a: int, b: int| dom.contains(a) && dom.contains(b) && f(a) == f(b) implies a
                == b by {
                if a < b {
                    assert(order[a] != order[b]);
                } else if b < a {
                    assert(order[b] != order[a]);
                }
            }
        }
        vstd::set_lib::lemma_map_size(dom, img, f);
        assert(img.subset_of(dom)) by {
            assert forall|x: int| img.contains(x) implies dom.contains(x) by {
                let k = choose|k: int| dom.contains(k) && f(k) == x;
                assert(order[k] < n);
            }
        }
        vstd::set_lib::lemma_subset_equality(img, dom);
        assert(dom.contains(i));
        assert(img.contains(i));
        let k = choose|k: int| dom.contains(k) && f(k) == i;
        assert(0 <= k < n && order[k] == i);
    }
    let k = choose|k: int| 0 <= k < n && order[k] == i;
    assert(new[k] == old[i]);
}

proof fn lemma_sorted_from(old: Seq<Seq<char>>, new: Seq<Seq<char>>, k: int)
    requires
        sorted_by_lowercase(old, new),
        0 <= k < new.len(),
    ensures
        old.contains(new[k]),
{
    let order = choose|order: Seq<usize>| lower_sorted_as(old, new, order);
    assert(old[order[k] as int] == new[k]);
}

proof fn lemma_without_lower_from(list: Seq<Seq<char>>, key: Seq<char>, k: int)
    requires
        0 <= k < without_lower(list, key).len(),
    ensures
        list.contains(without_lower(list, key)[k]),
    decreases list.len(),
{
    let prev = without_lower(list.drop_last(), key);
    if lowercase(list.last()) != key && k == prev.len() {
        assert(list[list.len() - 1] == list.last());
    } else {
        if lowercase(list.last()) != key {
            assert(prev.push(list.last())[k] == prev[k]);
        }
        lemma_without_lower_from(list.drop_last(), key, k);
        let j = choose|j: int| 0 <= j < list.drop_last().len() && list.drop_last()[j] == prev[k];
        assert(list[j] == prev[k]);
    }
}

proof fn lemma_without_lower_keeps(list: Seq<Seq<char>>, key: Seq<char>, i: int)
    requires
        0 <= i < list.len(),
        lowercase(list[i]) != key,
    ensures
        without_lower(list, key).contains(list[i]),
    decreases list.len(),
{
    let prev = without_lower(list.drop_last(), key);
    if i == list.len() - 1 {
        assert(without_lower(list, key) == prev.push(list.last()));
        assert(prev.push(list.last())[prev.len() as int] == list[i]);
    } else {
        lemma_without_lower_keeps(list.drop_last(), key, i);
        assert(list.drop_last()[i] == list[i]);
        let j = choose|j: int| 0 <= j < prev.len() && prev[j] == list[i];
        if lowercase(list.last()) != key {
            assert(prev.push(list.last())[j] == list[i]);
        }
    }
}

proof fn lemma_sorted_members(old: Seq<Seq<char>>, new: Seq<Seq<char>>)
    requires
        sorted_by_lowercase(old, new),
    ensures
        forall|i: int| 0 <= i < old.len() ==> new.contains(#[trigger] old[i]),
        forall|k: int| 0 <= k < new.len() ==> old.contains(#[trigger] new[k]),
        forall|a: int, b: int|
            0 <= a < b < new.len() ==> lex_le(lowercase(#[trigger] new[a]), lowercase(#[trigger] new[b])),
{
    assert forall|i: int| 0 <= i < old.len() implies new.contains(#[trigger] old[i]) by {
        lemma_sorted_keeps(old, new, i);
    }
    assert forall|k: int| 0 <= k < new.len() implies old.contains(#[trigger] new[k]) by {
        lemma_sorted_from(old, new, k);
    }
    let order = choose|order: Seq<usize>| lower_sorted_as(old, new, order);
    assert forall|a: int, b: int| 0 <= a < b < new.len() implies lex_le(
        lowercase(#[trigger] new[a]),
        lowercase(#[trigger] new[b]),
    ) by {
        assert(new[a] == old[order[a] as int]);
        assert(new[b] == old[order[b] as int]);
    }
}

proof fn lemma_without_lower_members(list: Seq<Seq<char>>, key: Seq<char>)
    ensures
        forall|i: int|
            0 <= i < list.len() && lowercase(#[trigger] list[i]) != key ==> without_lower(
                list,
                key,
            ).contains(list[i]),
        forall|k: int|
            0 <= k < without_lower(list, key).len() ==> list.contains(
                #[trigger] without_lower(list, key)[k],
            ) && lowercase(without_lower(list, key)[k]) != key,
{
    lemma_without_lower(list, key);
    assert forall|i: int| 0 <= i < list.len() && lowercase(#[trigger] list[i]) != key implies without_lower(
        list,
        key,
    ).contains(list[i]) by {
        lemma_without_lower_keeps(list, key, i);
    }
    assert forall|k: int| 0 <= k < without_lower(list, key).len() implies list.contains(
        #[trigger] without_lower(list, key)[k],
    ) && lowercase(without_lower(list, key)[k]) != key by {
        lemma_without_lower_from(list, key, k);
    }
}

/// Law: subscribing to a subreddit not yet subscribed keeps every earlier
/// subscription, adds the subreddit and nothing else, in order of lower
/// case; the filters lose exactly the names equal to the subreddit ignoring
/// case, and stay in order of lower case.
pub proof fn lemma_subscribe_effects(
    words: ActionWords,
    subs: Seq<Seq<char>>,
    filters: Seq<Seq<char>>,
    name: Seq<char>,
    new_subs: Seq<Seq<char>>,
    new_filters: Seq<Seq<char>>,
)
    requires
        action_applied(words, subs, filters, name, new_subs, new_filters),
        words.subscribe,
        !subs.contains(name),
    ensures
        new_subs.contains(name),
        forall|i: int| 0 <= i < subs.len() ==> new_subs.contains(#[trigger] subs[i]),
        forall|k: int| 0 <= k < new_subs.len() ==> subs.contains(#[trigger] new_subs[k]) || new_subs[k] == name,
        forall|a: int, b: int|
            0 <= a < b < new_subs.len() ==> lex_le(lowercase(#[trigger] new_subs[a]), lowercase(#[trigger] new_subs[b])),
        forall|i: int|
            0 <= i < filters.len() && lowercase(#[trigger] filters[i]) != lowercase(name)
                ==> new_filters.contains(filters[i]),
        forall|k: int|
            0 <= k < new_filters.len() ==> filters.contains(#[trigger] new_filters[k]) && lowercase(
                new_filters[k],
            ) != lowercase(name),
        forall|a: int, b: int|
            0 <= a < b < new_filters.len() ==> lex_le(
                lowercase(#[trigger] new_filters[a]),
                lowercase(#[trigger] new_filters[b]),
            ),
{
    let key = lowercase(name);
    let pushed = subs.push(name);
    lemma_sorted_members(pushed, new_subs);
    assert(pushed[subs.len() as int] == name);
    assert forall|i: int| 0 <= i < subs.len() implies new_subs.contains(#[trigger] subs[i]) by {
        assert(pushed[i] == subs[i]);
    }
    assert forall|k: int| 0 <= k < new_subs.len() implies subs.contains(#[trigger] new_subs[k]) || new_subs[k]
        == name by {
        assert(pushed.contains(new_subs[k]));
        let j = choose|j: int| 0 <= j < pushed.len() && pushed[j] == new_subs[k];
        if j < subs.len() {
            assert(subs[j] == new_subs[k]);
        }
    }
    let kept = without_lower(filters, key);
    lemma_without_lower_members(filters, key);
    lemma_sorted_members(kept, new_filters);
    assert forall|i: int| 0 <= i < filters.len() && lowercase(#[trigger] filters[i]) != key implies new_filters.contains(
        filters[i],
    ) by {
        let j = choose|j: int| 0 <= j < kept.len() && kept[j] == filters[i];
        assert(new_filters.contains(kept[j]));
    }
    assert forall|k: int| 0 <= k < new_filters.len() implies filters.contains(#[trigger] new_filters[k])
        && lowercase(new_filters[k]) != key by {
        let j = choose|j: int| 0 <= j < kept.len() && kept[j] == new_filters[k];
        assert(filters.contains(kept[j]) && lowercase(kept[j]) != key);
    }
}

/// Law: filtering a subreddit not yet filtered keeps every earlier filter,
/// adds the subreddit and nothing else, in order of lower case; the
/// subscriptions lose exactly the names equal to the subreddit ignoring
/// case, every other subscription staying, in order of lower case.
pub proof fn lemma_filter_effects(
    words: ActionWords,
    subs: Seq<Seq<char>>,
    filters: Seq<Seq<char>>,
    name: Seq<char>,
    new_subs: Seq<Seq<char>>,
    new_filters: Seq<Seq<char>>,
)
    requires
        action_applied(words, subs, filters, name, new_subs, new_filters),
        words.filter,
        !words.unsubscribe,
        !(words.subscribe && !subs.contains(name)),
        !filters.contains(name),
    ensures
        new_filters.contains(name),
        forall|i: int| 0 <= i < filters.len() ==> new_filters.contains(#[trigger] filters[i]),
        forall|k: int|
            0 <= k < new_filters.len() ==> filters.contains(#[trigger] new_filters[k]) || new_filters[k] == name,
        forall|a: int, b: int|
            0 <= a < b < new_filters.len() ==> lex_le(
                lowercase(#[trigger] new_filters[a]),
                lowercase(#[trigger] new_filters[b]),
            ),
        forall|i: int|
            0 <= i < subs.len() && lowercase(#[trigger] subs[i]) != lowercase(name) ==> new_subs.contains(subs[i]),
        forall|k: int|
            0 <= k < new_subs.len() ==> subs.contains(#[trigger] new_subs[k]) && lowercase(new_subs[k]) != lowercase(name),
        forall|a: int, b: int|
            0 <= a < b < new_subs.len() ==> lex_le(lowercase(#[trigger] new_subs[a]), lowercase(#[trigger] new_subs[b])),
{
    let key = lowercase(name);
    let pushed = filters.push(name);
    lemma_sorted_members(pushed, new_filters);
    assert(pushed[filters.len() as int] == name);
    assert forall|i: int| 0 <= i < filters.len() implies new_filters.contains(#[trigger] filters[i]) by {
        assert(pushed[i] == filters[i]);
    }
    assert forall|k: int| 0 <= k < new_filters.len() implies filters.contains(#[trigger] new_filters[k])
        || new_filters[k] == name by {
        assert(pushed.contains(new_filters[k]));
        let j = choose|j: int| 0 <= j < pushed.len() && pushed[j] == new_filters[k];
        if j < filters.len() {
            assert(filters[j] == new_filters[k]);
        }
    }
    let kept = without_lower(subs, key);
    lemma_without_lower_members(subs, key);
    lemma_sorted_members(kept, new_subs);
    assert forall|i: int| 0 <= i < subs.len() && lowercase(#[trigger] subs[i]) != key implies new_subs.contains(
        subs[i],
    ) by {
        let j = choose|j: int| 0 <= j < kept.len() && kept[j] == subs[i];
        assert(new_subs.contains(kept[j]));
    }
    assert forall|k: int| 0 <= k < new_subs.len() implies subs.contains(#[trigger] new_subs[k]) && lowercase(
        new_subs[k],
    ) != key by {
        let j = choose|j: int| 0 <= j < kept.len() && kept[j] == new_subs[k];
        assert(subs.contains(kept[j]) && lowercase(kept[j]) != key);
    }
}

/// Law: unsubscribing drops exactly the subscriptions equal to the
/// subreddit ignoring case, keeping every other one, and leaves the filters
/// alone; unfiltering does the same to the filters and leaves the
/// subscriptions alone.
pub proof fn lemma_drop_effects(
    words: ActionWords,
    subs: Seq<Seq<char>>,
    filters: Seq<Seq<char>>,
    name: Seq<char>,
    new_subs: Seq<Seq<char>>,
    new_filters: Seq<Seq<char>>,
)
    requires
        action_applied(words, subs, filters, name, new_subs, new_filters),
        !(words.subscribe && !subs.contains(name)),
        words.unsubscribe || (words.unfilter && !(words.filter && !filters.contains(name))),
    ensures
        words.unsubscribe ==> {
            &&& new_filters == filters
            &&& forall|i: int|
                0 <= i < subs.len() && lowercase(#[trigger] subs[i]) != lowercase(name)
                    ==> new_subs.contains(subs[i])
            &&& forall|k: int|
                0 <= k < new_subs.len() ==> subs.contains(#[trigger] new_subs[k]) && lowercase(new_subs[k])
                    != lowercase(name)
        },
        !words.unsubscribe ==> {
            &&& new_subs == subs
            &&& forall|i: int|
                0 <= i < filters.len() && lowercase(#[trigger] filters[i]) != lowercase(name)
                    ==> new_filters.contains(filters[i])
            &&& forall|k: int|
                0 <= k < new_filters.len() ==> filters.contains(#[trigger] new_filters[k]) && lowercase(
                    new_filters[k],
                ) != lowercase(name)
        },
{
    lemma_without_lower_members(subs, lowercase(name));
    lemma_without_lower_members(filters, lowercase(name));
}

/// Law: unsubscribing from a subreddit just subscribed to undoes the
/// subscription. The subscriptions that remain are subscriptions from
/// before, none of them the subreddit in any case, and every earlier
/// subscription that is not that subreddit remains; the filters stay as
/// subscribing left them.
pub proof fn lemma_unsubscribe_undoes_subscribe(
    subs: Seq<Seq<char>>,
    filters: Seq<Seq<char>>,
    name: Seq<char>,
    mid_subs: Seq<Seq<char>>,
    mid_filters: Seq<Seq<char>>,
    end_subs: Seq<Seq<char>>,
    end_filters: Seq<Seq<char>>,
)
    requires
        action_applied(
            ActionWords { subscribe: true, unsubscribe: false, filter: false, unfilter: false },
            subs,
            filters,
            name,
            mid_subs,
            mid_filters,
        ),
        action_applied(
            ActionWords { subscribe: false, unsubscribe: true, filter: false, unfilter: false },
            mid_subs,
            mid_filters,
            name,
            end_subs,
            end_filters,
        ),
    ensures
        forall|k: int|
            0 <= k < end_subs.len() ==> subs.contains(#[trigger] end_subs[k]) && lowercase(end_subs[k])
                != lowercase(name),
        forall|i: int|
            0 <= i < subs.len() && lowercase(#[trigger] subs[i]) != lowercase(name)
                ==> end_subs.contains(subs[i]),
        end_filters == mid_filters,
{
    let key = lowercase(name);
    lemma_without_lower(mid_subs, key);
    assert forall|k: int| 0 <= k < end_subs.len() implies subs.contains(#[trigger] end_subs[k])
        && lowercase(end_subs[k]) != key by {
        assert(lowercase(end_subs[k]) != key);
        lemma_without_lower_from(mid_subs, key, k);
        let j = choose|j: int| 0 <= j < mid_subs.len() && mid_subs[j] == end_subs[k];
        if !subs.contains(name) {
            lemma_sorted_from(subs.push(name), mid_subs, j);
            let m = choose|m: int| 0 <= m < subs.push(name).len() && subs.push(name)[m] == mid_subs[j];
            if m == subs.len() {
                assert(lowercase(end_subs[k]) == key);
            } else {
                assert(subs[m] == end_subs[k]);
            }
        } else {
            assert(mid_subs == subs);
        }
    }
    assert forall|i: int| 0 <= i < subs.len() && lowercase(#[trigger] subs[i]) != key implies end_subs.contains(
        subs[i],
    ) by {
        let j: int = if !subs.contains(name) {
            assert(subs.push(name)[i] == subs[i]);
            lemma_sorted_keeps(subs.push(name), mid_subs, i);
            choose|j: int| 0 <= j < mid_subs.len() && mid_subs[j] == subs[i]
        } else {
            i
        };
        lemma_without_lower_keeps(mid_subs, key, j);
    }
}

/// Law: unfiltering a subreddit just filtered undoes the filter. The
/// filters that remain are filters from before, none of them the subreddit
/// in any case, and every earlier filter that is not that subreddit
/// remains; the subscriptions stay as filtering left them.
pub proof fn lemma_unfilter_undoes_filter(
    subs: Seq<Seq<char>>,
    filters: Seq<Seq<char>>,
    name: Seq<char>,
    mid_subs: Seq<Seq<char>>,
    mid_filters: Seq<Seq<char>>,
    end_subs: Seq<Seq<char>>,
    end_filters: Seq<Seq<char>>,
)
    requires
        action_applied(
            ActionWords { subscribe: false, unsubscribe: false, filter: true, unfilter: false },
            subs,
            filters,
            name,
            mid_subs,
            mid_filters,
        ),
        action_applied(
            ActionWords { subscribe: false, unsubscribe: false, filter: false, unfilter: true },
            mid_subs,
            mid_filters,
            name,
            end_subs,
            end_filters,
        ),
    ensures
        forall|k: int|
            0 <= k < end_filters.len() ==> filters.contains(#[trigger] end_filters[k]) && lowercase(
                end_filters[k],
            ) != lowercase(name),
        forall|i: int|
            0 <= i < filters.len() && lowercase(#[trigger] filters[i]) != lowercase(name)
                ==> end_filters.contains(filters[i]),
        end_subs == mid_subs,
{
    let key = lowercase(name);
    lemma_without_lower(mid_filters, key);
    assert forall|k: int| 0 <= k < end_filters.len() implies filters.contains(
        #[trigger] end_filters[k],
    ) && lowercase(end_filters[k]) != key by {
        assert(lowercase(end_filters[k]) != key);
        lemma_without_lower_from(mid_filters, key, k);
        let j = choose|j: int| 0 <= j < mid_filters.len() && mid_filters[j] == end_filters[k];
        if !filters.contains(name) {
            lemma_sorted_from(filters.push(name), mid_filters, j);
            let m = choose|m: int|
                0 <= m < filters.push(name).len() && filters.push(name)[m] == mid_filters[j];
            if m == filters.len() {
                assert(lowercase(end_filters[k]) == key);
            } else {
                assert(filters[m] == end_filters[k]);
            }
        } else {
            assert(mid_filters == filters);
        }
    }
    assert forall|i: int| 0 <= i < filters.len() && lowercase(#[trigger] filters[i]) != key implies end_filters.contains(
        filters[i],
    ) by {
        let j: int = if !filters.contains(name) {
            assert(filters.push(name)[i] == filters[i]);
            lemma_sorted_keeps(filters.push(name), mid_filters, i);
            choose|j: int| 0 <= j < mid_filters.len() && mid_filters[j] == filters[i]
        } else {
            i
        };
        lemma_without_lower_keeps(mid_filters, key, j);
    }
}

/// Acts on the subreddit `name` as the request path asks, updating the
/// subscription list `subs` and the filter list `filters`.
pub fn apply_action(words: &ActionWords, subs: &mut Vec<String>, filters: &mut Vec<String>, name: &str)
    ensures
        action_applied(
            *words,
            old(subs).deep_view(),
            old(filters).deep_view(),
            name@,
            final(subs).deep_view(),
            final(filters).deep_view(),
        ),
        words.subscribe && !old(subs).deep_view().contains(name@) ==> final(subs).deep_view().contains(name@),
        words.filter && !words.unsubscribe && !(words.subscribe && !old(subs).deep_view().contains(name@))
            && !old(filters).deep_view().contains(name@) ==> final(filters).deep_view().contains(name@),
        words.subscribe && !old(subs).deep_view().contains(name@) ==> forall|k: int|
            0 <= k < final(filters).deep_view().len() ==> lowercase(
                #[trigger] final(filters).deep_view()[k],
            ) != lowercase(name@),
        !(words.subscribe && !old(subs).deep_view().contains(name@)) && words.unsubscribe
            ==> forall|k: int|
            0 <= k < final(subs).deep_view().len() ==> lowercase(#[trigger] final(subs).deep_view()[k])
                != lowercase(name@),
{
    let ghost key = lowercase(name@);
    let in_subs = list_contains(subs, name);
    let in_filters = list_contains(filters, name);
    proof {
        let d = old(subs).deep_view();
        if in_subs {
            let j = choose|j: int| 0 <= j < old(subs).len() && (#[trigger] old(subs)@[j])@ == name@;
            assert(d[j] == name@);
        } else {
            assert forall|j: int| 0 <= j < d.len() implies d[j] != name@ by {
                assert(d[j] == old(subs)@[j]@);
            }
        }
        let f = old(filters).deep_view();
        if in_filters {
            let j = choose|j: int| 0 <= j < old(filters).len() && (#[trigger] old(filters)@[j])@
                == name@;
            assert(f[j] == name@);
        } else {
            assert forall|j: int| 0 <= j < f.len() implies f[j] != name@ by {
                assert(f[j] == old(filters)@[j]@);
            }
        }
    }
    if words.subscribe && !in_subs {
        let ghost before = subs.deep_view();
        subs.push(name.to_owned());
        assert(subs.deep_view() =~= before.push(name@));
        let kept = remove_ignoring_case(filters, name);
        let sorted_subs = sort_by_lowercase(subs);
        let sorted_filters = sort_by_lowercase(&kept);
        proof {
            lemma_sorted_keeps(before.push(name@), sorted_subs.deep_view(), before.len() as int);
            lemma_without_lower(old(filters).deep_view(), key);
            let kd = kept.deep_view();
            let nf = sorted_filters.deep_view();
            let order = choose|order: Seq<usize>| lower_sorted_as(kd, nf, order);
            assert forall|k: int| 0 <= k < nf.len() implies lowercase(#[trigger] nf[k]) != key by {
                assert(nf[k] == kd[order[k] as int]);
            }
        }
        *subs = sorted_subs;
        *filters = sorted_filters;
    } else if words.unsubscribe {
        let kept = remove_ignoring_case(subs, name);
        proof {
            lemma_without_lower(old(subs).deep_view(), key);
        }
        *subs = kept;
    } else if words.filter && !in_filters {
        let ghost before = filters.deep_view();
        filters.push(name.to_owned());
        assert(filters.deep_view() =~= before.push(name@));
        let kept = remove_ignoring_case(subs, name);
        let sorted_filters = sort_by_lowercase(filters);
        let sorted_subs = sort_by_lowercase(&kept);
        proof {
            lemma_sorted_keeps(before.push(name@), sorted_filters.deep_view(), before.len() as int);
        }
        *subs = sorted_subs;
        *filters = sorted_filters;
    } else if words.unfilter {
        let kept = remove_ignoring_case(filters, name);
        *filters = kept;
    }
}


/// A change to one cookie of the response.
pub enum CookieUpdate {
    /// Set the cookie `.0`.
    Insert(SetCookie),
    /// Remove the cookie `.0`.
    Remove(String),
}

/// The view of an update: whether it sets, the cookie's name, the value.
pub open spec fn update_view(u: CookieUpdate) -> (bool, Seq<char>, Seq<char>) {
    match u {
        CookieUpdate::Insert(c) => (true, c.name@, c.value@),
        CookieUpdate::Remove(n) => (false, n@, Seq::empty()),
    }
}

/// The views of a list of updates.
pub open spec fn updates_view(ops: Seq<CookieUpdate>) -> Seq<(bool, Seq<char>, Seq<char>)> {
    ops.map_values(|u: CookieUpdate| update_view(u))
}

/// Weeks that a subscription or filter cookie lives.
pub const LIST_COOKIE_WEEKS: u32 = 52;

/// A cookie that an update sets is a site-wide, HTTP-only cookie living
/// `LIST_COOKIE_WEEKS` weeks.
pub open spec fn list_cookie_attributes(u: CookieUpdate) -> bool {
    match u {
        CookieUpdate::Insert(c) => set_cookie_view(c) == site_cookie_of(
            c.name@,
            c.value@,
            CookieLifetime::Weeks(LIST_COOKIE_WEEKS),
        ),
        CookieUpdate::Remove(_) => true,
    }
}

/// The cookie `prefix` followed by the number `n`.
pub open spec fn numbered_name(prefix: Seq<char>, n: nat) -> Seq<char> {
    prefix + decimal(n)
}

/// The name of the cookie that holds chunk `i`: the first is `prefix`, the
/// others are numbered from 1.
pub open spec fn chunk_cookie_name(prefix: Seq<char>, i: nat) -> Seq<char> {
    if i == 0 {
        prefix
    } else {
        numbered_name(prefix, i)
    }
}

/// The updates that store `list` under the cookie name `prefix`: an empty
/// list removes the `prefix` cookie, a nonempty one sets a cookie for each
/// chunk of `join_until_size_limit`; then every numbered cookie that the
/// request holds, from the first unused number on and as long as the
/// numbers run, is removed. `end` is the first number that the request
/// does not hold.
pub open spec fn cookie_updates_as(
    prefix: Seq<char>,
    list: Seq<Seq<char>>,
    present: Seq<Seq<char>>,
    ops: Seq<(bool, Seq<char>, Seq<char>)>,
    end: nat,
) -> bool {
    let chunks = size_limited_chunks(list);
    let sets = if list.len() == 0 {
        seq![(false, prefix, Seq::<char>::empty())]
    } else {
        Seq::new(chunks.len(), |i: int| (true, chunk_cookie_name(prefix, i as nat), chunks[i]))
    };
    let start: nat = if list.len() == 0 {
        1
    } else {
        chunks.len()
    };
    &&& start <= end
    &&& ops == sets + Seq::new(
        (end - start) as nat,
        |k: int| (false, numbered_name(prefix, (start + k) as nat), Seq::<char>::empty()),
    )
    &&& forall|k: nat| start <= k < end ==> present.contains(#[trigger] numbered_name(prefix, k))
    &&& !present.contains(numbered_name(prefix, end))
}

/// Numbered cookie names that the request holds, counted from `lo` up to
/// `hi`, are no more than the names it holds.
proof fn lemma_numbered_names_bound(prefix: Seq<char>, present: Seq<Seq<char>>, lo: nat, hi: nat)
    requires
        lo <= hi,
        forall|k: nat| lo <= k < hi ==> present.contains(#[trigger] numbered_name(prefix, k)),
    ensures
        hi - lo <= present.len(),
{
    let dom = vstd::set_lib::set_int_range(lo as int, hi as int);
    vstd::set_lib::lemma_int_range(lo as int, hi as int);
    let f = |k: int| numbered_name(prefix, k as nat);
    let img = dom.map(f);
    assert(vstd::relations::injective_on(f, dom)) by {
        assert forall|a: int, b: int| dom.contains(a) && dom.contains(b) && f(a) == f(b) implies a
            == b by {
            let da = decimal(a as nat);
            let db = decimal(b as nat);
            assert((prefix + da).subrange(prefix.len() as int, (prefix + da).len() as int) =~= da);
            assert((prefix + db).subrange(prefix.len() as int, (prefix + db).len() as int) =~= db);
            crate::text::lemma_decimal_injective(a as nat, b as nat);
        }
    }
    vstd::set_lib::lemma_map_size(dom, img, f);
    let ps = present.to_set();
    assert(img.subset_of(ps)) by {
        assert forall|x: Seq<char>| img.contains(x) implies ps.contains(x) by {
            let k = choose|k: int| dom.contains(k) && f(k) == x;
            assert(present.contains(numbered_name(prefix, k as nat)));
        }
    }
    present.lemma_cardinality_of_set();
    vstd::seq_lib::seq_to_set_is_finite(present);
    vstd::set_lib::lemma_len_subset(img, ps);
}

fn numbered_cookie(prefix: &str, n: u128) -> (r: String)
    ensures
        r@ == numbered_name(prefix@, n as nat),
{
    let mut r = prefix.to_owned();
    push_decimal(&mut r, n);
    r
}

/// The cookie changes that store `list` (the subscriptions or the filters)
/// under the cookie name `prefix`, given the names of the cookies that the
/// request holds.
pub fn cookie_updates(prefix: &str, list: &Vec<String>, present: &Vec<String>) -> (ops: Vec<
    CookieUpdate,
>)
    ensures
        exists|end: nat|
            #[trigger] cookie_updates_as(
                prefix@,
                list.deep_view(),
                present.deep_view(),
                updates_view(ops@),
                end,
            ),
        forall|k: int| 0 <= k < ops.len() ==> list_cookie_attributes(#[trigger] ops@[k]),
{
    let ghost pd = present.deep_view();
    let ghost chunks_v = size_limited_chunks(list.deep_view());
    let mut ops: Vec<CookieUpdate> = Vec::new();
    let start: u128;
    if list.len() == 0 {
        ops.push(CookieUpdate::Remove(prefix.to_owned()));
        assert(updates_view(ops@) =~= seq![(false, prefix@, Seq::<char>::empty())]);
        start = 1;
    } else {
        let chunks = join_until_size_limit(list.as_slice());
        let mut i: usize = 0;
        while i < chunks.len()
            invariant
                chunks.deep_view() == chunks_v,
                i <= chunks.len(),
                forall|k: int| 0 <= k < ops.len() ==> list_cookie_attributes(#[trigger] ops@[k]),
                updates_view(ops@) =~= Seq::new(
                    i as nat,
                    |j: int| (true, chunk_cookie_name(prefix@, j as nat), chunks_v[j]),
                ),
            decreases chunks.len() - i,
        {
            let name = if i == 0 {
                prefix.to_owned()
            } else {
                numbered_cookie(prefix, i as u128)
            };
            assert(chunks.deep_view()[i as int] == chunks@[i as int]@);
            let ghost before = ops@;
            let cookie = site_cookie(name, chunks[i].clone(), CookieLifetime::Weeks(LIST_COOKIE_WEEKS));
            ops.push(CookieUpdate::Insert(cookie));
            assert(updates_view(ops@) =~= updates_view(before).push(
                (true, chunk_cookie_name(prefix@, i as nat), chunks_v[i as int]),
            ));
            i += 1;
        }
        start = chunks.len() as u128;
        assert(chunks_v.len() == chunks.len());
    }
    let ghost sets = updates_view(ops@);
    assert(sets =~= if list.deep_view().len() == 0 {
        seq![(false, prefix@, Seq::<char>::empty())]
    } else {
        Seq::new(
            chunks_v.len(),
            |i: int| (true, chunk_cookie_name(prefix@, i as nat), chunks_v[i]),
        )
    });
    assert(start == if list.deep_view().len() == 0 { 1 } else { chunks_v.len() });
    let mut n: u128 = start;
    loop
        invariant
            pd == present.deep_view(),
            start <= n,
            n - start <= pd.len(),
            start <= usize::MAX,
            forall|k: int| 0 <= k < ops.len() ==> list_cookie_attributes(#[trigger] ops@[k]),
            forall|k: nat| start <= k < n ==> pd.contains(#[trigger] numbered_name(prefix@, k)),
            updates_view(ops@) =~= sets + Seq::new(
                (n - start) as nat,
                |k: int| (false, numbered_name(prefix@, (start + k) as nat), Seq::<char>::empty()),
            ),
        ensures
            !pd.contains(numbered_name(prefix@, n as nat)),
        decreases pd.len() - (n - start),
    {
        let name = numbered_cookie(prefix, n);
        let held = list_contains(present, name.as_str());
        proof {
            if held {
                let j = choose|j: int| 0 <= j < present.len() && (#[trigger] present@[j])@ == name@;
                assert(pd[j] == name@);
            } else {
                assert forall|j: int| 0 <= j < pd.len() implies pd[j] != name@ by {
                    assert(pd[j] == present@[j]@);
                }
            }
        }
        if !held {
            break;
        }
        proof {
            lemma_numbered_names_bound(prefix@, pd, start as nat, (n + 1) as nat);
        }
        let ghost before = ops@;
        ops.push(CookieUpdate::Remove(name));
        assert(updates_view(ops@) =~= updates_view(before).push(
            (false, numbered_name(prefix@, n as nat), Seq::<char>::empty()),
        ));
        n += 1;
    }
    proof {
        assert(cookie_updates_as(
            prefix@,
            list.deep_view(),
            pd,
            updates_view(ops@),
            n as nat,
        ));
    }
    ops
}

} // verus!

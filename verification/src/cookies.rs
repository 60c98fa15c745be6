//! Cookies to set, and splitting a list of names over several cookies.
use vstd::prelude::*;
use crate::text::{
    byte_len, byte_len_saturating, lemma_byte_len_char, lemma_byte_len_concat,
    lemma_byte_len_nonempty, push_char,
};

verus! {

/// How long a cookie lives: until the browser session ends, or for a
/// number of weeks from when it is set.
#[derive(PartialEq, Eq, Structural, Clone, Copy, Debug)]
pub enum CookieLifetime {
    Session,
    Weeks(u32),
}

/// A cookie to set on the response, with its attributes.
pub struct SetCookie {
    pub name: String,
    pub value: String,
    pub path: String,
    pub http_only: bool,
    pub lifetime: CookieLifetime,
}

/// The view of a cookie: name, value, path, whether it is HTTP-only, and
/// its lifetime.
pub open spec fn set_cookie_view(c: SetCookie) -> (Seq<char>, Seq<char>, Seq<char>, bool, CookieLifetime) {
    (c.name@, c.value@, c.path@, c.http_only, c.lifetime)
}

/// A cookie for the whole site (path `/`), hidden from scripts, with the
/// given name, value and lifetime.
pub open spec fn site_cookie_of(name: Seq<char>, value: Seq<char>, lifetime: CookieLifetime) -> (
    Seq<char>,
    Seq<char>,
    Seq<char>,
    bool,
    CookieLifetime,
) {
    (name, value, "/"@, true, lifetime)
}

/// Makes a site-wide, HTTP-only cookie.
pub fn site_cookie(name: String, value: String, lifetime: CookieLifetime) -> (c: SetCookie)
    ensures
        set_cookie_view(c) == site_cookie_of(name@, value@, lifetime),
{
    SetCookie { name, value, path: "/".to_owned(), http_only: true, lifetime }
}

/// Byte budget of one cookie value; the rest of the 4096-byte cookie cap is
/// left for the cookie's name and options.
pub const COOKIE_BUDGET: usize = 4000;

/// Progress of the chunking: the chunks already closed, the chunk being
/// filled, and the running weight that decides when a chunk is closed.
pub struct ChunkState {
    pub closed: Seq<Seq<char>>,
    pub open: Seq<char>,
    pub weight: int,
}

/// One step of the chunking. Before `item` is added, the open chunk is
/// closed (with a trailing `+`, so that the next cookie continues the list)
/// when the running weight plus the item's byte size exceeds the budget.
/// The item is then appended to the open chunk, after a `+` separator if
/// the chunk already holds something, and the weight becomes the open
/// chunk's byte size plus the item's byte size.
pub open spec fn chunk_step(st: ChunkState, item: Seq<char>) -> ChunkState {
    let size = byte_len(item);
    let flush = st.weight + size > COOKIE_BUDGET;
    let closed = if flush { st.closed.push(st.open.push('+')) } else { st.closed };
    let open = if flush { Seq::<char>::empty() } else { st.open };
    let open = if open.len() > 0 { open.push('+') + item } else { item };
    ChunkState { closed, open, weight: (byte_len(open) + size) as int }
}

/// The chunking state after all of `items` have been added.
pub open spec fn chunk_fold(items: Seq<Seq<char>>) -> ChunkState
    decreases items.len(),
{
    if items.len() == 0 {
        ChunkState { closed: Seq::empty(), open: Seq::empty(), weight: 0 }
    } else {
        chunk_step(chunk_fold(items.drop_last()), items.last())
    }
}

/// The cookie values for `items`: every closed chunk, then the open one.
pub open spec fn size_limited_chunks(items: Seq<Seq<char>>) -> Seq<Seq<char>> {
    let st = chunk_fold(items);
    st.closed.push(st.open)
}

/// `items` joined with `+` separators.
pub open spec fn plus_joined(items: Seq<Seq<char>>) -> Seq<char>
    decreases items.len(),
{
    if items.len() == 0 {
        Seq::empty()
    } else if items.len() == 1 {
        items[0]
    } else {
        plus_joined(items.drop_last()).push('+') + items.last()
    }
}

/// Splits `vec` into `+`-separated lists for cookie values of about 4000
/// bytes each; every list but the last ends with `+`.
pub fn join_until_size_limit(vec: &[String]) -> (res: Vec<String>)
    ensures
        res.deep_view() == size_limited_chunks(vec.deep_view()),
{
    let ghost items = vec.deep_view();
    let mut result: Vec<String> = Vec::new();
    let mut list = String::new();
    let mut current_size: usize = 0;
    let mut i: usize = 0;
    assert(items.take(0) =~= Seq::<Seq<char>>::empty());
    while i < vec.len()
        invariant
            items == vec.deep_view(),
            i <= vec.len(),
            ({
                let st = chunk_fold(items.take(i as int));
                &&& result.deep_view() == st.closed
                &&& list@ == st.open
                &&& current_size as int == if st.weight > usize::MAX { usize::MAX as int } else { st.weight }
            }),
        decreases vec.len() - i,
    {
        let ghost st = chunk_fold(items.take(i as int));
        assert(items.take(i + 1).drop_last() =~= items.take(i as int));
        assert(items.take(i + 1).last() == vec[i as int]@);
        let item = &vec[i];
        let item_size = byte_len_saturating(item.as_str());
        let ghost next = chunk_step(st, vec[i as int]@);
        if current_size.saturating_add(item_size) > COOKIE_BUDGET {
            push_char(&mut list, '+');
            let ghost before = result.deep_view();
            result.push(list);
            assert(result.deep_view() =~= before.push(st.open.push('+')));
            list = String::new();
        }
        assert(result.deep_view() == next.closed);
        if !list.as_str().is_empty() {
            push_char(&mut list, '+');
        }
        list.append(item.as_str());
        assert(list@ =~= next.open);
        let list_size = byte_len_saturating(list.as_str());
        current_size = list_size.saturating_add(item_size);
        i += 1;
        assert(chunk_fold(items.take(i as int)) == next);
    }
    assert(items.take(i as int) =~= items);
    let ghost before = result.deep_view();
    result.push(list);
    assert(result.deep_view() =~= before.push(chunk_fold(items).open));
    result
}


/// A cookie value is within the budget (one byte more for its trailing
/// `+`), or holds a single one of `items`, with or without a trailing `+`.
pub open spec fn chunk_fits(c: Seq<char>, items: Seq<Seq<char>>) -> bool {
    ||| byte_len(c) <= COOKIE_BUDGET + 1
    ||| exists|j: int| 0 <= j < items.len() && (c == items[j] || c == items[j].push('+'))
}

proof fn lemma_fold_rejoin(items: Seq<Seq<char>>)
    requires
        forall|j: int| 0 <= j < items.len() ==> (#[trigger] items[j]).len() > 0,
        items.len() > 0 ==> byte_len(items[0]) <= COOKIE_BUDGET,
    ensures
        chunk_fold(items).closed.flatten() + chunk_fold(items).open == plus_joined(items),
        items.len() > 0 ==> chunk_fold(items).open.len() > 0,
    decreases items.len(),
{
    broadcast use Seq::lemma_flatten_push;

    if items.len() == 0 {
        assert(Seq::<Seq<char>>::empty().flatten() =~= Seq::<char>::empty());
        assert(Seq::<char>::empty() + Seq::<char>::empty() =~= Seq::<char>::empty());
    } else {
        let prefix = items.drop_last();
        assert forall|j: int| 0 <= j < prefix.len() implies (#[trigger] prefix[j]).len() > 0 by {
            assert(prefix[j] == items[j]);
        }
        if prefix.len() > 0 {
            assert(prefix[0] == items[0]);
        }
        lemma_fold_rejoin(prefix);
        let st = chunk_fold(prefix);
        let item = items.last();
        assert(item == items[items.len() - 1]);
        if items.len() == 1 {
            assert(prefix =~= Seq::<Seq<char>>::empty());
            assert(st.closed =~= Seq::<Seq<char>>::empty());
            assert(items[0] == item);
            assert(Seq::<Seq<char>>::empty().flatten() =~= Seq::<char>::empty());
            assert(Seq::<char>::empty() + item =~= item);
        } else {
            let size = byte_len(item);
            if st.weight + size > COOKIE_BUDGET {
                assert(st.closed.push(st.open.push('+')).flatten() =~= st.closed.flatten()
                    + st.open.push('+'));
                assert(st.closed.flatten() + st.open.push('+') + item =~= (st.closed.flatten()
                    + st.open).push('+') + item);
            } else {
                assert(st.closed.flatten() + (st.open.push('+') + item) =~= (st.closed.flatten()
                    + st.open).push('+') + item);
            }
        }
    }
}

/// Law (what a reader of the cookies gets back): when every name is
/// nonempty and the first one fits the budget, concatenating the cookie
/// values in order gives the names joined with `+`.
pub proof fn lemma_chunks_rejoin(items: Seq<Seq<char>>)
    requires
        forall|j: int| 0 <= j < items.len() ==> (#[trigger] items[j]).len() > 0,
        items.len() > 0 ==> byte_len(items[0]) <= COOKIE_BUDGET,
    ensures
        size_limited_chunks(items).flatten() == plus_joined(items),
{
    broadcast use Seq::lemma_flatten_push;

    lemma_fold_rejoin(items);
    let st = chunk_fold(items);
    assert(st.closed.push(st.open).flatten() =~= st.closed.flatten() + st.open);
}

proof fn lemma_fold_fits(items: Seq<Seq<char>>)
    requires
        forall|j: int| 0 <= j < items.len() ==> (#[trigger] items[j]).len() > 0,
    ensures
        forall|k: int|
            0 <= k < chunk_fold(items).closed.len() ==> chunk_fits(
                #[trigger] chunk_fold(items).closed[k],
                items,
            ),
        chunk_fold(items).open.len() == 0 || (byte_len(chunk_fold(items).open) + 1
            <= chunk_fold(items).weight && (byte_len(chunk_fold(items).open) <= COOKIE_BUDGET
            || exists|j: int| 0 <= j < items.len() && chunk_fold(items).open == items[j])),
    decreases items.len(),
{
    if items.len() > 0 {
        let prefix = items.drop_last();
        assert forall|j: int| 0 <= j < prefix.len() implies (#[trigger] prefix[j]).len() > 0 by {
            assert(prefix[j] == items[j]);
        }
        lemma_fold_fits(prefix);
        let st = chunk_fold(prefix);
        let n = items.len() - 1;
        let item = items.last();
        assert(item == items[n]);
        let size = byte_len(item);
        lemma_byte_len_nonempty(item);
        // chunks closed earlier still fit with respect to the longer list
        assert forall|k: int| 0 <= k < st.closed.len() implies chunk_fits(
            #[trigger] st.closed[k],
            items,
        ) by {
            assert(chunk_fits(st.closed[k], prefix));
            if byte_len(st.closed[k]) > COOKIE_BUDGET + 1 {
                let j = choose|j: int|
                    0 <= j < prefix.len() && (st.closed[k] == prefix[j] || st.closed[k]
                        == prefix[j].push('+'));
                assert(prefix[j] == items[j]);
            }
        }
        let flush = st.weight + size > COOKIE_BUDGET;
        if flush {
            let c = st.open.push('+');
            lemma_byte_len_char('+');
            assert(c =~= st.open + seq!['+']);
            lemma_byte_len_concat(st.open, seq!['+']);
            if byte_len(st.open) > COOKIE_BUDGET && st.open.len() > 0 {
                let j = choose|j: int| 0 <= j < prefix.len() && st.open == prefix[j];
                assert(prefix[j] == items[j]);
                assert(chunk_fits(c, items));
            }
            assert(chunk_fits(c, items));
            let closed = st.closed.push(c);
            assert forall|k: int| 0 <= k < closed.len() implies chunk_fits(
                #[trigger] closed[k],
                items,
            ) by {
                if k < st.closed.len() {
                    assert(closed[k] == st.closed[k]);
                }
            }
            assert(Seq::<char>::empty().len() == 0);
        } else {
            if st.open.len() > 0 {
                let o = st.open.push('+') + item;
                assert(o =~= st.open + seq!['+'] + item);
                lemma_byte_len_char('+');
                lemma_byte_len_concat(st.open, seq!['+']);
                lemma_byte_len_concat(st.open + seq!['+'], item);
            }
        }
    }
}

/// Law (the size limit): when every name is nonempty, each cookie value
/// takes at most the budget plus one byte for its trailing `+`, unless it
/// holds a single name that is by itself too long.
pub proof fn lemma_chunks_fit(items: Seq<Seq<char>>)
    requires
        forall|j: int| 0 <= j < items.len() ==> (#[trigger] items[j]).len() > 0,
    ensures
        forall|k: int|
            0 <= k < size_limited_chunks(items).len() ==> chunk_fits(
                #[trigger] size_limited_chunks(items)[k],
                items,
            ),
{
    lemma_fold_fits(items);
    let st = chunk_fold(items);
    let chunks = st.closed.push(st.open);
    assert forall|k: int| 0 <= k < chunks.len() implies chunk_fits(#[trigger] chunks[k], items) by {
        if k < st.closed.len() {
            assert(chunks[k] == st.closed[k]);
        } else {
            assert(chunks[k] == st.open);
            if st.open.len() == 0 {
                assert(st.open =~= Seq::<char>::empty());
                assert(vstd::utf8::encode_utf8(st.open) =~= Seq::<u8>::empty());
            }
        }
    }
}

} // verus!

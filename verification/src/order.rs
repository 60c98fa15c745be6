//! Stable ordering of items by a key, as `slice::sort_by` orders them.
use vstd::prelude::*;

verus! {

/// A key that items are ordered by: `le_key` is a total preorder, and
/// `key_le` computes it.
pub trait SortKey: Sized {
    spec fn le_key(self, other: Self) -> bool;

    proof fn lemma_le_total(a: Self, b: Self)
        ensures
            a.le_key(b) || b.le_key(a),
    ;

    proof fn lemma_le_trans(a: Self, b: Self, c: Self)
        requires
            a.le_key(b),
            b.le_key(c),
        ensures
            a.le_key(c),
    ;

    fn key_le(&self, other: &Self) -> (r: bool)
        ensures
            r == self.le_key(*other),
    ;
}

/// `order` lists each index below `n` exactly once.
pub open spec fn is_permutation(order: Seq<usize>, n: nat) -> bool {
    &&& order.len() == n
    &&& forall|a: int| 0 <= a < order.len() ==> order[a] < n
    &&& forall|a: int, b: int| 0 <= a < b < order.len() ==> order[a] != order[b]
}

/// Along `order`, keys never decrease, and items with equivalent keys keep
/// their original relative order: what a stable sort produces.
pub open spec fn stably_sorted<K: SortKey>(keys: Seq<K>, order: Seq<usize>) -> bool {
    forall|a: int, b: int|
        0 <= a < b < order.len() ==> {
            &&& keys[order[a] as int].le_key(keys[order[b] as int])
            &&& keys[order[b] as int].le_key(keys[order[a] as int]) ==> order[a] < order[b]
        }
}

/// The order in which a stable sort by key puts the items whose keys are
/// `keys`: position `k` of the result holds the original index of the item
/// that ends up `k`-th.
pub fn stable_order<K: SortKey>(keys: &Vec<K>) -> (order: Vec<usize>)
    ensures
        is_permutation(order@, keys@.len()),
        stably_sorted(keys@, order@),
{
    let mut order: Vec<usize> = Vec::new();
    let mut i: usize = 0;
    while i < keys.len()
        invariant
            i <= keys.len(),
            is_permutation(order@, i as nat),
            stably_sorted(keys@, order@),
        decreases keys.len() - i,
    {
        let mut p: usize = order.len();
        while p > 0 && !keys[order[p - 1]].key_le(&keys[i])
            invariant
                i < keys.len(),
                p <= order.len() == i,
                is_permutation(order@, i as nat),
                stably_sorted(keys@, order@),
                forall|b: int|
                    p <= b < order.len() ==> !keys@[order@[b] as int].le_key(keys@[i as int]),
            decreases p,
        {
            p -= 1;
        }
        let ghost old_order = order@;
        proof {
            let ki = keys@[i as int];
            // everything before `p` has a key no greater than item `i`'s
            assert forall|a: int| 0 <= a < p implies keys@[old_order[a] as int].le_key(ki) by {
                if a < p - 1 {
                    K::lemma_le_trans(
                        keys@[old_order[a] as int],
                        keys@[old_order[p - 1] as int],
                        ki,
                    );
                }
            }
            assert forall|b: int| p <= b < old_order.len() implies ki.le_key(
                keys@[old_order[b] as int],
            ) by {
                K::lemma_le_total(ki, keys@[old_order[b] as int]);
            }
        }
        order.insert(p, i);
        proof {
            let ki = keys@[i as int];
            assert(order@ == old_order.insert(p as int, i));
            assert forall|a: int| 0 <= a < order@.len() implies order@[a] < i + 1 by {
                if a < p {
                    assert(order@[a] == old_order[a]);
                } else if a > p {
                    assert(order@[a] == old_order[a - 1]);
                }
            }
            assert forall|a: int, b: int| 0 <= a < b < order@.len() implies order@[a] != order@[b] by {
                if a < p {
                    assert(order@[a] == old_order[a]);
                } else if a > p {
                    assert(order@[a] == old_order[a - 1]);
                }
                if b < p {
                    assert(order@[b] == old_order[b]);
                } else if b > p {
                    assert(order@[b] == old_order[b - 1]);
                }
            }
            assert forall|a: int, b: int| 0 <= a < b < order@.len() implies {
                &&& keys@[order@[a] as int].le_key(keys@[order@[b] as int])
                &&& keys@[order@[b] as int].le_key(keys@[order@[a] as int]) ==> order@[a]
                    < order@[b]
            } by {
                if a < p {
                    assert(order@[a] == old_order[a]);
                } else if a > p {
                    assert(order@[a] == old_order[a - 1]);
                }
                if b < p {
                    assert(order@[b] == old_order[b]);
                } else if b > p {
                    assert(order@[b] == old_order[b - 1]);
                }
            }
        }
        i += 1;
    }
    order
}


/// `a` comes no later than `b` in lexicographic order of code points (the
/// order of `str` and `String`, whose UTF-8 bytes order as code points do).
pub open spec fn lex_le(a: Seq<char>, b: Seq<char>) -> bool
    decreases a.len(),
{
    if a.len() == 0 {
        true
    } else if b.len() == 0 {
        false
    } else if a[0] != b[0] {
        (a[0] as u32) < (b[0] as u32)
    } else {
        lex_le(a.skip(1), b.skip(1))
    }
}

pub proof fn lemma_lex_total(a: Seq<char>, b: Seq<char>)
    ensures
        lex_le(a, b) || lex_le(b, a),
    decreases a.len(),
{
    if a.len() > 0 && b.len() > 0 {
        if a[0] == b[0] {
            lemma_lex_total(a.skip(1), b.skip(1));
        } else {
            vstd::utf8::char_is_scalar(a[0]);
            vstd::utf8::char_is_scalar(b[0]);
            vstd::utf8::char_u32_cast(a[0], a[0] as u32);
            vstd::utf8::char_u32_cast(b[0], b[0] as u32);
        }
    }
}

pub proof fn lemma_lex_trans(a: Seq<char>, b: Seq<char>, c: Seq<char>)
    requires
        lex_le(a, b),
        lex_le(b, c),
    ensures
        lex_le(a, c),
    decreases a.len(),
{
    if a.len() > 0 && b.len() > 0 && c.len() > 0 && a[0] == b[0] && b[0] == c[0] {
        lemma_lex_trans(a.skip(1), b.skip(1), c.skip(1));
    }
}

/// A text key, ordered lexicographically by code point.
pub struct TextKey {
    pub chars: Vec<char>,
}

impl SortKey for TextKey {
    open spec fn le_key(self, other: Self) -> bool {
        lex_le(self.chars@, other.chars@)
    }

    proof fn lemma_le_total(a: Self, b: Self) {
        lemma_lex_total(a.chars@, b.chars@);
    }

    proof fn lemma_le_trans(a: Self, b: Self, c: Self) {
        lemma_lex_trans(a.chars@, b.chars@, c.chars@);
    }

    fn key_le(&self, other: &Self) -> (r: bool) {
        let a = &self.chars;
        let b = &other.chars;
        let mut i: usize = 0;
        assert(a@.skip(0) =~= a@);
        assert(b@.skip(0) =~= b@);
        while i < a.len() && i < b.len() && a[i] == b[i]
            invariant
                i <= a.len(),
                i <= b.len(),
                lex_le(a@, b@) == lex_le(a@.skip(i as int), b@.skip(i as int)),
            decreases a.len() - i,
        {
            assert(a@.skip(i as int).skip(1) =~= a@.skip(i + 1));
            assert(b@.skip(i as int).skip(1) =~= b@.skip(i + 1));
            i += 1;
        }
        if i == a.len() {
            true
        } else if i == b.len() {
            false
        } else {
            (a[i] as u32) < (b[i] as u32)
        }
    }
}

} // verus!

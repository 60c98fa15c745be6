//! Character-sequence helpers shared by the rest of the library.
use vstd::prelude::*;

verus! {

broadcast use vstd::string::group_string_axioms;

/// `p` is a prefix of `s`.
pub open spec fn starts_with(s: Seq<char>, p: Seq<char>) -> bool {
    p.len() <= s.len() && s.subrange(0, p.len() as int) == p
}

/// `p` occurs in `s` starting at index `i`.
pub open spec fn occurs_at(s: Seq<char>, p: Seq<char>, i: int) -> bool {
    0 <= i && i + p.len() <= s.len() && s.subrange(i, i + p.len()) == p
}

/// `p` occurs somewhere in `s`.
pub open spec fn contains(s: Seq<char>, p: Seq<char>) -> bool {
    exists|i: int| occurs_at(s, p, i)
}

/// Trusted: std `String::push` appends one character.
#[verifier::external_body]
pub(crate) fn push_char(s: &mut String, c: char)
    ensures
        final(s)@ == old(s)@.push(c),
{
    s.push(c)
}

/// The characters of `s`, in order.
pub fn chars_of(s: &str) -> (v: Vec<char>)
    ensures
        v@ == s@,
{
    let mut v: Vec<char> = Vec::new();
    for c in it: s.chars()
        invariant
            v@ == it.seq().take(it.index() as int),
    {
        v.push(c);
    }
    v
}


/// `s` with every non-overlapping occurrence of the nonempty pattern `p`,
/// taken from left to right, replaced by `r`.
pub open spec fn replaced(s: Seq<char>, p: Seq<char>, r: Seq<char>) -> Seq<char>
    decreases s.len(),
{
    if s.len() == 0 || p.len() == 0 {
        s
    } else if starts_with(s, p) {
        r + replaced(s.skip(p.len() as int), p, r)
    } else {
        seq![s[0]] + replaced(s.skip(1), p, r)
    }
}

/// Whether `p` occurs in `s` at index `i`.
pub fn occurs_at_exec(s: &Vec<char>, p: &Vec<char>, i: usize) -> (b: bool)
    ensures
        b == occurs_at(s@, p@, i as int),
{
    if i > s.len() || p.len() > s.len() - i {
        return false;
    }
    let mut k: usize = 0;
    while k < p.len()
        invariant
            i + p.len() <= s.len(),
            k <= p.len(),
            forall|j: int| 0 <= j < k ==> s@[i + j] == p@[j],
        decreases p.len() - k,
    {
        if s[i + k] != p[k] {
            assert(s@.subrange(i as int, i + p.len())[k as int] != p@[k as int]);
            return false;
        }
        k += 1;
    }
    assert(s@.subrange(i as int, i + p.len()) =~= p@);
    true
}

/// Whether `p` occurs anywhere in `s`.
pub fn contains_exec(s: &str, p: &str) -> (b: bool)
    ensures
        b == contains(s@, p@),
{
    let sv = chars_of(s);
    let pv = chars_of(p);
    if pv.len() > sv.len() {
        return false;
    }
    let mut i: usize = 0;
    while i <= sv.len() - pv.len()
        invariant
            pv.len() <= sv.len(),
            sv@ == s@,
            pv@ == p@,
            forall|j: int| 0 <= j < i ==> !occurs_at(s@, p@, j),
        decreases sv.len() - pv.len() + 1 - i,
    {
        if occurs_at_exec(&sv, &pv, i) {
            return true;
        }
        if i == sv.len() - pv.len() {
            assert forall|j: int| #![trigger occurs_at(s@, p@, j)] occurs_at(s@, p@, j) implies false by {
                if j > i {
                    assert(j + p@.len() > s@.len());
                }
            }
            return false;
        }
        i += 1;
    }
    false
}

/// Whether `s` begins with `p`.
pub fn starts_with_exec(s: &str, p: &str) -> (b: bool)
    ensures
        b == starts_with(s@, p@),
{
    let sv = chars_of(s);
    let pv = chars_of(p);
    let b = occurs_at_exec(&sv, &pv, 0);
    assert(b == starts_with(s@, p@));
    b
}

/// A fresh string holding `a` followed by `b`.
pub fn concat2(a: &str, b: &str) -> (r: String)
    ensures
        r@ == a@ + b@,
{
    let mut r = a.to_owned();
    r.append(b);
    r
}

/// A fresh string holding `a`, `b` and `c` in order.
pub fn concat3(a: &str, b: &str, c: &str) -> (r: String)
    ensures
        r@ == a@ + b@ + c@,
{
    let mut r = a.to_owned();
    r.append(b);
    r.append(c);
    r
}

proof fn lemma_replaced_step(s: Seq<char>, p: Seq<char>, r: Seq<char>, i: int)
    requires
        0 <= i < s.len(),
        p.len() > 0,
    ensures
        occurs_at(s, p, i) ==> replaced(s.skip(i), p, r) == r + replaced(
            s.skip(i + p.len()),
            p,
            r,
        ),
        !occurs_at(s, p, i) ==> replaced(s.skip(i), p, r) == seq![s[i]] + replaced(
            s.skip(i + 1),
            p,
            r,
        ),
{
    let t = s.skip(i);
    if occurs_at(s, p, i) {
        assert(t.subrange(0, p.len() as int) =~= s.subrange(i, i + p.len()));
        assert(t.skip(p.len() as int) =~= s.skip(i + p.len()));
    } else {
        if starts_with(t, p) {
            assert(t.subrange(0, p.len() as int) =~= s.subrange(i, i + p.len()));
        }
        assert(t.skip(1) =~= s.skip(i + 1));
    }
}

/// `s` with every occurrence of the nonempty pattern `p` replaced by `r`,
/// as `str::replace` does.
pub fn replace_all(s: &str, p: &str, r: &str) -> (out: String)
    requires
        p@.len() > 0,
    ensures
        out@ == replaced(s@, p@, r@),
{
    let sv = chars_of(s);
    let pv = chars_of(p);
    let mut out = String::new();
    let mut i: usize = 0;
    assert(s@.skip(0) =~= s@);
    while i < sv.len()
        invariant
            sv@ == s@,
            pv@ == p@,
            p@.len() > 0,
            i <= sv.len(),
            out@ + replaced(s@.skip(i as int), p@, r@) == replaced(s@, p@, r@),
        decreases sv.len() - i,
    {
        proof {
            lemma_replaced_step(s@, p@, r@, i as int);
        }
        if occurs_at_exec(&sv, &pv, i) {
            let ghost before = out@;
            out.append(r);
            assert(out@ + replaced(s@.skip(i + p@.len()), p@, r@) =~= before + (r@
                + replaced(s@.skip(i + p@.len()), p@, r@)));
            i = i + pv.len();
        } else {
            let ghost before = out@;
            push_char(&mut out, sv[i]);
            assert(out@ + replaced(s@.skip(i + 1), p@, r@) =~= before + (seq![s@[i as int]]
                + replaced(s@.skip(i + 1), p@, r@)));
            i = i + 1;
        }
    }
    assert(s@.skip(i as int) =~= Seq::<char>::empty());
    assert(out@ + Seq::<char>::empty() =~= out@);
    out
}


/// Number of bytes of the UTF-8 encoding of `s`, as `str::len` reports it.
pub open spec fn byte_len(s: Seq<char>) -> nat {
    vstd::utf8::encode_utf8(s).len()
}

/// The UTF-8 encoding of a concatenation is the concatenation of the encodings.
pub proof fn lemma_encode_concat(a: Seq<char>, b: Seq<char>)
    ensures
        vstd::utf8::encode_utf8(a + b) == vstd::utf8::encode_utf8(a) + vstd::utf8::encode_utf8(b),
    decreases a.len(),
{
    if a.len() == 0 {
        assert(a + b =~= b);
        assert(vstd::utf8::encode_utf8(a) =~= Seq::<u8>::empty());
        assert(Seq::<u8>::empty() + vstd::utf8::encode_utf8(b) =~= vstd::utf8::encode_utf8(b));
    } else {
        assert((a + b).drop_first() =~= a.drop_first() + b);
        assert((a + b)[0] == a[0]);
        lemma_encode_concat(a.drop_first(), b);
        let e0 = vstd::utf8::encode_scalar(a[0] as u32);
        assert(vstd::utf8::encode_utf8(a + b) =~= e0 + (vstd::utf8::encode_utf8(a.drop_first())
            + vstd::utf8::encode_utf8(b)));
    }
}

/// Byte length is additive over concatenation.
pub proof fn lemma_byte_len_concat(a: Seq<char>, b: Seq<char>)
    ensures
        byte_len(a + b) == byte_len(a) + byte_len(b),
{
    lemma_encode_concat(a, b);
}

/// A nonempty sequence of characters takes at least one byte, and an ASCII
/// character takes exactly one.
pub proof fn lemma_byte_len_char(c: char)
    ensures
        byte_len(seq![c]) >= 1,
        (c as u32) < 128 ==> byte_len(seq![c]) == 1,
{
    let s = seq![c];
    assert(s.drop_first() =~= Seq::<char>::empty());
    assert(vstd::utf8::encode_utf8(s.drop_first()) =~= Seq::<u8>::empty());
    let e = vstd::utf8::encode_scalar(s[0] as u32);
    assert(vstd::utf8::encode_utf8(s) =~= e + Seq::<u8>::empty());
}

/// A nonempty sequence of characters takes at least one byte.
pub proof fn lemma_byte_len_nonempty(s: Seq<char>)
    requires
        s.len() > 0,
    ensures
        byte_len(s) >= 1,
{
    assert(s =~= seq![s[0]] + s.drop_first());
    lemma_byte_len_concat(seq![s[0]], s.drop_first());
    lemma_byte_len_char(s[0]);
}


/// Number of bytes in the UTF-8 encoding of `c`.
pub fn utf8_width(c: char) -> (w: usize)
    ensures
        w as int == byte_len(seq![c]),
        1 <= w <= 4,
{
    proof {
        vstd::utf8::char_is_scalar(c);
        let s = seq![c];
        assert(s.drop_first() =~= Seq::<char>::empty());
        assert(vstd::utf8::encode_utf8(s.drop_first()) =~= Seq::<u8>::empty());
        let e = vstd::utf8::encode_scalar(s[0] as u32);
        assert(vstd::utf8::encode_utf8(s) =~= e + Seq::<u8>::empty());
    }
    let u = c as u32;
    if u < 0x80 {
        1
    } else if u < 0x800 {
        2
    } else if u < 0x10000 {
        3
    } else {
        4
    }
}

/// The byte length of `s`, or `usize::MAX` if that is larger.
pub fn byte_len_saturating(s: &str) -> (n: usize)
    ensures
        n as int == if byte_len(s@) > usize::MAX { usize::MAX as int } else { byte_len(s@) as int },
{
    let v = chars_of(s);
    let mut n: usize = 0;
    let mut i: usize = 0;
    assert(v@.take(0) =~= Seq::<char>::empty());
    assert(vstd::utf8::encode_utf8(Seq::<char>::empty()) =~= Seq::<u8>::empty());
    while i < v.len()
        invariant
            i <= v.len(),
            n as int == if byte_len(v@.take(i as int)) > usize::MAX { usize::MAX as int } else {
                byte_len(v@.take(i as int)) as int
            },
        decreases v.len() - i,
    {
        let w = utf8_width(v[i]);
        proof {
            assert(v@.take(i + 1) =~= v@.take(i as int) + seq![v@[i as int]]);
            lemma_byte_len_concat(v@.take(i as int), seq![v@[i as int]]);
        }
        n = n.saturating_add(w);
        i += 1;
    }
    assert(v@.take(i as int) =~= s@);
    n
}


/// Whether `a` and `b` hold the same characters.
pub fn text_eq(a: &str, b: &str) -> (r: bool)
    ensures
        r == (a@ == b@),
{
    let av = chars_of(a);
    let bv = chars_of(b);
    if av.len() != bv.len() {
        return false;
    }
    let r = occurs_at_exec(&av, &bv, 0);
    proof {
        if r {
            assert(a@ =~= a@.subrange(0, b@.len() as int));
        } else {
            assert(a@ == b@ ==> a@.subrange(0, b@.len() as int) =~= b@);
        }
    }
    r
}

/// `c` with ASCII upper-case letters mapped to lower case, as
/// `char::to_ascii_lowercase` does.
pub open spec fn ascii_lower_char(c: char) -> char {
    if 'A' <= c && c <= 'Z' {
        ((c as u32) + 32) as char
    } else {
        c
    }
}

/// `s` with ASCII upper-case letters mapped to lower case, as
/// `str::to_ascii_lowercase` does.
pub open spec fn ascii_lowercase(s: Seq<char>) -> Seq<char> {
    s.map_values(|c: char| ascii_lower_char(c))
}

/// ASCII lower-casing of `s`.
pub fn to_ascii_lowercase(s: &str) -> (r: String)
    ensures
        r@ == ascii_lowercase(s@),
{
    let v = chars_of(s);
    let mut r = String::new();
    let mut i: usize = 0;
    while i < v.len()
        invariant
            v@ == s@,
            i <= v.len(),
            r@ == ascii_lowercase(s@.take(i as int)),
        decreases v.len() - i,
    {
        let c = v[i];
        let l = if 'A' <= c && c <= 'Z' {
            let u = ((c as u32) + 32) as u8;
            u as char
        } else {
            c
        };
        push_char(&mut r, l);
        assert(ascii_lowercase(s@.take(i + 1)) =~= ascii_lowercase(s@.take(i as int)).push(
            ascii_lower_char(s@[i as int]),
        ));
        i += 1;
    }
    assert(s@.take(i as int) =~= s@);
    r
}

/// Decimal digits of `n`, without leading zeros.
pub open spec fn decimal(n: nat) -> Seq<char>
    decreases n,
{
    if n < 10 {
        seq![digit_char(n)]
    } else {
        decimal(n / 10).push(digit_char(n % 10))
    }
}

/// The character of the decimal digit `d`.
pub open spec fn digit_char(d: nat) -> char {
    if d == 0 { '0' }
    else if d == 1 { '1' }
    else if d == 2 { '2' }
    else if d == 3 { '3' }
    else if d == 4 { '4' }
    else if d == 5 { '5' }
    else if d == 6 { '6' }
    else if d == 7 { '7' }
    else if d == 8 { '8' }
    else { '9' }
}

fn digit_exec(d: u128) -> (c: char)
    requires
        d < 10,
    ensures
        c == digit_char(d as nat),
{
    if d == 0 { '0' }
    else if d == 1 { '1' }
    else if d == 2 { '2' }
    else if d == 3 { '3' }
    else if d == 4 { '4' }
    else if d == 5 { '5' }
    else if d == 6 { '6' }
    else if d == 7 { '7' }
    else if d == 8 { '8' }
    else { '9' }
}

/// Appends the decimal digits of `n` to `s`.
pub fn push_decimal(s: &mut String, n: u128)
    ensures
        final(s)@ == old(s)@ + decimal(n as nat),
    decreases n,
{
    if n < 10 {
        push_char(s, digit_exec(n));
        assert(old(s)@.push(digit_char(n as nat)) =~= old(s)@ + decimal(n as nat));
    } else {
        push_decimal(s, n / 10);
        push_char(s, digit_exec(n % 10));
        assert(old(s)@ + decimal((n / 10) as nat) + seq![digit_char((n % 10) as nat)] =~= old(s)@
            + decimal(n as nat));
    }
}


/// A fresh string holding `v[from..to]`.
pub fn string_of_range(v: &Vec<char>, from: usize, to: usize) -> (r: String)
    requires
        from <= to <= v.len(),
    ensures
        r@ == v@.subrange(from as int, to as int),
{
    let mut r = String::new();
    let mut i = from;
    while i < to
        invariant
            from <= i <= to <= v.len(),
            r@ == v@.subrange(from as int, i as int),
        decreases to - i,
    {
        push_char(&mut r, v[i]);
        assert(v@.subrange(from as int, i + 1) =~= v@.subrange(from as int, i as int).push(
            v@[i as int],
        ));
        i += 1;
    }
    r
}


/// The pieces of `s` between the occurrences of `c`, as `str::split(c)`
/// gives them (always at least one piece, possibly empty ones).
pub open spec fn split_on(s: Seq<char>, c: char) -> Seq<Seq<char>>
    decreases s.len(),
{
    if !s.contains(c) {
        seq![s]
    } else {
        let k = choose_first(s, c);
        if 0 <= k < s.len() {
            seq![s.take(k)] + split_on(s.skip(k + 1), c)
        } else {
            seq![s]
        }
    }
}

/// Index of the first `c` in `s`, or `s.len()` when there is none.
pub open spec fn choose_first(s: Seq<char>, c: char) -> int
    decreases s.len(),
{
    if s.len() == 0 {
        0
    } else if s[0] == c {
        0
    } else {
        1 + choose_first(s.skip(1), c)
    }
}

proof fn lemma_choose_first(s: Seq<char>, c: char)
    ensures
        0 <= choose_first(s, c) <= s.len(),
        forall|j: int| 0 <= j < choose_first(s, c) ==> s[j] != c,
        choose_first(s, c) < s.len() ==> s[choose_first(s, c)] == c,
        choose_first(s, c) == s.len() ==> !s.contains(c),
    decreases s.len(),
{
    if s.len() > 0 && s[0] != c {
        lemma_choose_first(s.skip(1), c);
        assert forall|j: int| 0 <= j < choose_first(s, c) implies s[j] != c by {
            if j > 0 {
                assert(s[j] == s.skip(1)[j - 1]);
            }
        }
        if choose_first(s, c) == s.len() {
            assert forall|j: int| 0 <= j < s.len() implies s[j] != c by {
                if j > 0 {
                    assert(s[j] == s.skip(1)[j - 1]);
                }
            }
        }
    }
}

/// Splits `s` at every `c`.
pub fn split_chars(s: &str, c: char) -> (pieces: Vec<String>)
    ensures
        pieces.deep_view() == split_on(s@, c),
{
    let v = chars_of(s);
    let mut pieces: Vec<String> = Vec::new();
    let mut start: usize = 0;
    let mut i: usize = 0;
    assert(s@.skip(0) =~= s@);
    while i < v.len()
        invariant
            v@ == s@,
            start <= i <= v.len(),
            forall|j: int| start <= j < i ==> v@[j] != c,
            pieces.deep_view() + split_on(s@.skip(start as int), c) == split_on(s@, c),
        decreases v.len() - i,
    {
        if v[i] == c {
            let ghost rest = s@.skip(start as int);
            proof {
                lemma_choose_first(rest, c);
                assert(rest[i - start] == c);
                assert(rest.contains(c));
                let k = choose_first(rest, c);
                if k < i - start {
                    assert(rest[k] == v@[start + k]);
                }
                assert(k == i - start);
                assert(rest.take(k) =~= s@.subrange(start as int, i as int));
                assert(rest.skip(k + 1) =~= s@.skip(i + 1));
            }
            let piece = string_of_range(&v, start, i);
            let ghost before = pieces.deep_view();
            pieces.push(piece);
            assert(pieces.deep_view() =~= before.push(s@.subrange(start as int, i as int)));
            assert(before.push(s@.subrange(start as int, i as int)) + split_on(s@.skip(i + 1), c)
                =~= before + (seq![s@.subrange(start as int, i as int)] + split_on(
                s@.skip(i + 1),
                c,
            )));
            start = i + 1;
        }
        i += 1;
    }
    let ghost rest = s@.skip(start as int);
    proof {
        assert forall|j: int| 0 <= j < rest.len() implies rest[j] != c by {
            assert(rest[j] == v@[start + j]);
        }
        assert(!rest.contains(c));
        assert(rest =~= s@.subrange(start as int, v.len() as int));
    }
    let piece = string_of_range(&v, start, v.len());
    let ghost before = pieces.deep_view();
    pieces.push(piece);
    assert(pieces.deep_view() =~= before + seq![rest]);
    pieces
}

/// Whether some string of `list` holds the characters of `s`.
pub fn list_contains(list: &Vec<String>, s: &str) -> (r: bool)
    ensures
        r == exists|j: int| 0 <= j < list.len() && (#[trigger] list@[j])@ == s@,
{
    let mut i: usize = 0;
    while i < list.len()
        invariant
            i <= list.len(),
            forall|j: int| 0 <= j < i ==> (#[trigger] list@[j])@ != s@,
        decreases list.len() - i,
    {
        if text_eq(list[i].as_str(), s) {
            return true;
        }
        i += 1;
    }
    false
}


/// What `str::to_lowercase` makes of `s`: each character replaced by its
/// Unicode lower-case mapping.
pub uninterp spec fn lowercase(s: Seq<char>) -> Seq<char>;

/// Trusted: std `str::to_lowercase`. The contract only names its result.
#[verifier::external_body]
pub(crate) fn to_lowercase(s: &str) -> (r: String)
    ensures
        r@ == lowercase(s@),
{
    s.to_lowercase()
}

/// Different numbers have different decimal digits.
pub proof fn lemma_decimal_injective(a: nat, b: nat)
    requires
        decimal(a) == decimal(b),
    ensures
        a == b,
    decreases a + b,
{
    if a < 10 && b < 10 {
        assert(decimal(a) == seq![digit_char(a)]);
        assert(decimal(b) == seq![digit_char(b)]);
        assert(seq![digit_char(a)][0] == digit_char(a));
        assert(seq![digit_char(b)][0] == digit_char(b));
        assert(decimal(a)[0] == decimal(b)[0]);
        lemma_digit_char_injective(a, b);
    } else if a < 10 {
        assert(decimal(b).len() >= 2) by {
            lemma_decimal_len(b);
        }
    } else if b < 10 {
        assert(decimal(a).len() >= 2) by {
            lemma_decimal_len(a);
        }
    } else {
        assert(decimal(a) == decimal(a / 10).push(digit_char(a % 10)));
        assert(decimal(b) == decimal(b / 10).push(digit_char(b % 10)));
        assert(decimal(a).last() == digit_char(a % 10));
        assert(decimal(b).last() == digit_char(b % 10));
        assert(decimal(a).drop_last() =~= decimal(a / 10));
        assert(decimal(b).drop_last() =~= decimal(b / 10));
        lemma_decimal_injective(a / 10, b / 10);
        lemma_digit_char_injective(a % 10, b % 10);
        assert(a == (a / 10) * 10 + a % 10);
        assert(b == (b / 10) * 10 + b % 10);
    }
}

proof fn lemma_digit_char_injective(a: nat, b: nat)
    requires
        a < 10,
        b < 10,
        digit_char(a) == digit_char(b),
    ensures
        a == b,
{
}

proof fn lemma_decimal_len(n: nat)
    ensures
        decimal(n).len() >= 1,
        n >= 10 ==> decimal(n).len() >= 2,
    decreases n,
{
    if n >= 10 {
        lemma_decimal_len(n / 10);
    }
}


/// `q` is an attribute pattern such as `href="/`: it ends with `"/`, and no
/// character before those two is a `/`.
pub open spec fn attribute_pattern(q: Seq<char>) -> bool {
    &&& q.len() >= 2
    &&& q[q.len() - 2] == '"'
    &&& q[q.len() - 1] == '/'
    &&& forall|k: int| 0 <= k < q.len() - 2 ==> q[k] != '/'
}

/// `r` starts with something other than `/`, ends with `/`, and has no `"`
/// followed by `/`.
pub open spec fn slash_safe(r: Seq<char>) -> bool {
    &&& r.len() >= 1
    &&& r[0] != '/'
    &&& r[r.len() - 1] == '/'
    &&& forall|k: int| 0 <= k < r.len() - 1 ==> !(#[trigger] r[k] == '"' && r[k + 1] == '/')
}

proof fn lemma_occurs_chars(x: Seq<char>, q: Seq<char>, i: int)
    requires
        occurs_at(x, q, i),
    ensures
        forall|k: int| 0 <= k < q.len() ==> #[trigger] x[i + k] == q[k],
{
    assert forall|k: int| 0 <= k < q.len() implies #[trigger] x[i + k] == q[k] by {
        assert(x.subrange(i, i + q.len())[k] == x[i + k]);
    }
}

proof fn lemma_replaced_no_attribute_from(
    w: Seq<char>,
    s: Seq<char>,
    p: Seq<char>,
    r: Seq<char>,
    q: Seq<char>,
)
    requires
        p.len() > 0,
        attribute_pattern(q),
        slash_safe(r),
        forall|i: int| 0 <= i < w.len() ==> !occurs_at(w + s, q, i),
        q == p || !contains(s, q),
    ensures
        !contains(w + replaced(s, p, r), q),
    decreases s.len(),
{
    let out = w + replaced(s, p, r);
    if s.len() == 0 {
        if contains(out, q) {
            let i = choose|i: int| occurs_at(out, q, i);
            assert(out =~= w + s);
        }
    } else if starts_with(s, p) {
        let rest = s.skip(p.len() as int);
        let t = replaced(rest, p, r);
        if q != p && contains(rest, q) {
            let j = choose|j: int| occurs_at(rest, q, j);
            assert(s.subrange(j + p.len(), j + p.len() + q.len()) =~= rest.subrange(j, j + q.len()));
            assert(occurs_at(s, q, j + p.len()));
        }
        lemma_replaced_no_attribute_from(Seq::empty(), rest, p, r, q);
        assert(Seq::<char>::empty() + t =~= t);
        assert(out =~= w + r + t);
        if contains(out, q) {
            let i = choose|i: int| occurs_at(out, q, i);
            lemma_occurs_chars(out, q, i);
            let e = i + q.len();
            let a = w.len() as int;
            let b = a + r.len();
            if e <= a {
                assert((w + s).subrange(i, e) =~= out.subrange(i, e));
                assert(occurs_at(w + s, q, i));
            } else if i >= b {
                assert(t.subrange(i - b, e - b) =~= out.subrange(i, e));
                assert(occurs_at(t, q, i - b));
            } else if e <= b {
                assert(out[e - 1] == q[q.len() - 1]);
                assert(out[e - 2] == q[q.len() - 2]);
                if e - 2 >= a {
                    assert(out[e - 2] == r[e - 2 - a]);
                    assert(out[e - 1] == r[e - 1 - a]);
                    assert(r[e - 2 - a] == '"' && r[e - 2 - a + 1] == '/');
                } else {
                    assert(out[a] == r[0]);
                }
            } else {
                let j = b - 1 - i;
                assert(out[i + j] == q[j]);
                assert(out[b - 1] == r[r.len() - 1]);
                if j == q.len() - 2 {
                } else {
                    assert(q[j] != '/');
                }
            }
        }
    } else {
        let rest = s.skip(1);
        let w2 = w.push(s[0]);
        assert(w2 + rest =~= w + s);
        assert forall|i: int| 0 <= i < w2.len() implies !occurs_at(w2 + rest, q, i) by {
            if i == w.len() && occurs_at(w + s, q, i) {
                assert(s.subrange(0, q.len() as int) =~= (w + s).subrange(i, i + q.len()));
                assert(occurs_at(s, q, 0));
                if q == p {
                    assert(starts_with(s, p));
                }
            }
        }
        if q != p && contains(rest, q) {
            let j = choose|j: int| occurs_at(rest, q, j);
            assert(s.subrange(j + 1, j + 1 + q.len()) =~= rest.subrange(j, j + q.len()));
            assert(occurs_at(s, q, j + 1));
        }
        lemma_replaced_no_attribute_from(w2, rest, p, r, q);
        assert(out =~= w2 + replaced(rest, p, r));
    }
}

/// Replacing an attribute pattern `p` by slash-safe text leaves no `p`, and
/// adds no other attribute pattern `q` to text without one.
pub proof fn lemma_replaced_no_attribute(s: Seq<char>, p: Seq<char>, r: Seq<char>, q: Seq<char>)
    requires
        p.len() > 0,
        attribute_pattern(q),
        slash_safe(r),
        q == p || !contains(s, q),
    ensures
        !contains(replaced(s, p, r), q),
{
    lemma_replaced_no_attribute_from(Seq::empty(), s, p, r, q);
    assert(Seq::<char>::empty() + replaced(s, p, r) =~= replaced(s, p, r));
}

/// Replacing a pattern that does not occur changes nothing.
pub proof fn lemma_replaced_absent(s: Seq<char>, p: Seq<char>, r: Seq<char>)
    requires
        p.len() > 0,
        !contains(s, p),
    ensures
        replaced(s, p, r) == s,
    decreases s.len(),
{
    if s.len() > 0 {
        if starts_with(s, p) {
            assert(occurs_at(s, p, 0));
        }
        if contains(s.skip(1), p) {
            let j = choose|j: int| occurs_at(s.skip(1), p, j);
            assert(s.subrange(j + 1, j + 1 + p.len()) =~= s.skip(1).subrange(j, j + p.len()));
            assert(occurs_at(s, p, j + 1));
        }
        lemma_replaced_absent(s.skip(1), p, r);
        assert(seq![s[0]] + s.skip(1) =~= s);
    }
}

/// Replacing a pattern by text without `c` adds no `c` to text without one.
pub proof fn lemma_replaced_keeps_absent(s: Seq<char>, p: Seq<char>, r: Seq<char>, c: char)
    requires
        !s.contains(c),
        !r.contains(c),
    ensures
        !replaced(s, p, r).contains(c),
    decreases s.len(),
{
    if s.len() > 0 && p.len() > 0 {
        if starts_with(s, p) {
            assert(!s.skip(p.len() as int).contains(c)) by {
                if s.skip(p.len() as int).contains(c) {
                    let j = choose|j: int| 0 <= j < s.skip(p.len() as int).len() && s.skip(
                        p.len() as int,
                    )[j] == c;
                    assert(s[j + p.len()] == c);
                }
            }
            lemma_replaced_keeps_absent(s.skip(p.len() as int), p, r, c);
            lemma_concat_absent(r, replaced(s.skip(p.len() as int), p, r), c);
        } else {
            assert(!s.skip(1).contains(c)) by {
                if s.skip(1).contains(c) {
                    let j = choose|j: int| 0 <= j < s.skip(1).len() && s.skip(1)[j] == c;
                    assert(s[j + 1] == c);
                }
            }
            assert(s[0] != c) by {
                if s[0] == c {
                    assert(s.contains(c));
                }
            }
            lemma_replaced_keeps_absent(s.skip(1), p, r, c);
            lemma_concat_absent(seq![s[0]], replaced(s.skip(1), p, r), c);
        }
    }
}

/// Replacing every `c` by text without `c` leaves no `c`.
pub proof fn lemma_replaced_removes(s: Seq<char>, c: char, r: Seq<char>)
    requires
        !r.contains(c),
    ensures
        !replaced(s, seq![c], r).contains(c),
    decreases s.len(),
{
    if s.len() > 0 {
        let p = seq![c];
        if starts_with(s, p) {
            lemma_replaced_removes(s.skip(1), c, r);
            lemma_concat_absent(r, replaced(s.skip(1), p, r), c);
        } else {
            assert(s.subrange(0, 1) =~= seq![s[0]]);
            assert(s[0] != c);
            lemma_replaced_removes(s.skip(1), c, r);
            lemma_concat_absent(seq![s[0]], replaced(s.skip(1), p, r), c);
        }
    }
}

proof fn lemma_concat_absent(a: Seq<char>, b: Seq<char>, c: char)
    requires
        !a.contains(c),
        !b.contains(c),
    ensures
        !(a + b).contains(c),
{
    if (a + b).contains(c) {
        let j = choose|j: int| 0 <= j < (a + b).len() && (a + b)[j] == c;
        if j < a.len() {
            assert(a[j] == c);
        } else {
            assert(b[j - a.len()] == c);
        }
    }
}

/// Lower-casing ASCII twice is lower-casing it once.
pub proof fn lemma_ascii_lowercase_idempotent(s: Seq<char>)
    ensures
        ascii_lowercase(ascii_lowercase(s)) == ascii_lowercase(s),
{
    assert forall|i: int| 0 <= i < s.len() implies #[trigger] ascii_lower_char(ascii_lower_char(s[i]))
        == ascii_lower_char(s[i]) by {
        let c = s[i];
        if 'A' <= c && c <= 'Z' {
            let u = ((c as u32) + 32) as u32;
            vstd::utf8::char_is_scalar(c);
            assert(0x61 <= u <= 0x7a);
            vstd::utf8::char_u32_cast(u as char, u);
            assert(((u as char) as u32) == u) by {
                assert(vstd::utf8::has_width_1_encoding(u));
            }
        }
    }
    assert(ascii_lowercase(ascii_lowercase(s)) =~= ascii_lowercase(s));
}

} // verus!

//! Small text utilities: decimal rendering, truncation by characters and the
//! UTF-8 byte length of a character sequence.
use vstd::prelude::*;
use vstd::string::*;

verus! {

/// The decimal digit character for `d < 10`.
pub open spec fn digit_char(d: nat) -> char {
    if d == 0 { '0' }
    else if d == 1 { '1' }
    else if d == 2 { '2' }
    else if d == 3 { '3' }
    else if d == 4 { '4' }
    else if d == 5 { '5' }
    else if d == 6 { '6' }
    else if d == 7 { '7' }
    else if d == 8 { '8' }
    else { '9' }
}

/// Decimal rendering of a natural number, without leading zeros.
pub open spec fn decimal(n: nat) -> Seq<char>
    decreases n,
{
    if n < 10 {
        seq![digit_char(n)]
    } else {
        decimal(n / 10).push(digit_char(n % 10))
    }
}

fn digit_str(d: u64) -> (r: &'static str)
    requires
        d < 10,
    ensures
        r@ == seq![digit_char(d as nat)],
{
    if d == 0 {
        proof { reveal_strlit("0"); }
        "0"
    } else if d == 1 {
        proof { reveal_strlit("1"); }
        "1"
    } else if d == 2 {
        proof { reveal_strlit("2"); }
        "2"
    } else if d == 3 {
        proof { reveal_strlit("3"); }
        "3"
    } else if d == 4 {
        proof { reveal_strlit("4"); }
        "4"
    } else if d == 5 {
        proof { reveal_strlit("5"); }
        "5"
    } else if d == 6 {
        proof { reveal_strlit("6"); }
        "6"
    } else if d == 7 {
        proof { reveal_strlit("7"); }
        "7"
    } else if d == 8 {
        proof { reveal_strlit("8"); }
        "8"
    } else {
        proof { reveal_strlit("9"); }
        "9"
    }
}

/// Renders `n` in decimal.
pub fn decimal_string(n: u64) -> (s: String)
    ensures
        s@ == decimal(n as nat),
    decreases n,
{
    if n < 10 {
        String::from_str(digit_str(n))
    } else {
        let mut s = decimal_string(n / 10);
        s.append(digit_str(n % 10));
        s
    }
}

/// `a` followed by `b`.
pub fn concat2(a: &str, b: &str) -> (s: String)
    ensures
        s@ == a@ + b@,
{
    let mut s = String::from_str(a);
    s.append(b);
    s
}

/// `a`, `b`, `c` in this order.
pub fn concat3(a: &str, b: &str, c: &str) -> (s: String)
    ensures
        s@ == a@ + b@ + c@,
{
    let mut s = String::from_str(a);
    s.append(b);
    s.append(c);
    s
}

/// Number of bytes that the UTF-8 encoding of `c` takes.
pub open spec fn utf8_len(c: char) -> nat {
    if (c as u32) < 0x80 { 1 }
    else if (c as u32) < 0x800 { 2 }
    else if (c as u32) < 0x10000 { 3 }
    else { 4 }
}

/// Number of bytes that the UTF-8 encoding of `s` takes.
pub open spec fn utf8_bytes(s: Seq<char>) -> nat
    decreases s.len(),
{
    if s.len() == 0 { 0 } else { utf8_bytes(s.drop_last()) + utf8_len(s.last()) }
}

pub fn char_utf8_len(c: char) -> (n: usize)
    ensures
        n == utf8_len(c),
{
    let v = c as u32;
    if v < 0x80 {
        1
    } else if v < 0x800 {
        2
    } else if v < 0x10000 {
        3
    } else {
        4
    }
}

/// Up to the first `max` characters of `s`, with `...` appended when `s` is
/// longer than `max` characters.
pub open spec fn truncated_chars(s: Seq<char>, max: nat) -> Seq<char> {
    if s.len() > max {
        s.subrange(0, max as int) + "..."@
    } else {
        s
    }
}

/// Truncate a string to 80 characters (respecting character boundaries),
/// appending "..." if truncated.
pub fn truncate_for_context(s: &str) -> (r: String)
    ensures
        r@ == truncated_chars(s@, 80),
{
    let n = s.unicode_len();
    if n > 80 {
        let head = s.substring_char(0, 80);
        concat2(head, "...")
    } else {
        String::from_str(s)
    }
}

/// `k` is the number of characters of the shortest prefix of `s` that takes
/// at least `limit` bytes, or the length of `s` when no prefix does.
pub open spec fn is_byte_cut(s: Seq<char>, limit: nat, k: int) -> bool {
    &&& 0 <= k <= s.len()
    &&& (k == s.len() || utf8_bytes(s.take(k)) >= limit)
    &&& (k == 0 || utf8_bytes(s.take(k - 1)) < limit)
}

/// The prefix of `s` that ends at the first character boundary at or past
/// byte `limit` (all of `s` when it is not longer than `limit` bytes).
pub open spec fn byte_prefix(s: Seq<char>, limit: nat) -> Seq<char> {
    s.take(choose|k: int| #[trigger] is_byte_cut(s, limit, k))
}

pub proof fn lemma_utf8_bytes_take_strict(s: Seq<char>, i: int, j: int)
    requires
        0 <= i < j <= s.len(),
    ensures
        utf8_bytes(s.take(i)) < utf8_bytes(s.take(j)),
    decreases j - i,
{
    assert(s.take(j).drop_last() =~= s.take(j - 1));
    if i < j - 1 {
        lemma_utf8_bytes_take_strict(s, i, j - 1);
    }
}

pub proof fn lemma_byte_cut_unique(s: Seq<char>, limit: nat, k1: int, k2: int)
    requires
        is_byte_cut(s, limit, k1),
        is_byte_cut(s, limit, k2),
    ensures
        k1 == k2,
{
    if k1 < k2 {
        if k1 < k2 - 1 {
            lemma_utf8_bytes_take_strict(s, k1, k2 - 1);
        }
    } else if k2 < k1 {
        if k2 < k1 - 1 {
            lemma_utf8_bytes_take_strict(s, k2, k1 - 1);
        }
    }
}

/// The prefix of `s` that ends at the first character boundary at or past
/// byte `limit`.
pub fn byte_bounded_prefix(s: &str, limit: usize) -> (r: &str)
    requires
        limit + 4 <= usize::MAX,
    ensures
        r@ == byte_prefix(s@, limit as nat),
{
    let n = s.unicode_len();
    let mut k: usize = 0;
    let mut bytes: usize = 0;
    while k < n && bytes < limit
        invariant
            n == s@.len(),
            k <= n,
            limit + 4 <= usize::MAX,
            bytes == utf8_bytes(s@.take(k as int)),
            bytes < limit + 4,
            k == 0 || utf8_bytes(s@.take(k - 1)) < limit,
        decreases n - k,
    {
        let c = s.get_char(k);
        assert(s@.take(k + 1).drop_last() =~= s@.take(k as int));
        bytes = bytes + char_utf8_len(c);
        k = k + 1;
    }
    proof {
        assert(is_byte_cut(s@, limit as nat, k as int));
        let c = choose|c: int| #[trigger] is_byte_cut(s@, limit as nat, c);
        lemma_byte_cut_unique(s@, limit as nat, k as int, c);
    }
    s.substring_char(0, k)
}

/// The elements of `items` with `sep` between consecutive ones.
pub open spec fn joined(items: Seq<Seq<char>>, sep: Seq<char>) -> Seq<char>
    decreases items.len(),
{
    if items.len() == 0 {
        Seq::empty()
    } else if items.len() == 1 {
        items[0]
    } else {
        joined(items.drop_last(), sep) + sep + items.last()
    }
}

/// The views of a sequence of strings.
pub open spec fn string_views(v: Seq<String>) -> Seq<Seq<char>> {
    v.map_values(|x: String| x@)
}

/// Joins `items` with `sep`.
pub fn join_strings(items: &Vec<String>, sep: &str) -> (r: String)
    ensures
        r@ == joined(string_views(items@), sep@),
{
    let ghost v = string_views(items@);
    let mut r = String::new();
    let mut i: usize = 0;
    while i < items.len()
        invariant
            i <= items@.len(),
            v == string_views(items@),
            r@ == joined(v.take(i as int), sep@),
        decreases items@.len() - i,
    {
        assert(v.take(i + 1).drop_last() =~= v.take(i as int));
        if i == 0 {
            r.append(items[i].as_str());
            assert(r@ =~= joined(v.take(1), sep@));
        } else {
            r.append(sep);
            r.append(items[i].as_str());
        }
        i = i + 1;
    }
    assert(v.take(i as int) =~= v);
    r
}

/// `s` from position `i` on, with every non-overlapping occurrence of `p`
/// (scanning left to right) replaced by `w`.
pub open spec fn replaced_from(s: Seq<char>, p: Seq<char>, w: Seq<char>, i: int) -> Seq<char>
    decreases s.len() - i,
{
    if i < 0 || i >= s.len() {
        Seq::empty()
    } else if p.len() > 0 && i + p.len() <= s.len() && s.subrange(i, i + p.len()) == p {
        w + replaced_from(s, p, w, i + p.len())
    } else {
        seq![s[i]] + replaced_from(s, p, w, i + 1)
    }
}

/// `s` with every non-overlapping occurrence of `p` replaced by `w`.
pub open spec fn replaced(s: Seq<char>, p: Seq<char>, w: Seq<char>) -> Seq<char> {
    replaced_from(s, p, w, 0)
}

fn matches_at(s: &str, p: &str, i: usize, n: usize, m: usize) -> (b: bool)
    requires
        n == s@.len(),
        m == p@.len(),
        i <= n,
    ensures
        b == (i + m <= n && s@.subrange(i as int, i + m) == p@),
{
    if m > n - i {
        return false;
    }
    let mut t: usize = 0;
    while t < m
        invariant
            n == s@.len(),
            m == p@.len(),
            i + m <= n,
            t <= m,
            forall|q: int| 0 <= q < t ==> s@[i + q] == p@[q],
        decreases m - t,
    {
        if s.get_char(i + t) != p.get_char(t) {
            assert(s@.subrange(i as int, i + m)[t as int] != p@[t as int]);
            return false;
        }
        t = t + 1;
    }
    assert(s@.subrange(i as int, i + m) =~= p@);
    true
}

/// Replaces every non-overlapping occurrence of `p` in `s` by `w`.
pub fn replace_all(s: &str, p: &str, w: &str) -> (r: String)
    requires
        p@.len() > 0,
    ensures
        r@ == replaced(s@, p@, w@),
{
    let n = s.unicode_len();
    let m = p.unicode_len();
    let mut out = String::new();
    let mut last: usize = 0;
    let mut i: usize = 0;
    while i < n
        invariant
            n == s@.len(),
            m == p@.len(),
            m > 0,
            last <= i <= n,
            out@ + s@.subrange(last as int, i as int) + replaced_from(s@, p@, w@, i as int)
                == replaced(s@, p@, w@),
        decreases n - i,
    {
        if matches_at(s, p, i, n, m) {
            let seg = s.substring_char(last, i);
            out.append(seg);
            out.append(w);
            proof {
                assert(replaced_from(s@, p@, w@, i as int) == w@ + replaced_from(s@, p@, w@, i + m));
                assert(s@.subrange((i + m) as int, (i + m) as int) =~= Seq::<char>::empty());
            }
            i = i + m;
            last = i;
        } else {
            proof {
                assert(replaced_from(s@, p@, w@, i as int) == seq![s@[i as int]] + replaced_from(s@, p@, w@, i + 1));
                assert(s@.subrange(last as int, i + 1) =~= s@.subrange(last as int, i as int) + seq![s@[i as int]]);
            }
            i = i + 1;
        }
    }
    let tail = s.substring_char(last, n);
    out.append(tail);
    out
}

} // verus!

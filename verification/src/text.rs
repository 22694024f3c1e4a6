//! Character-sequence utilities: lexicographic order, substring search,
//! whitespace trimming and prefix stripping, each with an exact specification.
use vstd::prelude::*;

verus! {

/// Lexicographic "less or equal" on character sequences; the order used for
/// `created_at` timestamps throughout the archive. Chronological order of
/// records coincides with this order only because the server emits timestamps
/// in one fixed-width format; that assumption is documented, not derived.
pub open spec fn lex_le(a: Seq<char>, b: Seq<char>) -> bool
    decreases a.len(),
{
    if a.len() == 0 {
        true
    } else if b.len() == 0 {
        false
    } else if a[0] != b[0] {
        a[0] < b[0]
    } else {
        lex_le(a.drop_first(), b.drop_first())
    }
}

/// `lex_le` relates every pair of sequences one way or the other.
pub proof fn lemma_lex_le_total(a: Seq<char>, b: Seq<char>)
    ensures
        lex_le(a, b) || lex_le(b, a),
    decreases a.len(),
{
    if a.len() == 0 || b.len() == 0 {
    } else if a[0] != b[0] {
    } else {
        lemma_lex_le_total(a.drop_first(), b.drop_first());
    }
}

/// `lex_le` is transitive.
pub proof fn lemma_lex_le_trans(a: Seq<char>, b: Seq<char>, c: Seq<char>)
    requires
        lex_le(a, b),
        lex_le(b, c),
    ensures
        lex_le(a, c),
    decreases a.len(),
{
    if a.len() == 0 {
    } else if b.len() == 0 {
    } else if c.len() == 0 {
    } else {
        if a[0] == b[0] && b[0] == c[0] {
            lemma_lex_le_trans(a.drop_first(), b.drop_first(), c.drop_first());
        }
    }
}

/// `lex_le` both ways means the sequences are equal.
pub proof fn lemma_lex_le_antisym(a: Seq<char>, b: Seq<char>)
    requires
        lex_le(a, b),
        lex_le(b, a),
    ensures
        a == b,
    decreases a.len(),
{
    if a.len() == 0 {
        assert(b.len() == 0);
        assert(a =~= b);
    } else {
        assert(b.len() > 0);
        assert(a[0] == b[0]);
        lemma_lex_le_antisym(a.drop_first(), b.drop_first());
        assert forall|k: int| 0 <= k < a.len() implies a[k] == b[k] by {
            if k > 0 {
                assert(a[k] == a.drop_first()[k - 1]);
                assert(b[k] == b.drop_first()[k - 1]);
            }
        }
        assert(a =~= b);
    }
}

/// Decides `lex_le` on two string slices.
pub fn lex_le_exec(a: &str, b: &str) -> (r: bool)
    ensures
        r == lex_le(a@, b@),
{
    let alen: usize = a.unicode_len();
    let blen: usize = b.unicode_len();
    let mut i: usize = 0;
    proof {
        assert(a@.skip(0) =~= a@);
        assert(b@.skip(0) =~= b@);
    }
    while i < alen && i < blen
        invariant
            0 <= i <= alen,
            i <= blen,
            alen == a@.len(),
            blen == b@.len(),
            lex_le(a@, b@) == lex_le(a@.skip(i as int), b@.skip(i as int)),
        decreases alen - i,
    {
        let ca = a.get_char(i);
        let cb = b.get_char(i);
        if ca != cb {
            return ca < cb;
        }
        proof {
            assert(a@.skip(i as int).drop_first() =~= a@.skip(i + 1));
            assert(b@.skip(i as int).drop_first() =~= b@.skip(i + 1));
        }
        i = i + 1;
    }
    assert(a@.skip(i as int).len() == 0 || b@.skip(i as int).len() == 0);
    alen <= blen
}

/// The needle occurs somewhere inside the haystack.
pub open spec fn contains_sub(hay: Seq<char>, needle: Seq<char>) -> bool {
    exists|i: int|
        0 <= i && i + needle.len() <= hay.len() && #[trigger] hay.subrange(i, i + needle.len())
            == needle
}

/// Decides `contains_sub` on the slice of `s` between `lo` and `hi`.
pub fn contains_range(s: &str, lo: usize, hi: usize, needle: &str) -> (r: bool)
    requires
        lo <= hi <= s@.len(),
    ensures
        r == contains_sub(s@.subrange(lo as int, hi as int), needle@),
{
    let ghost hay = s@.subrange(lo as int, hi as int);
    let nlen: usize = needle.unicode_len();
    if nlen == 0 {
        proof {
            assert(contains_sub(hay, needle@)) by {
                assert(hay.subrange(0, 0 + needle@.len() as int) =~= needle@);
            }
        }
        return true;
    }
    if nlen > hi - lo {
        assert(!contains_sub(hay, needle@));
        return false;
    }
    let mut i: usize = lo;
    while i <= hi - nlen
        invariant
            lo <= i <= hi - nlen + 1,
            1 <= nlen <= hi - lo,
            lo <= hi <= s@.len(),
            nlen == needle@.len(),
            hay == s@.subrange(lo as int, hi as int),
            forall|k: int|
                0 <= k < i - lo ==> #[trigger] hay.subrange(k, k + nlen as int) != needle@,
        decreases hi - nlen + 1 - i,
    {
        let mut j: usize = 0;
        let mut matched: bool = true;
        while j < nlen && matched
            invariant
                0 <= j <= nlen,
                lo <= i <= hi - nlen,
                hi <= s@.len(),
                nlen == needle@.len(),
                hay == s@.subrange(lo as int, hi as int),
                matched ==> forall|k: int| 0 <= k < j ==> s@[i + k] == needle@[k],
                !matched ==> hay.subrange(i - lo, i - lo + nlen as int) != needle@,
            decreases nlen - j + (if matched { 1int } else { 0int }),
        {
            if s.get_char(i + j) != needle.get_char(j) {
                matched = false;
                proof {
                    assert(hay.subrange(i - lo, i - lo + nlen as int)[j as int] == s@[i + j]);
                    assert(hay.subrange(i - lo, i - lo + nlen as int) != needle@);
                }
            } else {
                j = j + 1;
            }
        }
        if matched {
            proof {
                assert(hay.subrange(i - lo, i - lo + nlen as int) =~= needle@) by {
                    assert(forall|k: int|
                        0 <= k < nlen ==> #[trigger] hay.subrange(i - lo, i - lo + nlen as int)[k]
                            == s@[i + k]);
                }
            }
            return true;
        }
        i = i + 1;
    }
    assert forall|k: int| 0 <= k && k + needle@.len() <= hay.len() implies #[trigger] hay.subrange(
        k,
        k + needle@.len() as int,
    ) != needle@ by {
        assert(k < i - lo);
    }
    false
}

/// Index of the first occurrence of `c` in `s`, or `s.len()` when absent.
pub open spec fn find_char(s: Seq<char>, c: char) -> int
    decreases s.len(),
{
    if s.len() == 0 {
        0
    } else if s[0] == c {
        0
    } else {
        1 + find_char(s.drop_first(), c)
    }
}

/// `find_char` is in range, everything before it differs from `c`, and it
/// points at `c` when `c` occurs at all.
pub proof fn lemma_find_char(s: Seq<char>, c: char)
    ensures
        0 <= find_char(s, c) <= s.len(),
        forall|k: int| 0 <= k < find_char(s, c) ==> s[k] != c,
        find_char(s, c) < s.len() ==> s[find_char(s, c)] == c,
    decreases s.len(),
{
    if s.len() == 0 {
    } else if s[0] == c {
    } else {
        lemma_find_char(s.drop_first(), c);
        assert forall|k: int| 0 <= k < find_char(s, c) implies s[k] != c by {
            if k > 0 {
                assert(s.drop_first()[k - 1] != c);
            }
        }
    }
}

/// Any index with the three properties of `lemma_find_char` is `find_char`.
pub proof fn lemma_find_char_is(s: Seq<char>, c: char, r: int)
    requires
        0 <= r <= s.len(),
        forall|k: int| 0 <= k < r ==> s[k] != c,
        r < s.len() ==> s[r] == c,
    ensures
        find_char(s, c) == r,
    decreases s.len(),
{
    if s.len() == 0 {
    } else if s[0] == c {
    } else {
        lemma_find_char_is(s.drop_first(), c, r - 1);
    }
}

/// Finds the first occurrence of `c` in `s` at or after `from`; returns
/// `s.len()` when there is none.
pub fn find_char_from(s: &str, from: usize, c: char) -> (r: usize)
    requires
        from <= s@.len(),
    ensures
        from <= r <= s@.len(),
        forall|k: int| from <= k < r ==> s@[k] != c,
        r < s@.len() ==> s@[r as int] == c,
{
    let slen: usize = s.unicode_len();
    let mut i: usize = from;
    while i < slen
        invariant
            from <= i <= slen,
            slen == s@.len(),
            forall|k: int| from <= k < i ==> s@[k] != c,
        decreases slen - i,
    {
        if s.get_char(i) == c {
            return i;
        }
        i = i + 1;
    }
    i
}

/// ASCII linear whitespace, the kind that may surround tokens in a header.
pub open spec fn is_ws(c: char) -> bool {
    c == ' ' || c == '\t' || c == '\r' || c == '\n'
}

/// Decides `is_ws`.
pub fn is_ws_exec(c: char) -> (r: bool)
    ensures
        r == is_ws(c),
{
    c == ' ' || c == '\t' || c == '\r' || c == '\n'
}

/// `s` without leading and trailing whitespace.
pub open spec fn trim_spec(s: Seq<char>) -> Seq<char>
    decreases s.len(),
{
    if s.len() == 0 {
        s
    } else if is_ws(s[0]) {
        trim_spec(s.drop_first())
    } else if is_ws(s[s.len() - 1]) {
        trim_spec(s.drop_last())
    } else {
        s
    }
}

/// A subrange with no whitespace outside it and none at its own ends is what
/// `trim_spec` returns.
pub proof fn lemma_trim_is(s: Seq<char>, a: int, b: int)
    requires
        0 <= a <= b <= s.len(),
        forall|k: int| 0 <= k < a ==> is_ws(s[k]),
        forall|k: int| b <= k < s.len() ==> is_ws(s[k]),
        a < b ==> !is_ws(s[a]) && !is_ws(s[b - 1]),
    ensures
        trim_spec(s) == s.subrange(a, b),
    decreases s.len(),
{
    if s.len() == 0 {
        assert(trim_spec(s) =~= s.subrange(a, b));
    } else if is_ws(s[0]) {
        if a > 0 {
            lemma_trim_is(s.drop_first(), a - 1, b - 1);
            assert(s.drop_first().subrange(a - 1, b - 1) =~= s.subrange(a, b));
        } else {
            assert(b == 0);
            lemma_trim_is(s.drop_first(), 0, 0);
            assert(s.drop_first().subrange(0, 0) =~= s.subrange(a, b));
        }
    } else if is_ws(s[s.len() - 1]) {
        if b < s.len() {
            lemma_trim_is(s.drop_last(), a, b);
            assert(s.drop_last().subrange(a, b) =~= s.subrange(a, b));
        } else {
            assert(a < b ==> !is_ws(s[b - 1]));
            assert(a == b);
            lemma_trim_is(s.drop_last(), a, a);
            assert(s.drop_last().subrange(a, a) =~= s.subrange(a, b));
        }
    } else {
        assert(a == 0);
        assert(b == s.len());
        assert(s.subrange(0, s.len() as int) =~= s);
    }
}

/// Narrows `[lo, hi)` to the whitespace-trimmed core of that slice of `s`.
pub fn trim_range(s: &str, lo: usize, hi: usize) -> (r: (usize, usize))
    requires
        lo <= hi <= s@.len(),
    ensures
        lo <= r.0 <= r.1 <= hi,
        trim_spec(s@.subrange(lo as int, hi as int)) == s@.subrange(r.0 as int, r.1 as int),
{
    let mut a: usize = lo;
    while a < hi && is_ws_exec(s.get_char(a))
        invariant
            lo <= a <= hi <= s@.len(),
            forall|k: int| lo <= k < a ==> is_ws(s@[k]),
        decreases hi - a,
    {
        a = a + 1;
    }
    let mut b: usize = hi;
    while b > a && is_ws_exec(s.get_char(b - 1))
        invariant
            a <= b <= hi <= s@.len(),
            forall|k: int| b <= k < hi ==> is_ws(s@[k]),
        decreases b,
    {
        b = b - 1;
    }
    proof {
        let sub = s@.subrange(lo as int, hi as int);
        lemma_trim_is(sub, a - lo, b - lo);
        assert(sub.subrange(a - lo, b - lo) =~= s@.subrange(a as int, b as int));
    }
    (a, b)
}

/// `p` is an initial segment of `s`.
pub open spec fn is_prefix(p: Seq<char>, s: Seq<char>) -> bool {
    p.len() <= s.len() && s.subrange(0, p.len() as int) == p
}

/// `s` with one leading occurrence of `p` removed; `s` itself when `p` is not
/// a prefix.
pub open spec fn strip_prefix_spec(s: Seq<char>, p: Seq<char>) -> Seq<char> {
    if is_prefix(p, s) {
        s.skip(p.len() as int)
    } else {
        s
    }
}

/// Removes the prefix `p` from `s` when present, as `strip_prefix_spec` says.
pub fn strip_prefix_exec(s: &str, p: &str) -> (r: String)
    ensures
        r@ == strip_prefix_spec(s@, p@),
{
    let slen: usize = s.unicode_len();
    let plen: usize = p.unicode_len();
    if plen > slen {
        assert(!is_prefix(p@, s@));
        return s.to_owned();
    }
    let mut i: usize = 0;
    while i < plen
        invariant
            0 <= i <= plen <= slen,
            slen == s@.len(),
            plen == p@.len(),
            forall|k: int| 0 <= k < i ==> s@[k] == p@[k],
        decreases plen - i,
    {
        if s.get_char(i) != p.get_char(i) {
            proof {
                assert(s@.subrange(0, p@.len() as int)[i as int] == s@[i as int]);
                assert(!is_prefix(p@, s@));
            }
            return s.to_owned();
        }
        i = i + 1;
    }
    proof {
        assert(s@.subrange(0, p@.len() as int) =~= p@);
    }
    let rest = s.substring_char(plen, slen);
    rest.to_owned()
}

} // verus!

//! Scanning of ASCII byte text: whitespace, single bytes and patterns.
use vstd::prelude::*;

verus! {

/// ASCII whitespace: space, tab, line feed, vertical tab, form feed, carriage return.
pub open spec fn is_space(b: u8) -> bool {
    b == 32 || (9 <= b && b <= 13)
}

/// The first index in `i..hi` that holds `b`, or `hi` when none does.
pub open spec fn find_from(s: Seq<u8>, i: int, hi: int, b: u8) -> int
    decreases hi - i,
{
    if i < hi && s[i] != b {
        find_from(s, i + 1, hi, b)
    } else {
        i
    }
}

/// The first index in `i..hi` that holds no whitespace, or `hi` when none does.
pub open spec fn skip_space(s: Seq<u8>, i: int, hi: int) -> int
    decreases hi - i,
{
    if i < hi && is_space(s[i]) {
        skip_space(s, i + 1, hi)
    } else {
        i
    }
}

/// The first index in `i..hi` that holds whitespace, or `hi` when none does.
pub open spec fn word_end(s: Seq<u8>, i: int, hi: int) -> int
    decreases hi - i,
{
    if i < hi && !is_space(s[i]) {
        word_end(s, i + 1, hi)
    } else {
        i
    }
}

/// The end of `s[lo..j]` once trailing whitespace is dropped.
pub open spec fn drop_space_back(s: Seq<u8>, lo: int, j: int) -> int
    decreases j - lo,
{
    if lo < j && is_space(s[j - 1]) {
        drop_space_back(s, lo, j - 1)
    } else {
        j
    }
}

/// `pat` stands in `s` at index `k`.
pub open spec fn occurs_at(s: Seq<u8>, k: int, pat: Seq<u8>) -> bool {
    0 <= k && k + pat.len() <= s.len() && s.subrange(k, k + pat.len()) == pat
}

/// `pat` stands somewhere inside `s[lo..hi]`.
pub open spec fn occurs_within(s: Seq<u8>, lo: int, hi: int, pat: Seq<u8>) -> bool {
    exists|k: int| lo <= k && k + pat.len() <= hi && #[trigger] occurs_at(s, k, pat)
}

/// `pat` is a contiguous part of `s`.
pub open spec fn mentions(s: Seq<u8>, pat: Seq<u8>) -> bool {
    occurs_within(s, 0, s.len() as int, pat)
}

pub proof fn lemma_find_from_bounds(s: Seq<u8>, i: int, hi: int, b: u8)
    requires
        i <= hi,
    ensures
        i <= find_from(s, i, hi, b) <= hi,
    decreases hi - i,
{
    if i < hi && s[i] != b {
        lemma_find_from_bounds(s, i + 1, hi, b);
    }
}

pub proof fn lemma_word_end_bounds(s: Seq<u8>, i: int, hi: int)
    requires
        i <= hi,
    ensures
        i <= word_end(s, i, hi) <= hi,
    decreases hi - i,
{
    if i < hi && !is_space(s[i]) {
        lemma_word_end_bounds(s, i + 1, hi);
    }
}

pub fn is_space_byte(b: u8) -> (r: bool)
    ensures
        r == is_space(b),
{
    b == 32 || (9 <= b && b <= 13)
}

/// The first index in `from..to` that holds `b`, or `to` when none does.
pub fn find_byte(s: &[u8], from: usize, to: usize, b: u8) -> (r: usize)
    requires
        from <= to <= s@.len(),
    ensures
        r == find_from(s@, from as int, to as int, b),
        from <= r <= to,
{
    let mut i = from;
    while i < to && s[i] != b
        invariant
            from <= i <= to <= s@.len(),
            find_from(s@, i as int, to as int, b) == find_from(s@, from as int, to as int, b),
        decreases to - i,
    {
        i = i + 1;
    }
    i
}

/// The first index in `from..to` that holds no whitespace, or `to`.
pub fn skip_spaces(s: &[u8], from: usize, to: usize) -> (r: usize)
    requires
        from <= to <= s@.len(),
    ensures
        r == skip_space(s@, from as int, to as int),
        from <= r <= to,
{
    let mut i = from;
    while i < to && is_space_byte(s[i])
        invariant
            from <= i <= to <= s@.len(),
            skip_space(s@, i as int, to as int) == skip_space(s@, from as int, to as int),
        decreases to - i,
    {
        i = i + 1;
    }
    i
}

/// The first index in `from..to` that holds whitespace, or `to`.
pub fn find_word_end(s: &[u8], from: usize, to: usize) -> (r: usize)
    requires
        from <= to <= s@.len(),
    ensures
        r == word_end(s@, from as int, to as int),
        from <= r <= to,
{
    let mut i = from;
    while i < to && !is_space_byte(s[i])
        invariant
            from <= i <= to <= s@.len(),
            word_end(s@, i as int, to as int) == word_end(s@, from as int, to as int),
        decreases to - i,
    {
        i = i + 1;
    }
    i
}

/// The bounds of `s[lo..hi]` with leading and trailing whitespace dropped.
pub fn trim_bounds(s: &[u8], lo: usize, hi: usize) -> (r: (usize, usize))
    requires
        lo <= hi <= s@.len(),
    ensures
        r.0 == skip_space(s@, lo as int, hi as int),
        r.1 == drop_space_back(s@, r.0 as int, hi as int),
        lo <= r.0 <= r.1 <= hi,
{
    let a = skip_spaces(s, lo, hi);
    let mut j = hi;
    while a < j && is_space_byte(s[j - 1])
        invariant
            lo <= a <= j <= hi <= s@.len(),
            drop_space_back(s@, a as int, j as int) == drop_space_back(s@, a as int, hi as int),
        decreases j - a,
    {
        j = j - 1;
    }
    (a, j)
}

/// Whether `pat` stands at index `k` of `s`.
fn occurs_here(s: &[u8], k: usize, pat: &[u8]) -> (r: bool)
    requires
        k + pat@.len() <= s@.len(),
    ensures
        r == occurs_at(s@, k as int, pat@),
{
    let n = s.len();
    let mut i: usize = 0;
    while i < pat.len()
        invariant
            k + pat@.len() <= s@.len() == n,
            i <= pat@.len(),
            forall|m: int| 0 <= m < i ==> s@[k + m] == pat@[m],
        decreases pat@.len() - i,
    {
        if s[k + i] != pat[i] {
            assert(s@.subrange(k as int, k + pat@.len())[i as int] != pat@[i as int]);
            return false;
        }
        i = i + 1;
    }
    assert(s@.subrange(k as int, k + pat@.len()) =~= pat@);
    true
}

/// Whether `pat` stands somewhere inside `s[lo..hi]`.
pub fn contains_within(s: &[u8], lo: usize, hi: usize, pat: &[u8]) -> (r: bool)
    requires
        lo <= hi <= s@.len(),
    ensures
        r == occurs_within(s@, lo as int, hi as int, pat@),
{
    if pat.len() > hi - lo {
        return false;
    }
    if pat.len() == 0 {
        assert(s@.subrange(lo as int, lo as int) =~= pat@);
        assert(occurs_at(s@, lo as int, pat@));
        return true;
    }
    let last = hi - pat.len();
    let mut k = lo;
    while k <= last
        invariant
            lo <= k <= last + 1,
            last + pat@.len() == hi <= s@.len(),
            pat@.len() > 0,
            forall|m: int| lo <= m < k ==> !#[trigger] occurs_at(s@, m, pat@),
        decreases last + 1 - k,
    {
        if occurs_here(s, k, pat) {
            return true;
        }
        k = k + 1;
    }
    false
}

/// Whether `pat` is a contiguous part of `s`.
pub fn contains_bytes(s: &[u8], pat: &[u8]) -> (r: bool)
    ensures
        r == mentions(s@, pat@),
{
    contains_within(s, 0, s.len(), pat)
}

} // verus!

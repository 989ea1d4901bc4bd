//! Character-sequence helpers: every textual field of a record is handled as a
//! `Vec<char>` while it is being taken apart, and turned into a `String` at the end.
use vstd::prelude::*;
use vstd::std_specs::iter::IteratorSpec;

verus! {

/// `pat` occurs in `s` starting at index `i`.
pub open spec fn matches_at(s: Seq<char>, pat: Seq<char>, i: int) -> bool {
    0 <= i && i + pat.len() <= s.len() && s.subrange(i, i + pat.len()) =~= pat
}

/// The last index below `k` at which `pat` occurs in `s`, or -1.
pub open spec fn rfind_below(s: Seq<char>, pat: Seq<char>, k: int) -> int
    decreases k,
{
    if k <= 0 {
        -1
    } else if matches_at(s, pat, k - 1) {
        k - 1
    } else {
        rfind_below(s, pat, k - 1)
    }
}

/// The index of the last occurrence of `pat` in `s`, or -1.
pub open spec fn rfind(s: Seq<char>, pat: Seq<char>) -> int {
    rfind_below(s, pat, s.len() + 1int)
}

pub open spec fn starts_with(s: Seq<char>, pat: Seq<char>) -> bool {
    matches_at(s, pat, 0)
}

pub open spec fn ends_with(s: Seq<char>, pat: Seq<char>) -> bool {
    matches_at(s, pat, s.len() - pat.len())
}

/// The first index at or after `i` that holds `c`, or the length of `s`.
pub open spec fn find_from(s: Seq<char>, c: char, i: int) -> int
    decreases s.len() - i,
{
    if i < 0 || i >= s.len() {
        s.len() as int
    } else if s[i] == c {
        i
    } else {
        find_from(s, c, i + 1)
    }
}

/// The first index at or after `i` that does not hold `c`, or the length of `s`.
pub open spec fn skip_from(s: Seq<char>, c: char, i: int) -> int
    decreases s.len() - i,
{
    if i < 0 || i >= s.len() {
        s.len() as int
    } else if s[i] != c {
        i
    } else {
        skip_from(s, c, i + 1)
    }
}

pub proof fn lemma_rfind_below_range(s: Seq<char>, pat: Seq<char>, k: int)
    ensures
        -1 <= rfind_below(s, pat, k) < k || (k <= 0 && rfind_below(s, pat, k) == -1),
        rfind_below(s, pat, k) >= 0 ==> matches_at(s, pat, rfind_below(s, pat, k)),
    decreases k,
{
    if k > 0 && !matches_at(s, pat, k - 1) {
        lemma_rfind_below_range(s, pat, k - 1);
    }
}

pub proof fn lemma_find_from_range(s: Seq<char>, c: char, i: int)
    requires
        0 <= i <= s.len(),
    ensures
        i <= find_from(s, c, i) <= s.len(),
    decreases s.len() - i,
{
    if i < s.len() && s[i] != c {
        lemma_find_from_range(s, c, i + 1);
    }
}

pub proof fn lemma_skip_from_range(s: Seq<char>, c: char, i: int)
    requires
        0 <= i <= s.len(),
    ensures
        i <= skip_from(s, c, i) <= s.len(),
    decreases s.len() - i,
{
    if i < s.len() && s[i] == c {
        lemma_skip_from_range(s, c, i + 1);
    }
}

/// The characters of `s`, in order.
pub fn chars_of(s: &str) -> (r: Vec<char>)
    ensures
        r@ == s@,
{
    let mut it = s.chars();
    let mut r: Vec<char> = Vec::new();
    loop
        invariant
            r@ + it.remaining() == s@,
            it.obeys_prophetic_iter_laws(),
            it.decrease() is Some,
        ensures
            r@ == s@,
        decreases it.decrease()->0,
    {
        let ghost before = it.remaining();
        match it.next() {
            Some(c) => {
                r.push(c);
                assert(r@ + it.remaining() =~= s@);
            },
            None => {
                assert(r@ + before =~= r@);
                assert(r@ == s@);
                break;
            },
        }
    }
    r
}

/// Relies on `String`'s `FromIterator<&char>`: the string made of the characters of `v`.
#[verifier::external_body]
pub fn string_of(v: &Vec<char>) -> (r: String)
    ensures
        r@ == v@,
{
    String::from_iter(v.iter())
}

/// The characters of `v` from index `lo` up to, not including, `hi`.
pub fn slice(v: &Vec<char>, lo: usize, hi: usize) -> (r: Vec<char>)
    requires
        lo <= hi <= v.len(),
    ensures
        r@ == v@.subrange(lo as int, hi as int),
{
    let mut r: Vec<char> = Vec::new();
    let mut i: usize = lo;
    while i < hi
        invariant
            lo <= i <= hi <= v.len(),
            r@ == v@.subrange(lo as int, i as int),
        decreases hi - i,
    {
        r.push(v[i]);
        i = i + 1;
        assert(r@ =~= v@.subrange(lo as int, i as int));
    }
    r
}

/// Whether `pat` occurs in `s` at index `i`.
pub fn occurs_at(s: &Vec<char>, pat: &Vec<char>, i: usize) -> (r: bool)
    ensures
        r == matches_at(s@, pat@, i as int),
{
    if pat.len() > s.len() || i > s.len() - pat.len() {
        return false;
    }
    let mut j: usize = 0;
    while j < pat.len()
        invariant
            i + pat.len() <= s.len(),
            j <= pat.len(),
            forall|k: int| 0 <= k < j ==> s@[i + k] == pat@[k],
        decreases pat.len() - j,
    {
        if s[i + j] != pat[j] {
            assert(s@.subrange(i as int, i + pat.len())[j as int] != pat@[j as int]);
            return false;
        }
        j = j + 1;
    }
    assert(s@.subrange(i as int, i + pat.len()) =~= pat@);
    true
}

/// The index of the last occurrence of `pat` in `s`, if there is one.
pub fn rfind_chars(s: &Vec<char>, pat: &Vec<char>) -> (r: Option<usize>)
    ensures
        match r {
            Some(i) => i as int == rfind(s@, pat@),
            None => rfind(s@, pat@) == -1,
        },
{
    if occurs_at(s, pat, s.len()) {
        return Some(s.len());
    }
    let mut k: usize = s.len();
    while k > 0
        invariant
            k <= s.len(),
            rfind(s@, pat@) == rfind_below(s@, pat@, k as int),
        decreases k,
    {
        if occurs_at(s, pat, k - 1) {
            return Some(k - 1);
        }
        k = k - 1;
    }
    None
}

pub fn starts_with_chars(s: &Vec<char>, pat: &Vec<char>) -> (r: bool)
    ensures
        r == starts_with(s@, pat@),
{
    occurs_at(s, pat, 0)
}

pub fn ends_with_chars(s: &Vec<char>, pat: &Vec<char>) -> (r: bool)
    ensures
        r == ends_with(s@, pat@),
{
    if pat.len() > s.len() {
        false
    } else {
        occurs_at(s, pat, s.len() - pat.len())
    }
}

/// The first index at or after `i` that holds `c`, or the length of `s`.
pub fn find_char_from(s: &Vec<char>, c: char, i: usize) -> (r: usize)
    requires
        i <= s.len(),
    ensures
        r as int == find_from(s@, c, i as int),
{
    let mut j: usize = i;
    while j < s.len()
        invariant
            i <= j <= s.len(),
            find_from(s@, c, i as int) == find_from(s@, c, j as int),
        decreases s.len() - j,
    {
        if s[j] == c {
            return j;
        }
        j = j + 1;
    }
    j
}

/// The first index at or after `i` that does not hold `c`, or the length of `s`.
pub fn skip_char_from(s: &Vec<char>, c: char, i: usize) -> (r: usize)
    requires
        i <= s.len(),
    ensures
        r as int == skip_from(s@, c, i as int),
{
    let mut j: usize = i;
    while j < s.len()
        invariant
            i <= j <= s.len(),
            skip_from(s@, c, i as int) == skip_from(s@, c, j as int),
        decreases s.len() - j,
    {
        if s[j] != c {
            return j;
        }
        j = j + 1;
    }
    j
}

/// `find_from` stops no later than any index at or after `i` that holds `c`.
pub proof fn lemma_find_from_before(s: Seq<char>, c: char, i: int, k: int)
    requires
        0 <= i <= k < s.len(),
        s[k] == c,
    ensures
        find_from(s, c, i) <= k,
    decreases k - i,
{
    if s[i] != c {
        lemma_find_from_before(s, c, i + 1, k);
    }
}

/// Where `find_from` stops short of the end, `c` stands.
pub proof fn lemma_find_from_hit(s: Seq<char>, c: char, i: int)
    requires
        0 <= i,
        find_from(s, c, i) < s.len(),
    ensures
        s[find_from(s, c, i)] == c,
    decreases s.len() - i,
{
    if i < s.len() && s[i] != c {
        lemma_find_from_hit(s, c, i + 1);
    }
}

} // verus!

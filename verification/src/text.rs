//! Searching one text for another, character by character.

use vstd::prelude::*;

verus! {

/// Whether `needle` stands in `haystack` at position `i`.
pub open spec fn occurs_at(haystack: Seq<char>, needle: Seq<char>, i: int) -> bool {
    &&& 0 <= i
    &&& i + needle.len() <= haystack.len()
    &&& haystack.subrange(i, i + needle.len()) == needle
}

/// Whether `needle` stands somewhere in `haystack`.
pub open spec fn occurs_in(haystack: Seq<char>, needle: Seq<char>) -> bool {
    exists|i: int| occurs_at(haystack, needle, i)
}

/// The characters of a text, one by one.
pub fn chars_of(text: &str) -> (chars: Vec<char>)
    ensures
        chars@ == text@,
{
    let mut chars: Vec<char> = Vec::new();
    for c in it: text.chars()
        invariant
            chars@ == it.seq().take(it.index() as int),
    {
        chars.push(c);
    }
    chars
}

/// Whether `needle` stands in `haystack` at position `start`.
pub fn matches_at(haystack: &Vec<char>, needle: &Vec<char>, start: usize) -> (found: bool)
    requires
        start + needle@.len() <= haystack@.len(),
    ensures
        found == occurs_at(haystack@, needle@, start as int),
{
    let n = haystack.len();
    let m = needle.len();
    let mut k: usize = 0;
    while k < m
        invariant
            k <= m,
            m == needle@.len(),
            n == haystack@.len(),
            start + m <= n,
            forall|j: int| 0 <= j < k ==> haystack@[start + j] == needle@[j],
        decreases m - k,
    {
        if haystack[start + k] != needle[k] {
            proof {
                let part = haystack@.subrange(start as int, start + m);
                assert(part[k as int] == haystack@[start + k]);
            }
            return false;
        }
        k += 1;
    }
    assert(haystack@.subrange(start as int, start + m) =~= needle@);
    true
}

/// Whether `needle` stands somewhere in `haystack`. The empty text stands in
/// every text.
pub fn contains(haystack: &str, needle: &str) -> (found: bool)
    ensures
        found == occurs_in(haystack@, needle@),
{
    let hay = chars_of(haystack);
    let pat = chars_of(needle);
    let n = hay.len();
    let m = pat.len();
    if m > n {
        assert forall|i: int| !occurs_at(haystack@, needle@, i) by {}
        return false;
    }
    let last = n - m;
    let mut i: usize = 0;
    while i < last
        invariant
            m <= n,
            last == n - m,
            i <= last,
            n == hay@.len(),
            m == pat@.len(),
            hay@ == haystack@,
            pat@ == needle@,
            forall|j: int| 0 <= j < i ==> !occurs_at(hay@, pat@, j),
        decreases last - i,
    {
        if matches_at(&hay, &pat, i) {
            return true;
        }
        i += 1;
    }
    if matches_at(&hay, &pat, last) {
        return true;
    }
    assert forall|j: int| !occurs_at(haystack@, needle@, j) by {}
    false
}

} // verus!

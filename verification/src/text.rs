//! Characters, lowercasing, and contiguous-substring containment.

use vstd::prelude::*;

verus! {

/// Locale-independent lowercasing of one character: the ASCII letters
/// `'A'..='Z'` map to `'a'..='z'`; every other character is unchanged.
pub open spec fn lower_char(c: char) -> char {
    if 'A' <= c && c <= 'Z' {
        ((c as u8 + 32) as u8) as char
    } else {
        c
    }
}

/// A character sequence lowercased character by character.
pub open spec fn lower(s: Seq<char>) -> Seq<char> {
    s.map_values(|c: char| lower_char(c))
}

/// `needle` occurs in `hay` as a contiguous run starting at position `i`.
pub open spec fn matches_at(hay: Seq<char>, needle: Seq<char>, i: int) -> bool {
    0 <= i && i + needle.len() <= hay.len() && hay.subrange(i, i + needle.len()) == needle
}

/// `needle` occurs somewhere in `hay` as a contiguous run.
/// The empty needle occurs in every haystack.
pub open spec fn is_substring(hay: Seq<char>, needle: Seq<char>) -> bool {
    exists|i: int| matches_at(hay, needle, i)
}

/// Lowercase one character.
pub fn lower_char_exec(c: char) -> (r: char)
    ensures
        r == lower_char(c),
{
    if 'A' <= c && c <= 'Z' {
        ((c as u8) + 32) as char
    } else {
        c
    }
}

/// The characters of a string, as a vector.
pub fn chars_of(s: &str) -> (v: Vec<char>)
    ensures
        v@ == s@,
{
    let n = s.unicode_len();
    let mut v: Vec<char> = Vec::new();
    let mut i: usize = 0;
    while i < n
        invariant
            i <= n,
            n == s@.len(),
            v@ == s@.take(i as int),
        decreases n - i,
    {
        v.push(s.get_char(i));
        assert(v@ =~= s@.take(i + 1));
        i = i + 1;
    }
    assert(v@ =~= s@);
    v
}

/// The characters of a string, lowercased, as a vector.
pub fn lower_chars(s: &str) -> (v: Vec<char>)
    ensures
        v@ == lower(s@),
{
    let n = s.unicode_len();
    let mut v: Vec<char> = Vec::new();
    let mut i: usize = 0;
    while i < n
        invariant
            i <= n,
            n == s@.len(),
            v@ == lower(s@.take(i as int)),
        decreases n - i,
    {
        v.push(lower_char_exec(s.get_char(i)));
        assert(v@ =~= lower(s@.take(i + 1)));
        i = i + 1;
    }
    assert(v@ =~= lower(s@));
    v
}

/// Whether `needle` occurs in `hay` starting exactly at position `i`.
fn matches_at_exec(hay: &Vec<char>, needle: &Vec<char>, i: usize) -> (r: bool)
    requires
        i + needle@.len() <= hay@.len(),
    ensures
        r == matches_at(hay@, needle@, i as int),
{
    let m = needle.len();
    let hlen = hay.len();
    let mut j: usize = 0;
    while j < m
        invariant
            j <= m,
            m == needle@.len(),
            hlen == hay@.len(),
            i + m <= hlen,
            forall|k: int| 0 <= k < j ==> hay@[i + k] == needle@[k],
        decreases m - j,
    {
        if hay[i + j] != needle[j] {
            assert(!matches_at(hay@, needle@, i as int)) by {
                if hay@.subrange(i as int, i + needle@.len()) == needle@ {
                    assert(hay@.subrange(i as int, i + needle@.len())[j as int] == hay@[i + j]);
                }
            }
            return false;
        }
        j = j + 1;
    }
    assert(hay@.subrange(i as int, i + needle@.len()) =~= needle@);
    true
}

/// Whether `needle` occurs anywhere in `hay` as a contiguous run.
pub fn contains_chars(hay: &Vec<char>, needle: &Vec<char>) -> (r: bool)
    ensures
        r == is_substring(hay@, needle@),
{
    if needle.len() == 0 {
        assert(hay@.subrange(0, 0) =~= needle@);
        assert(matches_at(hay@, needle@, 0));
        return true;
    }
    if needle.len() > hay.len() {
        assert(!is_substring(hay@, needle@));
        return false;
    }
    let hlen = hay.len();
    let end = hlen - needle.len();
    let mut i: usize = 0;
    while i <= end
        invariant
            i <= end + 1,
            hlen == hay@.len(),
            needle@.len() >= 1,
            end == hlen - needle@.len(),
            forall|k: int| 0 <= k < i ==> !matches_at(hay@, needle@, k),
        decreases end + 1 - i,
    {
        if matches_at_exec(hay, needle, i) {
            return true;
        }
        i = i + 1;
    }
    assert(!is_substring(hay@, needle@));
    false
}

/// Lowercasing commutes with taking a subrange.
pub proof fn lemma_lower_subrange(s: Seq<char>, i: int, j: int)
    requires
        0 <= i <= j <= s.len(),
    ensures
        lower(s.subrange(i, j)) == lower(s).subrange(i, j),
{
    assert(lower(s.subrange(i, j)) =~= lower(s).subrange(i, j));
}

/// A substring occurrence survives lowercasing both strings.
pub proof fn lemma_lower_preserves_substring(hay: Seq<char>, needle: Seq<char>)
    requires
        is_substring(hay, needle),
    ensures
        is_substring(lower(hay), lower(needle)),
{
    let i = choose|i: int| matches_at(hay, needle, i);
    lemma_lower_subrange(hay, i, i + needle.len());
    assert(matches_at(lower(hay), lower(needle), i));
}

} // verus!

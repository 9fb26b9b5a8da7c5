use vstd::prelude::*;

verus! {

/// What `str::to_lowercase` gives for a string, as a sequence of characters.
pub uninterp spec fn lower_of(s: Seq<char>) -> Seq<char>;

/// Relies on `str::to_lowercase`: the result depends on the characters alone,
/// and an empty string stays empty.
#[verifier::external_body]
pub(crate) fn lowercase(s: &str) -> (r: String)
    ensures
        r@ == lower_of(s@),
        s@.len() == 0 ==> r@.len() == 0,
{
    s.to_lowercase()
}

/// Relies on `String::push`: appends one character.
#[verifier::external_body]
pub(crate) fn push_char(s: &mut String, c: char)
    ensures
        final(s)@ == old(s)@.push(c),
{
    s.push(c)
}

/// `needle` occurs in `hay` at position `i`.
pub open spec fn occurs_at(needle: Seq<char>, hay: Seq<char>, i: int) -> bool {
    0 <= i && i + needle.len() <= hay.len() && hay.subrange(i, i + needle.len()) =~= needle
}

/// `needle` occurs somewhere in `hay`.
pub open spec fn is_substring(needle: Seq<char>, hay: Seq<char>) -> bool {
    exists|i: int| occurs_at(needle, hay, i)
}

fn occurs_at_exec(needle: &str, hay: &str, nlen: usize, hlen: usize, i: usize) -> (r: bool)
    requires
        nlen == needle@.len(),
        hlen == hay@.len(),
        i + nlen <= hlen,
    ensures
        r == occurs_at(needle@, hay@, i as int),
{
    let mut j: usize = 0;
    while j < nlen
        invariant
            j <= nlen,
            nlen == needle@.len(),
            hlen == hay@.len(),
            i + nlen <= hlen,
            forall|k: int| 0 <= k < j ==> hay@[i + k] == needle@[k],
        decreases nlen - j,
    {
        if hay.get_char(i + j) != needle.get_char(j) {
            assert(hay@.subrange(i as int, i + nlen)[j as int] != needle@[j as int]);
            return false;
        }
        j = j + 1;
    }
    assert(hay@.subrange(i as int, i + nlen) =~= needle@);
    true
}

/// Whether `needle` occurs in `hay`, comparing characters exactly.
pub fn contains_chars(needle: &str, hay: &str) -> (r: bool)
    ensures
        r == is_substring(needle@, hay@),
{
    let nlen = needle.unicode_len();
    let hlen = hay.unicode_len();
    if nlen > hlen {
        return false;
    }
    if nlen == 0 {
        assert(occurs_at(needle@, hay@, 0));
        return true;
    }
    let mut i: usize = 0;
    while i <= hlen - nlen
        invariant
            nlen == needle@.len(),
            hlen == hay@.len(),
            0 < nlen <= hlen,
            i <= hlen - nlen + 1,
            forall|k: int| 0 <= k < i ==> !occurs_at(needle@, hay@, k),
        decreases hlen + 1 - i,
    {
        if occurs_at_exec(needle, hay, nlen, hlen, i) {
            return true;
        }
        i = i + 1;
    }
    assert forall|k: int| !occurs_at(needle@, hay@, k) by {
        if 0 <= k && k + nlen <= hlen {
            assert(k < i);
        }
    }
    false
}

/// Whether the already lower-cased `query` occurs in the already lower-cased `text`.
pub fn matches_folded(query: &str, text: &str) -> (r: bool)
    ensures
        r == is_substring(query@, text@),
{
    contains_chars(query, text)
}

/// Whether `query` occurs in `text`, ignoring case.
pub fn matches_ignoring_case(query: &str, text: &str) -> (r: bool)
    ensures
        r == is_substring(lower_of(query@), lower_of(text@)),
{
    let q = lowercase(query);
    let t = lowercase(text);
    matches_folded(q.as_str(), t.as_str())
}

} // verus!

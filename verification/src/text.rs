//! Substring matching on character sequences, and case folding.
//!
//! Case folding is per-character Unicode lowercasing: each character is
//! replaced by its own lowercase mapping, independent of its
//! neighbours. A character may lowercase to more than one character, so
//! the folded form of a line can be longer than the line itself.

use vstd::prelude::*;

verus! {

/// `needle` occurs in `hay` starting at character index `i`.
pub open spec fn match_at(hay: Seq<char>, needle: Seq<char>, i: int) -> bool {
    &&& 0 <= i
    &&& i + needle.len() <= hay.len()
    &&& hay.subrange(i, i + needle.len() as int) == needle
}

/// `needle` occurs somewhere in `hay` as a contiguous substring.
/// The empty sequence occurs in every sequence.
pub open spec fn contains_seq(hay: Seq<char>, needle: Seq<char>) -> bool {
    exists|i: int| match_at(hay, needle, i)
}

/// Decides whether `needle@` occurs in `hay@` at index `i`.
fn match_at_chars(hay: &Vec<char>, needle: &Vec<char>, i: usize) -> (b: bool)
    requires
        i + needle@.len() <= hay@.len(),
    ensures
        b == match_at(hay@, needle@, i as int),
{
    let m = needle.len();
    let n = hay.len();
    let mut j: usize = 0;
    while j < m
        invariant
            j <= m,
            m == needle@.len(),
            n == hay@.len(),
            i + m <= n,
            forall|k: int| 0 <= k < j ==> hay@[i + k] == needle@[k],
        decreases m - j,
    {
        if hay[i + j] != needle[j] {
            proof {
                assert(hay@.subrange(i as int, i + m as int)[j as int] == hay@[i + j]);
            }
            return false;
        }
        j += 1;
    }
    proof {
        assert(hay@.subrange(i as int, i + m as int) =~= needle@);
    }
    true
}

/// Finds the first index at which `needle@` occurs in `hay@`, if any.
pub fn find_first_cs(hay: &Vec<char>, needle: &Vec<char>) -> (r: Option<usize>)
    ensures
        match r {
            Some(i) => match_at(hay@, needle@, i as int) && forall|j: int|
                0 <= j < i ==> !match_at(hay@, needle@, j),
            None => !contains_seq(hay@, needle@),
        },
{
    let n = hay.len();
    let m = needle.len();
    if m > n {
        return None;
    }
    if m == 0 {
        proof {
            assert(match_at(hay@, needle@, 0)) by {
                assert(hay@.subrange(0, 0) =~= needle@);
            }
        }
        return Some(0);
    }
    let mut i: usize = 0;
    while i <= n - m
        invariant
            1 <= m <= n,
            n == hay@.len(),
            m == needle@.len(),
            i <= n - m + 1,
            forall|j: int| 0 <= j < i ==> !match_at(hay@, needle@, j),
        decreases n - m + 1 - i,
    {
        if match_at_chars(hay, needle, i) {
            return Some(i);
        }
        i += 1;
    }
    None
}

/// Decides whether `needle@` occurs anywhere in `hay@`.
pub fn contains_chars(hay: &Vec<char>, needle: &Vec<char>) -> (b: bool)
    ensures
        b == contains_seq(hay@, needle@),
{
    find_first_cs(hay, needle).is_some()
}

/// Reads the characters of a string slice into a vector.
pub fn chars_of(s: &str) -> (r: Vec<char>)
    ensures
        r@ == s@,
{
    let n = s.unicode_len();
    let mut r: Vec<char> = Vec::new();
    let mut i: usize = 0;
    while i < n
        invariant
            i <= n,
            n == s@.len(),
            r@ == s@.subrange(0, i as int),
        decreases n - i,
    {
        r.push(s.get_char(i));
        proof {
            assert(r@ =~= s@.subrange(0, i + 1));
        }
        i += 1;
    }
    proof {
        assert(s@.subrange(0, n as int) =~= s@);
    }
    r
}

/// The sequence of characters that the Unicode lowercase mapping
/// assigns to one character.
pub uninterp spec fn lower_char_seq(c: char) -> Seq<char>;

/// Relies on char::to_lowercase: the Unicode lowercase mapping of a
/// character, which depends on that character alone.
#[verifier::external_body]
pub(crate) fn lower_char(c: char) -> (r: Vec<char>)
    ensures
        r@ == lower_char_seq(c),
{
    c.to_lowercase().collect()
}

/// The lowercase form of a character sequence: each character replaced
/// by its lowercase mapping, in order.
pub open spec fn lower_of(s: Seq<char>) -> Seq<char>
    decreases s.len(),
{
    if s.len() == 0 {
        Seq::empty()
    } else {
        lower_char_seq(s[0]) + lower_of(s.drop_first())
    }
}

/// Lowercasing distributes over concatenation.
pub proof fn lemma_lower_concat(a: Seq<char>, b: Seq<char>)
    ensures
        lower_of(a + b) == lower_of(a) + lower_of(b),
    decreases a.len(),
{
    if a.len() == 0 {
        assert(a + b =~= b);
        assert(lower_of(a) + lower_of(b) =~= lower_of(b));
    } else {
        assert((a + b).drop_first() =~= a.drop_first() + b);
        lemma_lower_concat(a.drop_first(), b);
        assert(lower_of(a + b) =~= lower_of(a) + lower_of(b));
    }
}

/// Lowercasing a sequence extended by one character appends that
/// character's lowercase mapping.
pub proof fn lemma_lower_push(s: Seq<char>, c: char)
    ensures
        lower_of(s.push(c)) == lower_of(s) + lower_char_seq(c),
{
    assert(s.push(c) =~= s + seq![c]);
    lemma_lower_concat(s, seq![c]);
    assert(lower_of(seq![c]) =~= lower_char_seq(c)) by {
        assert(seq![c].drop_first() =~= Seq::<char>::empty());
        assert(lower_of(Seq::<char>::empty()) =~= Seq::<char>::empty());
        assert(seq![c][0] == c);
        assert(lower_char_seq(c) + Seq::<char>::empty() =~= lower_char_seq(c));
    }
}

/// Lowercases every character of a string slice.
pub fn to_lower_chars(s: &str) -> (r: Vec<char>)
    ensures
        r@ == lower_of(s@),
{
    let n = s.unicode_len();
    let mut r: Vec<char> = Vec::new();
    let mut i: usize = 0;
    while i < n
        invariant
            i <= n,
            n == s@.len(),
            r@ == lower_of(s@.subrange(0, i as int)),
        decreases n - i,
    {
        let mut piece = lower_char(s.get_char(i));
        proof {
            assert(s@.subrange(0, i + 1) =~= s@.subrange(0, i as int).push(s@[i as int]));
            lemma_lower_push(s@.subrange(0, i as int), s@[i as int]);
        }
        r.append(&mut piece);
        i += 1;
    }
    proof {
        assert(s@.subrange(0, n as int) =~= s@);
    }
    r
}

/// A substring occurrence survives lowercasing: when `needle` occurs in
/// `hay`, the lowercase form of `needle` occurs in the lowercase form of
/// `hay`.
pub proof fn lemma_contains_lower(hay: Seq<char>, needle: Seq<char>)
    requires
        contains_seq(hay, needle),
    ensures
        contains_seq(lower_of(hay), lower_of(needle)),
{
    let i = choose|i: int| match_at(hay, needle, i);
    let pre = hay.subrange(0, i);
    let post = hay.subrange(i + needle.len(), hay.len() as int);
    assert(hay =~= pre + needle + post);
    lemma_lower_concat(pre + needle, post);
    lemma_lower_concat(pre, needle);
    let li = lower_of(pre).len() as int;
    assert(lower_of(hay).subrange(li, li + lower_of(needle).len()) =~= lower_of(needle));
    assert(match_at(lower_of(hay), lower_of(needle), li));
}

} // verus!

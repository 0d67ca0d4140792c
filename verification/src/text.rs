//! Small helpers for working with text as sequences of characters.

use vstd::prelude::*;
use vstd::string::*;

verus! {

/// The characters of `s`, in order.
pub fn to_chars(s: &str) -> (chars: Vec<char>)
    ensures
        chars@ == s@,
{
    let mut chars: Vec<char> = Vec::new();
    for c in it: s.chars()
        invariant
            chars@ == it.seq().take(it.index() as int),
    {
        chars.push(c);
    }
    chars
}

/// Whether two strings hold the same characters.
pub fn equal(a: &str, b: &str) -> (same: bool)
    ensures
        same == (a@ == b@),
{
    let left = String::from_str(a);
    let right = String::from_str(b);
    left == right
}

/// The index of the first occurrence of `a` or `b` in `s`, or the length of
/// `s` where neither occurs.
pub open spec fn first_of(s: Seq<char>, a: char, b: char) -> int
    decreases s.len(),
{
    if s.len() == 0 || s[0] == a || s[0] == b {
        0
    } else {
        1 + first_of(s.skip(1), a, b)
    }
}

/// The index of the first occurrence of `c` in `s`, or the length of `s`
/// where `c` does not occur.
pub open spec fn first_index(s: Seq<char>, c: char) -> int {
    first_of(s, c, c)
}

/// `first_of` points at the first occurrence and nowhere else.
pub proof fn lemma_first_of(s: Seq<char>, a: char, b: char)
    ensures
        0 <= first_of(s, a, b) <= s.len(),
        first_of(s, a, b) < s.len() ==> s[first_of(s, a, b)] == a || s[first_of(s, a, b)] == b,
        forall|j: int| 0 <= j < first_of(s, a, b) ==> s[j] != a && s[j] != b,
    decreases s.len(),
{
    if s.len() == 0 || s[0] == a || s[0] == b {
    } else {
        let rest = s.skip(1);
        lemma_first_of(rest, a, b);
        assert forall|j: int| 0 <= j < first_of(s, a, b) implies s[j] != a && s[j] != b by {
            if j > 0 {
                assert(s[j] == rest[j - 1]);
            }
        }
    }
}

/// Any index that is preceded by no occurrence of `a` or `b`, and that
/// either holds one of them or is the length of `s`, is their first index.
pub proof fn lemma_first_of_is(s: Seq<char>, a: char, b: char, k: int)
    requires
        0 <= k <= s.len(),
        k < s.len() ==> s[k] == a || s[k] == b,
        forall|j: int| 0 <= j < k ==> s[j] != a && s[j] != b,
    ensures
        first_of(s, a, b) == k,
    decreases s.len(),
{
    if s.len() == 0 || s[0] == a || s[0] == b {
    } else {
        let rest = s.skip(1);
        assert forall|j: int| 0 <= j < k - 1 implies rest[j] != a && rest[j] != b by {
            assert(rest[j] == s[j + 1]);
        }
        lemma_first_of_is(rest, a, b, k - 1);
    }
}

/// Finds the first `a` or `b` in `chars[from..to]`; returns `to` where there
/// is none.
pub(crate) fn find_either(chars: &Vec<char>, from: usize, to: usize, a: char, b: char) -> (at: usize)
    requires
        from <= to <= chars.len(),
    ensures
        from <= at <= to,
        at == from + first_of(chars@.subrange(from as int, to as int), a, b),
{
    let mut at: usize = from;
    while at < to && chars[at] != a && chars[at] != b
        invariant
            from <= at <= to <= chars.len(),
            forall|j: int| from <= j < at ==> chars@[j] != a && chars@[j] != b,
        decreases to - at,
    {
        at += 1;
    }
    proof {
        let window = chars@.subrange(from as int, to as int);
        assert forall|j: int| 0 <= j < at - from implies window[j] != a && window[j] != b by {
            assert(window[j] == chars@[from + j]);
        }
        lemma_first_of_is(window, a, b, at - from);
    }
    at
}

/// Finds the first `c` in `chars[from..to]`; returns `to` where there is none.
pub(crate) fn find(chars: &Vec<char>, from: usize, to: usize, c: char) -> (at: usize)
    requires
        from <= to <= chars.len(),
    ensures
        from <= at <= to,
        at == from + first_index(chars@.subrange(from as int, to as int), c),
{
    find_either(chars, from, to, c, c)
}

} // verus!

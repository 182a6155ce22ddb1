//! Comparing, splitting and joining text, specified over the characters.

use vstd::prelude::*;
use vstd::string::StringExecFns;

verus! {

broadcast use vstd::seq_lib::group_seq_properties;

/// `s` begins with `p`.
pub open spec fn has_prefix(s: Seq<char>, p: Seq<char>) -> bool {
    p.len() <= s.len() && s.subrange(0, p.len() as int) == p
}

/// Whether two texts are equal.
pub fn same_text(a: &str, b: &str) -> (r: bool)
    ensures
        r == (a@ == b@),
{
    let x = a.to_owned();
    let y = b.to_owned();
    x == y
}

/// Whether `s` begins with `p`.
pub fn starts_with_text(s: &str, p: &str) -> (r: bool)
    ensures
        r == has_prefix(s@, p@),
{
    let n = s.unicode_len();
    let m = p.unicode_len();
    if m <= n {
        same_text(s.substring_char(0, m), p)
    } else {
        false
    }
}

/// `s` without its prefix `p`, when it begins with `p`.
pub fn strip_prefix_text<'a>(s: &'a str, p: &str) -> (r: Option<&'a str>)
    ensures
        match r {
            Some(rest) => has_prefix(s@, p@) && rest@ == s@.subrange(p@.len() as int, s@.len() as int),
            None => !has_prefix(s@, p@),
        },
{
    let n = s.unicode_len();
    let m = p.unicode_len();
    if m <= n && same_text(s.substring_char(0, m), p) {
        Some(s.substring_char(m, n))
    } else {
        None
    }
}

/// Splits `s` at the first occurrence of `c`: the text before it and the
/// text after it.
pub fn split_once_char<'a>(s: &'a str, c: char) -> (r: Option<(&'a str, &'a str)>)
    ensures
        match r {
            Some((head, tail)) => head@ + seq![c] + tail@ == s@ && !head@.contains(c),
            None => !s@.contains(c),
        },
{
    let n = s.unicode_len();
    let mut i: usize = 0;
    while i < n
        invariant
            n == s@.len(),
            0 <= i <= n,
            forall|j: int| 0 <= j < i ==> s@[j] != c,
        decreases n - i,
    {
        if s.get_char(i) == c {
            let head = s.substring_char(0, i);
            let tail = s.substring_char(i + 1, n);
            proof {
                assert(head@ + seq![c] + tail@ =~= s@);
                assert forall|j: int| 0 <= j < head@.len() implies head@[j] != c by {
                    assert(head@[j] == s@[j]);
                }
            }
            return Some((head, tail));
        }
        i = i + 1;
    }
    None
}

/// The text `a` followed by `b`.
pub fn join_text(a: &str, b: &str) -> (r: String)
    ensures
        r@ == a@ + b@,
{
    let mut out = a.to_owned();
    out.append(b);
    out
}

/// Splitting at the first `c` gives back the two parts that were joined
/// around it, when the first part holds no `c`.
pub proof fn lemma_split_of_join(head: Seq<char>, tail: Seq<char>, h2: Seq<char>, t2: Seq<char>, c: char)
    requires
        !head.contains(c),
        !h2.contains(c),
        h2 + seq![c] + t2 == head + seq![c] + tail,
    ensures
        h2 == head,
        t2 == tail,
{
    let s = head + seq![c] + tail;
    assert(s[head.len() as int] == c);
    assert((h2 + seq![c] + t2)[h2.len() as int] == c);
    if h2.len() < head.len() {
        assert(head[h2.len() as int] == s[h2.len() as int]);
        assert(head.contains(c));
    } else if head.len() < h2.len() {
        assert(h2[head.len() as int] == s[head.len() as int]);
        assert(h2.contains(c));
    }
    assert(h2 =~= s.subrange(0, head.len() as int));
    assert(head =~= s.subrange(0, head.len() as int));
    assert(t2 =~= s.subrange(head.len() + 1int, s.len() as int));
    assert(tail =~= s.subrange(head.len() + 1int, s.len() as int));
}

} // verus!

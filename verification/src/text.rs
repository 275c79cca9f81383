//! Character-sequence utilities shared by the line and domain-code parsers.
//!
//! Lines are handled as vectors of `char`, so that every splitting and
//! rebuilding step can be specified over `Seq<char>` views. The only
//! operations taken on trust are the two conversions at the boundary of
//! `String` itself.

use vstd::prelude::*;

verus! {

use vstd::string::StrSliceExecFns;

/// Length of the longest prefix of `s` that does not contain `c`: the index
/// of the first occurrence of `c`, or `s.len()` when `c` does not occur.
pub open spec fn prefix_len(s: Seq<char>, c: char) -> nat
    decreases s.len(),
{
    if s.len() == 0 {
        0
    } else if s[0] == c {
        0
    } else {
        (1 + prefix_len(s.drop_first(), c)) as nat
    }
}

/// `prefix_len` points at the first occurrence of `c`, and everything before
/// it differs from `c`.
pub proof fn lemma_prefix_len(s: Seq<char>, c: char)
    ensures
        prefix_len(s, c) <= s.len(),
        forall|j: int| 0 <= j < prefix_len(s, c) ==> s[j] != c,
        prefix_len(s, c) < s.len() ==> s[prefix_len(s, c) as int] == c,
    decreases s.len(),
{
    if s.len() > 0 && s[0] != c {
        lemma_prefix_len(s.drop_first(), c);
        assert forall|j: int| 0 <= j < prefix_len(s, c) implies s[j] != c by {
            if j > 0 {
                assert(s.drop_first()[j - 1] != c);
            }
        }
    }
}

/// Any index with the first-occurrence property equals `prefix_len`.
pub proof fn lemma_prefix_len_unique(s: Seq<char>, c: char, i: int)
    requires
        0 <= i <= s.len(),
        forall|j: int| 0 <= j < i ==> s[j] != c,
        i < s.len() ==> s[i] == c,
    ensures
        prefix_len(s, c) == i,
{
    lemma_prefix_len(s, c);
    let p = prefix_len(s, c) as int;
    if p < i {
        assert(s[p] != c);
    } else if i < p {
        assert(s[i] != c);
    }
}

/// The characters of `s`, in order, as a vector.
pub fn chars_of(s: &str) -> (r: Vec<char>)
    ensures
        r@ == s@,
{
    let n = s.unicode_len();
    let mut r: Vec<char> = Vec::new();
    let mut i: usize = 0;
    while i < n
        invariant
            i <= n,
            n == s@.len(),
            r@ == s@.take(i as int),
        decreases n - i,
    {
        r.push(s.get_char(i));
        i += 1;
        assert(r@ =~= s@.take(i as int));
    }
    assert(r@ =~= s@);
    r
}

/// Relies on `String::push`: appends one character to the string.
#[verifier::external_body]
fn push_char(s: &mut String, c: char)
    ensures
        final(s)@ == old(s)@.push(c),
{
    s.push(c);
}

/// A `String` holding exactly the characters of `v`.
pub fn string_from(v: &Vec<char>) -> (r: String)
    ensures
        r@ == v@,
{
    let mut r = String::new();
    let mut i: usize = 0;
    while i < v.len()
        invariant
            i <= v@.len(),
            r@ == v@.take(i as int),
        decreases v@.len() - i,
    {
        push_char(&mut r, v[i]);
        i += 1;
        assert(r@ =~= v@.take(i as int));
    }
    assert(r@ =~= v@);
    r
}

/// First index of `c` in `v` at or after `from`, or `v.len()` when there is
/// none; equivalently, `from + prefix_len` of the tail starting at `from`.
pub fn scan(v: &Vec<char>, from: usize, c: char) -> (r: usize)
    requires
        from <= v@.len(),
    ensures
        from <= r <= v@.len(),
        r - from == prefix_len(v@.skip(from as int), c),
        r < v@.len() ==> v@[r as int] == c,
        forall|j: int| from <= j < r ==> v@[j] != c,
{
    let mut i = from;
    while i < v.len() && v[i] != c
        invariant
            from <= i <= v@.len(),
            forall|j: int| from <= j < i ==> v@[j] != c,
        decreases v@.len() - i,
    {
        i += 1;
    }
    proof {
        let tail = v@.skip(from as int);
        lemma_prefix_len_unique(tail, c, i - from);
    }
    i
}

/// A copy of `v[lo..hi]`.
pub fn subvec(v: &Vec<char>, lo: usize, hi: usize) -> (r: Vec<char>)
    requires
        lo <= hi <= v@.len(),
    ensures
        r@ == v@.subrange(lo as int, hi as int),
{
    let mut r: Vec<char> = Vec::new();
    let mut i = lo;
    while i < hi
        invariant
            lo <= i <= hi <= v@.len(),
            r@ == v@.subrange(lo as int, i as int),
        decreases hi - i,
    {
        r.push(v[i]);
        i += 1;
        assert(r@ =~= v@.subrange(lo as int, i as int));
    }
    r
}

/// Whether the characters of `v` are exactly those of `s`.
pub fn chars_eq_str(v: &Vec<char>, s: &str) -> (r: bool)
    ensures
        r == (v@ == s@),
{
    let n = s.unicode_len();
    if v.len() != n {
        return false;
    }
    let mut i: usize = 0;
    while i < n
        invariant
            i <= n,
            n == s@.len(),
            v@.len() == n,
            forall|j: int| 0 <= j < i ==> v@[j] == s@[j],
        decreases n - i,
    {
        if v[i] != s.get_char(i) {
            return false;
        }
        i += 1;
    }
    proof {
        assert(v@ =~= s@);
    }
    true
}

} // verus!

//! Character scanning over string slices: finding delimiters and comparing
//! strings, with exact specifications over their `Seq<char>` views.

use vstd::prelude::*;
use vstd::string::StrSliceExecFns;

verus! {

/// Index of the first character of `s` equal to `a` or to `b`; `s.len()` if
/// neither occurs. Searching for a single character is the case `a == b`.
pub open spec fn first_occurrence(s: Seq<char>, a: char, b: char) -> int
    decreases s.len(),
{
    if s.len() == 0 {
        0
    } else if s[0] == a || s[0] == b {
        0
    } else {
        1 + first_occurrence(s.skip(1), a, b)
    }
}

/// `first_occurrence` lies within bounds, everything before it differs from
/// both delimiters, and it points at a delimiter unless it is `s.len()`.
pub proof fn lemma_first_occurrence(s: Seq<char>, a: char, b: char)
    ensures
        0 <= first_occurrence(s, a, b) <= s.len(),
        forall|j: int|
            0 <= j < first_occurrence(s, a, b) ==> !(s[j] == a || s[j] == b),
        first_occurrence(s, a, b) < s.len() ==> (s[first_occurrence(s, a, b)] == a
            || s[first_occurrence(s, a, b)] == b),
    decreases s.len(),
{
    if s.len() == 0 {
    } else if s[0] == a || s[0] == b {
    } else {
        lemma_first_occurrence(s.skip(1), a, b);
        assert forall|j: int|
            0 <= j < first_occurrence(s, a, b) implies !(s[j] == a || s[j] == b) by {
            if j > 0 {
                assert(s[j] == s.skip(1)[j - 1]);
            }
        }
        if first_occurrence(s, a, b) < s.len() {
            assert(s[first_occurrence(s, a, b)] == s.skip(1)[first_occurrence(s.skip(1), a, b)]);
        }
    }
}

/// Any position whose prefix is free of both delimiters and which either sits
/// on a delimiter or is the end of `s` is exactly `first_occurrence`.
pub proof fn lemma_first_occurrence_unique(s: Seq<char>, a: char, b: char, i: int)
    requires
        0 <= i <= s.len(),
        forall|j: int| 0 <= j < i ==> !(s[j] == a || s[j] == b),
        i < s.len() ==> (s[i] == a || s[i] == b),
    ensures
        first_occurrence(s, a, b) == i,
{
    lemma_first_occurrence(s, a, b);
}

/// Index of the first occurrence of `a` or `b` in `s`, or the character
/// length of `s` if neither occurs.
pub fn find_first(s: &str, a: char, b: char) -> (r: usize)
    ensures
        r == first_occurrence(s@, a, b),
        r <= s@.len(),
{
    let n = s.unicode_len();
    let mut i: usize = 0;
    while i < n
        invariant
            i <= n,
            n == s@.len(),
            forall|j: int| 0 <= j < i ==> !(s@[j] == a || s@[j] == b),
        decreases n - i,
    {
        let c = s.get_char(i);
        if c == a || c == b {
            proof {
                lemma_first_occurrence_unique(s@, a, b, i as int);
            }
            return i;
        }
        i = i + 1;
    }
    proof {
        lemma_first_occurrence_unique(s@, a, b, n as int);
    }
    n
}

/// Character-by-character string comparison: returns whether the two views
/// are equal sequences.
pub fn str_eq(x: &str, y: &str) -> (r: bool)
    ensures
        r == (x@ == y@),
{
    let n = x.unicode_len();
    let m = y.unicode_len();
    if n != m {
        return false;
    }
    let mut i: usize = 0;
    while i < n
        invariant
            i <= n,
            n == x@.len(),
            n == y@.len(),
            forall|j: int| 0 <= j < i ==> x@[j] == y@[j],
        decreases n - i,
    {
        if x.get_char(i) != y.get_char(i) {
            return false;
        }
        i = i + 1;
    }
    proof {
        assert(x@ =~= y@);
    }
    true
}

} // verus!

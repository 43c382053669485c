//! Small helpers on text.

use vstd::prelude::*;

verus! {

/// Whether two strings are equal, character by character.
pub fn str_eq(a: &str, b: &str) -> (eq: bool)
    ensures
        eq == (a@ == b@),
{
    let n = a.unicode_len();
    if n != b.unicode_len() {
        return false;
    }
    let mut i: usize = 0;
    while i < n
        invariant
            n == a@.len(),
            n == b@.len(),
            i <= n,
            forall|j: int| 0 <= j < i ==> a@[j] == b@[j],
        decreases n - i,
    {
        if a.get_char(i) != b.get_char(i) {
            return false;
        }
        i += 1;
    }
    assert(a@ =~= b@);
    true
}

/// Whether `a` begins with `prefix`, character by character.
pub fn str_starts_with(a: &str, prefix: &str) -> (b: bool)
    ensures
        b == (prefix@.len() <= a@.len() && a@.subrange(0, prefix@.len() as int) == prefix@),
{
    let n = prefix.unicode_len();
    if n > a.unicode_len() {
        return false;
    }
    let mut i: usize = 0;
    while i < n
        invariant
            n == prefix@.len(),
            n <= a@.len(),
            i <= n,
            forall|j: int| 0 <= j < i ==> a@[j] == prefix@[j],
        decreases n - i,
    {
        if a.get_char(i) != prefix.get_char(i) {
            assert(a@.subrange(0, n as int)[i as int] != prefix@[i as int]);
            return false;
        }
        i += 1;
    }
    assert(a@.subrange(0, n as int) =~= prefix@);
    true
}

} // verus!

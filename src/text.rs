//! Character-level helpers: reading a string's characters, appending to a
//! string, and case-sensitive substring search.
use vstd::prelude::*;

verus! {

/// `m` occurs in `s` starting at position `i`.
pub open spec fn occurs_at(s: Seq<char>, m: Seq<char>, i: int) -> bool {
    0 <= i && i + m.len() <= s.len() && s.subrange(i, i + m.len()) == m
}

/// `m` is a (case-sensitive) substring of `s`.
pub open spec fn contains_text(s: Seq<char>, m: Seq<char>) -> bool {
    exists|i: int| occurs_at(s, m, i)
}

/// Relies on `String::push`: the character is appended at the end.
#[verifier::external_body]
pub(crate) fn push_char(s: &mut String, c: char)
    ensures
        final(s)@ == old(s)@.push(c),
{
    s.push(c);
}

/// The characters of `s`, in order.
pub fn chars_of(s: &str) -> (r: Vec<char>)
    ensures
        r@ == s@,
{
    let n = s.unicode_len();
    let mut r: Vec<char> = Vec::new();
    let mut i: usize = 0;
    while i < n
        invariant
            n == s@.len(),
            i <= n,
            r@ == s@.subrange(0, i as int),
        decreases n - i,
    {
        r.push(s.get_char(i));
        i = i + 1;
    }
    assert(r@ == s@);
    r
}

/// Whether `m` matches `s` at position `i`.
fn matches_at(s: &Vec<char>, m: &Vec<char>, i: usize) -> (r: bool)
    requires
        i + m@.len() <= s@.len(),
    ensures
        r == occurs_at(s@, m@, i as int),
{
    let n = s.len();
    let mut j: usize = 0;
    while j < m.len()
        invariant
            n == s@.len(),
            i + m@.len() <= s@.len(),
            j <= m@.len(),
            forall|k: int| 0 <= k < j ==> s@[i + k] == m@[k],
        decreases m@.len() - j,
    {
        if s[i + j] != m[j] {
            assert(s@.subrange(i as int, i + m@.len())[j as int] != m@[j as int]);
            return false;
        }
        j = j + 1;
    }
    assert(s@.subrange(i as int, i + m@.len()) == m@);
    true
}

/// Whether `mask` occurs in `text`, comparing characters exactly.
pub fn contains_mask(text: &str, mask: &str) -> (r: bool)
    ensures
        r == contains_text(text@, mask@),
{
    let s = chars_of(text);
    let m = chars_of(mask);
    if m.len() == 0 {
        assert(s@.subrange(0, 0) =~= m@);
        assert(occurs_at(s@, m@, 0));
        return true;
    }
    if m.len() > s.len() {
        assert forall|i: int| !occurs_at(s@, m@, i) by {}
        return false;
    }
    let last = s.len() - m.len();
    let mut i: usize = 0;
    while i <= last
        invariant
            s@ == text@,
            m@ == mask@,
            m@.len() >= 1,
            s@.len() <= usize::MAX,
            last == s@.len() - m@.len(),
            i <= last + 1,
            forall|k: int| 0 <= k < i ==> !occurs_at(s@, m@, k),
        decreases last + 1 - i,
    {
        if matches_at(&s, &m, i) {
            return true;
        }
        i = i + 1;
    }
    assert forall|k: int| !occurs_at(s@, m@, k) by {
        if 0 <= k < i {
        }
    }
    false
}

} // verus!

//! Character-level string predicates used by the file matching rules.
use vstd::prelude::*;
use vstd::string::*;

verus! {

/// `p` is a prefix of `s`.
pub open spec fn is_prefix(p: Seq<char>, s: Seq<char>) -> bool {
    p.len() <= s.len() && s.subrange(0, p.len() as int) == p
}

/// `n` occurs in `s` starting at position `i`.
pub open spec fn occurs_at(s: Seq<char>, n: Seq<char>, i: int) -> bool {
    0 <= i && i + n.len() <= s.len() && s.subrange(i, i + n.len()) == n
}

/// `n` occurs somewhere in `s`.
pub open spec fn contains(s: Seq<char>, n: Seq<char>) -> bool {
    exists|i: int| occurs_at(s, n, i)
}

/// Does `s` start with `p`?
pub fn starts_with(s: &str, p: &str) -> (r: bool)
    ensures
        r == is_prefix(p@, s@),
{
    let n = s.unicode_len();
    let m = p.unicode_len();
    if m > n {
        return false;
    }
    let mut i: usize = 0;
    while i < m
        invariant
            n == s@.len(),
            m == p@.len(),
            m <= n,
            i <= m,
            forall|j: int| 0 <= j < i ==> s@[j] == p@[j],
        decreases m - i,
    {
        if s.get_char(i) != p.get_char(i) {
            assert(s@.subrange(0, m as int)[i as int] != p@[i as int]);
            return false;
        }
        i = i + 1;
    }
    assert(s@.subrange(0, m as int) =~= p@);
    true
}


/// The part of a `/`-separated path after its last `/` (all of it when it
/// holds no `/`).
pub open spec fn last_segment(s: Seq<char>) -> Seq<char>
    decreases s.len(),
{
    if s.len() == 0 {
        s
    } else if s.last() == '/' {
        Seq::empty()
    } else {
        last_segment(s.drop_last()).push(s.last())
    }
}

/// The last segment starts right after the last `/`.
pub proof fn lemma_last_segment_from(s: Seq<char>, k: int)
    requires
        0 <= k <= s.len(),
        forall|j: int| k <= j < s.len() ==> s[j] != '/',
        k == 0 || s[k - 1] == '/',
    ensures
        last_segment(s) == s.subrange(k, s.len() as int),
    decreases s.len(),
{
    if s.len() == k {
        assert(s.subrange(k, s.len() as int) =~= Seq::<char>::empty());
        if k == 0 {
            assert(s =~= Seq::<char>::empty());
        }
    } else {
        lemma_last_segment_from(s.drop_last(), k);
        assert(s.subrange(k, s.len() as int) =~= s.drop_last().subrange(k, s.len() - 1).push(
            s.last(),
        ));
    }
}

/// Are `a` and `b` the same string?
pub fn str_eq(a: &str, b: &str) -> (r: bool)
    ensures
        r == (a@ == b@),
{
    let n = a.unicode_len();
    if n != b.unicode_len() {
        return false;
    }
    let mut i: usize = 0;
    while i < n
        invariant
            n == a@.len(),
            n == b@.len(),
            i <= n,
            forall|j: int| 0 <= j < i ==> a@[j] == b@[j],
        decreases n - i,
    {
        if a.get_char(i) != b.get_char(i) {
            return false;
        }
        i = i + 1;
    }
    assert(a@ =~= b@);
    true
}

/// Does `n` occur in `s` at character position `i`?
pub fn occurs_at_pos(s: &str, n: &str, i: usize) -> (r: bool)
    ensures
        r == occurs_at(s@, n@, i as int),
{
    let sl = s.unicode_len();
    let nl = n.unicode_len();
    if i > sl || nl > sl - i {
        return false;
    }
    let mut j: usize = 0;
    while j < nl
        invariant
            sl == s@.len(),
            nl == n@.len(),
            i + nl <= sl,
            j <= nl,
            forall|k: int| 0 <= k < j ==> s@[i + k] == n@[k],
        decreases nl - j,
    {
        if s.get_char(i + j) != n.get_char(j) {
            assert(s@.subrange(i as int, i + nl)[j as int] != n@[j as int]);
            return false;
        }
        j = j + 1;
    }
    assert(s@.subrange(i as int, i + nl) =~= n@);
    true
}

/// Does `n` occur anywhere in `s`?
pub fn contains_str(s: &str, n: &str) -> (r: bool)
    ensures
        r == contains(s@, n@),
{
    let sl = s.unicode_len();
    let nl = n.unicode_len();
    if nl > sl {
        return false;
    }
    let last = sl - nl;
    let mut i: usize = 0;
    loop
        invariant
            sl == s@.len(),
            nl == n@.len(),
            last == sl - nl,
            i <= last,
            forall|k: int| 0 <= k < i ==> !occurs_at(s@, n@, k),
        ensures
            forall|k: int| 0 <= k <= last ==> !occurs_at(s@, n@, k),
        decreases last - i,
    {
        if occurs_at_pos(s, n, i) {
            return true;
        }
        if i == last {
            break;
        }
        i = i + 1;
    }
    assert forall|k: int| !occurs_at(s@, n@, k) by {
        if 0 <= k && k + nl <= sl {
            assert(k <= last);
        }
    }
    false
}

/// The part of the path `s` after its last `/`.
pub fn last_segment_of(s: &str) -> (r: &str)
    ensures
        r@ == last_segment(s@),
{
    let n = s.unicode_len();
    let mut k: usize = n;
    while k > 0
        invariant
            n == s@.len(),
            k <= n,
            forall|j: int| k <= j < n ==> s@[j] != '/',
        ensures
            k <= n,
            forall|j: int| k <= j < n ==> s@[j] != '/',
            k == 0 || s@[k - 1] == '/',
        decreases k,
    {
        if s.get_char(k - 1) == '/' {
            break;
        }
        k = k - 1;
    }
    proof {
        lemma_last_segment_from(s@, k as int);
    }
    s.substring_char(k, n)
}

} // verus!

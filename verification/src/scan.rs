//! Positions in sequences: where an element first or last satisfies a
//! predicate, and what is left once both ends are stripped.

use vstd::prelude::*;

verus! {

/// Index of the first element that satisfies `p`, or the length if none does.
pub open spec fn first_where<T>(s: Seq<T>, p: spec_fn(T) -> bool) -> int
    decreases s.len(),
{
    if s.len() == 0 {
        0
    } else if p(s[0]) {
        0
    } else {
        1 + first_where(s.drop_first(), p)
    }
}

/// One past the index of the last element that satisfies `p`, or zero if none
/// does.
pub open spec fn after_last_where<T>(s: Seq<T>, p: spec_fn(T) -> bool) -> int
    decreases s.len(),
{
    if s.len() == 0 {
        0
    } else if p(s.last()) {
        s.len() as int
    } else {
        after_last_where(s.drop_last(), p)
    }
}

/// The predicate "equals `x`".
pub open spec fn equals<T>(x: T) -> spec_fn(T) -> bool {
    |y: T| y == x
}

/// `s` without the longest prefix and suffix in which nothing satisfies `keep`.
pub open spec fn stripped<T>(s: Seq<T>, keep: spec_fn(T) -> bool) -> Seq<T> {
    let start = first_where(s, keep);
    let end = after_last_where(s, keep);
    if start < end {
        s.subrange(start, end)
    } else {
        Seq::empty()
    }
}

/// What `first_where` promises of its result.
pub proof fn lemma_first_where<T>(s: Seq<T>, p: spec_fn(T) -> bool)
    ensures
        0 <= first_where(s, p) <= s.len(),
        forall|j: int| 0 <= j < first_where(s, p) ==> !p(#[trigger] s[j]),
        first_where(s, p) < s.len() ==> p(s[first_where(s, p)]),
    decreases s.len(),
{
    if s.len() > 0 && !p(s[0]) {
        let rest = s.drop_first();
        lemma_first_where(rest, p);
        assert forall|j: int| 0 <= j < first_where(s, p) implies !p(#[trigger] s[j]) by {
            if j > 0 {
                assert(rest[j - 1] == s[j]);
            }
        }
        if first_where(s, p) < s.len() {
            assert(rest[first_where(rest, p)] == s[first_where(s, p)]);
        }
    }
}

/// An index that has the properties of `first_where` is `first_where`.
pub proof fn lemma_first_where_is<T>(s: Seq<T>, p: spec_fn(T) -> bool, i: int)
    requires
        0 <= i <= s.len(),
        forall|j: int| 0 <= j < i ==> !p(#[trigger] s[j]),
        i < s.len() ==> p(s[i]),
    ensures
        first_where(s, p) == i,
{
    lemma_first_where(s, p);
    let k = first_where(s, p);
    if k < i {
        assert(!p(s[k]));
    } else if i < k {
        assert(!p(s[i]));
    }
}

/// What `after_last_where` promises of its result.
pub proof fn lemma_after_last_where<T>(s: Seq<T>, p: spec_fn(T) -> bool)
    ensures
        0 <= after_last_where(s, p) <= s.len(),
        forall|j: int| after_last_where(s, p) <= j < s.len() ==> !p(#[trigger] s[j]),
        after_last_where(s, p) > 0 ==> p(s[after_last_where(s, p) - 1]),
    decreases s.len(),
{
    if s.len() > 0 && !p(s.last()) {
        let rest = s.drop_last();
        lemma_after_last_where(rest, p);
        assert forall|j: int| after_last_where(s, p) <= j < s.len() implies !p(#[trigger] s[j]) by {
            if j < s.len() - 1 {
                assert(rest[j] == s[j]);
            }
        }
    }
}

/// An index that has the properties of `after_last_where` is `after_last_where`.
pub proof fn lemma_after_last_where_is<T>(s: Seq<T>, p: spec_fn(T) -> bool, i: int)
    requires
        0 <= i <= s.len(),
        forall|j: int| i <= j < s.len() ==> !p(#[trigger] s[j]),
        i > 0 ==> p(s[i - 1]),
    ensures
        after_last_where(s, p) == i,
{
    lemma_after_last_where(s, p);
    let k = after_last_where(s, p);
    if k < i {
        assert(!p(s[i - 1]));
    } else if i < k {
        assert(!p(s[k - 1]));
    }
}

} // verus!

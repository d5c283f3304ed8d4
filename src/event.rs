use vstd::prelude::*;

verus! {

/// The shortest event, in seconds.
pub const MIN_EVENT_DURATION_SECONDS: i64 = 600;
/// The longest event, in seconds.
pub const MAX_EVENT_DURATION_SECONDS: i64 = 18000;

/// `[start, end)` is a valid event window: non-empty, from 10 minutes to 5 hours long.
pub open spec fn valid_event_window(start: i64, end: i64) -> bool {
    start < end && MIN_EVENT_DURATION_SECONDS <= end - start <= MAX_EVENT_DURATION_SECONDS
}

/// Whether `[start, end)` is a valid event window.
pub fn is_valid_event_window(start: i64, end: i64) -> (r: bool)
    ensures
        r == valid_event_window(start, end),
{
    if start >= end {
        return false;
    }
    let duration: i128 = (end as i128) - (start as i128);
    duration >= MIN_EVENT_DURATION_SECONDS as i128 && duration <= MAX_EVENT_DURATION_SECONDS as i128
}

/// The index of the first element of `s` that satisfies `p`.
pub open spec fn first_index<T>(s: Seq<T>, p: spec_fn(T) -> bool) -> Option<int>
    decreases s.len(),
{
    if s.len() == 0 {
        None
    } else {
        match first_index(s.drop_last(), p) {
            Some(i) => Some(i),
            None => if p(s.last()) { Some(s.len() - 1) } else { None },
        }
    }
}

pub proof fn lemma_first_index_bounds<T>(s: Seq<T>, p: spec_fn(T) -> bool)
    ensures
        first_index(s, p) matches Some(i) ==> 0 <= i < s.len() && p(s[i]),
        first_index(s, p) is None <==> forall|j: int| 0 <= j < s.len() ==> !p(#[trigger] s[j]),
    decreases s.len(),
{
    if s.len() > 0 {
        lemma_first_index_bounds(s.drop_last(), p);
        assert forall|j: int| 0 <= j < s.len() - 1 implies s.drop_last()[j] == s[j] by {}
    }
}

pub proof fn lemma_first_index_prefix<T>(s: Seq<T>, p: spec_fn(T) -> bool, n: int)
    requires
        0 <= n <= s.len(),
        first_index(s.subrange(0, n), p) is Some,
    ensures
        first_index(s, p) == first_index(s.subrange(0, n), p),
    decreases s.len() - n,
{
    if n < s.len() {
        assert(s.drop_last().subrange(0, n) =~= s.subrange(0, n));
        lemma_first_index_prefix(s.drop_last(), p, n);
    } else {
        assert(s.subrange(0, n) =~= s);
    }
}

pub proof fn lemma_first_index_step<T>(s: Seq<T>, p: spec_fn(T) -> bool, i: int)
    requires
        0 <= i < s.len(),
        first_index(s.subrange(0, i), p) is None,
    ensures
        !p(s[i]) ==> first_index(s.subrange(0, i + 1), p) is None,
        p(s[i]) ==> first_index(s, p) == Some(i),
{
    assert(s.subrange(0, i + 1).drop_last() =~= s.subrange(0, i));
    if p(s[i]) {
        lemma_first_index_prefix(s, p, i + 1);
    }
}

pub proof fn lemma_first_index_end<T>(s: Seq<T>, p: spec_fn(T) -> bool)
    requires
        first_index(s.subrange(0, s.len() as int), p) is None,
    ensures
        first_index(s, p) is None,
{
    assert(s.subrange(0, s.len() as int) =~= s);
}

} // verus!

verus! {

/// Every two elements of `s`, taken in order, satisfy `p`.
pub open spec fn pairwise<T>(s: Seq<T>, p: spec_fn(T, T) -> bool) -> bool {
    forall|a: int, b: int| 0 <= a < b < s.len() ==> #[trigger] p(s[a], s[b])
}

pub proof fn lemma_pairwise_push<T>(s: Seq<T>, x: T, p: spec_fn(T, T) -> bool)
    requires
        pairwise(s, p),
        forall|a: int| 0 <= a < s.len() ==> #[trigger] p(s[a], x),
    ensures
        pairwise(s.push(x), p),
{
    assert forall|a: int, b: int| 0 <= a < b < s.push(x).len() implies #[trigger] p(s.push(x)[a], s.push(x)[b]) by {
        if b < s.len() {
            assert(p(s[a], s[b]));
        } else {
            assert(p(s[a], x));
        }
    }
}

pub proof fn lemma_pairwise_remove<T>(s: Seq<T>, i: int, p: spec_fn(T, T) -> bool)
    requires
        pairwise(s, p),
        0 <= i < s.len(),
    ensures
        pairwise(s.remove(i), p),
{
    let t = s.remove(i);
    assert forall|a: int, b: int| 0 <= a < b < t.len() implies #[trigger] p(t[a], t[b]) by {
        let a2 = if a < i { a } else { a + 1 };
        let b2 = if b < i { b } else { b + 1 };
        assert(t[a] == s[a2] && t[b] == s[b2]);
        assert(p(s[a2], s[b2]));
    }
}

pub proof fn lemma_pairwise_update<T>(s: Seq<T>, k: int, x: T, p: spec_fn(T, T) -> bool)
    requires
        pairwise(s, p),
        0 <= k < s.len(),
        forall|a: int| 0 <= a < s.len() && a != k ==> #[trigger] p(s[a], x) && p(x, s[a]),
    ensures
        pairwise(s.update(k, x), p),
{
    let t = s.update(k, x);
    assert forall|a: int, b: int| 0 <= a < b < t.len() implies #[trigger] p(t[a], t[b]) by {
        if a == k {
            assert(p(s[b], x) && p(x, s[b]));
        } else if b == k {
            assert(p(s[a], x));
        } else {
            assert(p(s[a], s[b]));
        }
    }
}

} // verus!

//! Chronological arrangements: in which order a list of instants is to be
//! read so that it runs oldest first or newest first, instants that are
//! equal keeping the order in which they came.

use crate::date_time::DateTime;
use itertools::Itertools;
use vstd::prelude::*;

verus! {

/// The order of sort keys: by seconds, then nanoseconds, then position.
pub open spec fn key_le(a: (i64, u32, usize), b: (i64, u32, usize)) -> bool {
    a.0 < b.0 || (a.0 == b.0 && (a.1 < b.1 || (a.1 == b.1 && a.2 <= b.2)))
}

/// `a` is older than `b`, or as old and placed before it.
pub open spec fn comes_first(dates: Seq<DateTime>, a: int, b: int) -> bool {
    dates[a].before(dates[b]) || (dates[a] == dates[b] && a < b)
}

/// `a` is newer than `b`, or as new and placed before it.
pub open spec fn comes_first_newest(dates: Seq<DateTime>, a: int, b: int) -> bool {
    dates[b].before(dates[a]) || (dates[a] == dates[b] && a < b)
}

/// `perm` has `len` entries, each of them a position below `len`, and every
/// such position is among them.
pub open spec fn is_rearrangement(len: nat, perm: Seq<usize>) -> bool {
    &&& perm.len() == len
    &&& forall|i: int| 0 <= i < perm.len() ==> (#[trigger] perm[i]) < len
    &&& forall|k: usize| k < len ==> #[trigger] perm.contains(k)
}

/// Read through `perm`, `dates` runs oldest first, and equal instants stay
/// in the order they came in.
pub open spec fn is_oldest_first(dates: Seq<DateTime>, perm: Seq<usize>) -> bool {
    &&& is_rearrangement(dates.len(), perm)
    &&& forall|i: int, j: int|
        0 <= i < j < perm.len() ==> comes_first(dates, #[trigger] perm[i] as int, #[trigger] perm[j] as int)
}

/// Read through `perm`, `dates` runs newest first, and equal instants stay
/// in the order they came in.
pub open spec fn is_newest_first(dates: Seq<DateTime>, perm: Seq<usize>) -> bool {
    &&& is_rearrangement(dates.len(), perm)
    &&& forall|i: int, j: int|
        0 <= i < j < perm.len() ==> comes_first_newest(
            dates,
            #[trigger] perm[i] as int,
            #[trigger] perm[j] as int,
        )
}

proof fn lemma_agree_up_to(
    len: nat,
    p: Seq<usize>,
    q: Seq<usize>,
    precedes: spec_fn(int, int) -> bool,
    k: int,
)
    requires
        is_rearrangement(len, p),
        is_rearrangement(len, q),
        forall|i: int, j: int| 0 <= i < j < len ==> precedes(#[trigger] p[i] as int, #[trigger] p[j] as int),
        forall|i: int, j: int| 0 <= i < j < len ==> precedes(#[trigger] q[i] as int, #[trigger] q[j] as int),
        forall|a: int, b: int| !(#[trigger] precedes(a, b) && precedes(b, a)),
        0 <= k <= len,
    ensures
        forall|i: int| 0 <= i < k ==> #[trigger] p[i] == q[i],
    decreases k,
{
    if k > 0 {
        lemma_agree_up_to(len, p, q, precedes, k - 1);
        let at = k - 1;
        let a = p[at];
        let b = q[at];
        if a != b {
            // `a` stands somewhere in `q`, and `b` somewhere in `p`: both
            // after `at`, which puts each before the other.
            assert(q.contains(a));
            let m = choose|m: int| 0 <= m < q.len() && q[m] == a;
            assert(p.contains(b));
            let n = choose|n: int| 0 <= n < p.len() && p[n] == b;
            if m < at {
                assert(p[m] == q[m]);
                assert(precedes(p[m] as int, p[at] as int));
            } else if n < at {
                assert(p[n] == q[n]);
                assert(precedes(q[n] as int, q[at] as int));
            } else {
                assert(precedes(q[at] as int, q[m] as int));
                assert(precedes(p[at] as int, p[n] as int));
            }
        }
    }
}

/// There is one way only to read a list of instants oldest first with equal
/// instants in the order they came in.
pub proof fn lemma_oldest_first_is_unique(dates: Seq<DateTime>, p: Seq<usize>, q: Seq<usize>)
    requires
        is_oldest_first(dates, p),
        is_oldest_first(dates, q),
    ensures
        p == q,
{
    let precedes = |a: int, b: int| comes_first(dates, a, b);
    lemma_agree_up_to(dates.len(), p, q, precedes, dates.len() as int);
    assert(p =~= q);
}

/// There is one way only to read a list of instants newest first with equal
/// instants in the order they came in.
pub proof fn lemma_newest_first_is_unique(dates: Seq<DateTime>, p: Seq<usize>, q: Seq<usize>)
    requires
        is_newest_first(dates, p),
        is_newest_first(dates, q),
    ensures
        p == q,
{
    let precedes = |a: int, b: int| comes_first_newest(dates, a, b);
    lemma_agree_up_to(dates.len(), p, q, precedes, dates.len() as int);
    assert(p =~= q);
}

/// Sorts with `Itertools::sorted`, which is a stable `slice::sort` by the
/// items' `Ord`; for tuples of integers that is the lexicographic order.
/// Trusted: the result holds the same keys, each as often as the input, in
/// ascending order.
#[verifier::external_body]
fn sorted_keys(keys: Vec<(i64, u32, usize)>) -> (r: Vec<(i64, u32, usize)>)
    ensures
        r@.to_multiset() == keys@.to_multiset(),
        forall|i: int, j: int| 0 <= i < j < r@.len() ==> key_le(r@[i], r@[j]),
{
    keys.into_iter().sorted().collect()
}

/// Sorts keys that are all different: the result holds exactly the keys of
/// the input and is strictly ascending.
fn sort_distinct(keys: Vec<(i64, u32, usize)>) -> (r: Vec<(i64, u32, usize)>)
    requires
        keys@.no_duplicates(),
    ensures
        r@.len() == keys@.len(),
        forall|i: int| 0 <= i < r@.len() ==> keys@.contains(#[trigger] r@[i]),
        forall|k: int| 0 <= k < keys@.len() ==> r@.contains(#[trigger] keys@[k]),
        forall|i: int, j: int|
            0 <= i < j < r@.len() ==> key_le(#[trigger] r@[i], #[trigger] r@[j]) && r@[i] != r@[j],
{
    let ghost before = keys@;
    let r = sorted_keys(keys);
    proof {
        broadcast use vstd::seq_lib::group_to_multiset_ensures;

        before.lemma_multiset_has_no_duplicates();
        r@.lemma_multiset_has_no_duplicates_conv();
        assert(r@.len() == r@.to_multiset().len());
        assert(before.len() == before.to_multiset().len());
        assert forall|i: int| 0 <= i < r@.len() implies before.contains(#[trigger] r@[i]) by {
            assert(r@.contains(r@[i]));
            assert(r@.to_multiset().count(r@[i]) > 0);
        }
        assert forall|k: int| 0 <= k < before.len() implies r@.contains(#[trigger] before[k]) by {
            assert(before.contains(before[k]));
            assert(before.to_multiset().count(before[k]) > 0);
        }
    }
    r
}

/// The order in which to read `dates` oldest first; instants that are equal
/// keep the order they came in.
pub fn oldest_first_order(dates: &Vec<DateTime>) -> (perm: Vec<usize>)
    ensures
        is_oldest_first(dates@, perm@),
{
    let n: usize = dates.len();
    let mut keys: Vec<(i64, u32, usize)> = Vec::new();
    let mut i: usize = 0;
    while i < n
        invariant
            i <= n,
            n == dates@.len(),
            keys@.len() == i,
            forall|k: int| 0 <= k < i ==> #[trigger] keys@[k] == (dates@[k].secs, dates@[k].nanos, k as usize),
        decreases n - i,
    {
        keys.push((dates[i].secs, dates[i].nanos, i));
        i += 1;
    }
    let ghost tagged = keys@;
    let sorted = sort_distinct(keys);
    let mut perm: Vec<usize> = Vec::new();
    let mut j: usize = 0;
    while j < n
        invariant
            j <= n,
            n == sorted@.len(),
            perm@.len() == j,
            forall|k: int| 0 <= k < j ==> #[trigger] perm@[k] == sorted@[k].2,
        decreases n - j,
    {
        perm.push(sorted[j].2);
        j += 1;
    }
    proof {
        assert forall|a: int| 0 <= a < n implies (#[trigger] perm@[a]) < n && sorted@[a] == tagged[perm@[a] as int] by {
            assert(tagged.contains(sorted@[a]));
        }
        assert forall|k: usize| k < n implies #[trigger] perm@.contains(k) by {
            assert(sorted@.contains(tagged[k as int]));
            let a = choose|a: int| 0 <= a < sorted@.len() && sorted@[a] == tagged[k as int];
            assert(perm@[a] == k);
        }
        assert forall|a: int, b: int| 0 <= a < b < perm@.len() implies comes_first(
            dates@,
            #[trigger] perm@[a] as int,
            #[trigger] perm@[b] as int,
        ) by {
            assert(key_le(sorted@[a], sorted@[b]) && sorted@[a] != sorted@[b]);
        }
    }
    perm
}

/// The order in which to read `dates` newest first; instants that are equal
/// keep the order they came in.
pub fn newest_first_order(dates: &Vec<DateTime>) -> (perm: Vec<usize>)
    ensures
        is_newest_first(dates@, perm@),
{
    let n: usize = dates.len();
    let mut keys: Vec<(i64, u32, usize)> = Vec::new();
    let mut i: usize = 0;
    while i < n
        invariant
            i <= n,
            n == dates@.len(),
            keys@.len() == i,
            forall|k: int| 0 <= k < i ==> #[trigger] keys@[k] == (dates@[k].secs, dates@[k].nanos, (n - 1 - k) as usize),
        decreases n - i,
    {
        keys.push((dates[i].secs, dates[i].nanos, n - 1 - i));
        i += 1;
    }
    let ghost tagged = keys@;
    let sorted = sort_distinct(keys);
    proof {
        assert forall|a: int| 0 <= a < n implies (#[trigger] sorted@[a]).2 < n && sorted@[a] == tagged[n - 1 - sorted@[a].2] by {
            assert(tagged.contains(sorted@[a]));
        }
    }
    let mut perm: Vec<usize> = Vec::new();
    let mut j: usize = 0;
    while j < n
        invariant
            j <= n,
            n == sorted@.len(),
            perm@.len() == j,
            forall|a: int| 0 <= a < n ==> (#[trigger] sorted@[a]).2 < n,
            forall|k: int| 0 <= k < j ==> #[trigger] perm@[k] == n - 1 - sorted@[n - 1 - k].2,
        decreases n - j,
    {
        perm.push(n - 1 - sorted[n - 1 - j].2);
        j += 1;
    }
    proof {
        assert forall|k: usize| k < n implies #[trigger] perm@.contains(k) by {
            assert(sorted@.contains(tagged[k as int]));
            let b = choose|b: int| 0 <= b < sorted@.len() && sorted@[b] == tagged[k as int];
            assert(perm@[n - 1 - b] == k);
        }
        assert forall|a: int, b: int| 0 <= a < b < perm@.len() implies comes_first_newest(
            dates@,
            #[trigger] perm@[a] as int,
            #[trigger] perm@[b] as int,
        ) by {
            let x = sorted@[n - 1 - b];
            let y = sorted@[n - 1 - a];
            assert(key_le(x, y) && x != y);
            assert(x == tagged[n - 1 - x.2]);
            assert(y == tagged[n - 1 - y.2]);
        }
    }
    perm
}

} // verus!

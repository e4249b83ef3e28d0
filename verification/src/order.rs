//! Orders on measured quantities, carried by integer keys.
//!
//! A floating-point quantity enters as the key of its bit pattern: keys are
//! ordered as `f64::total_cmp` orders the numbers. The library then selects
//! and sorts by keys: the first of several minima (as `Iterator::min_by`
//! picks it), the last of several maxima (as `Iterator::max_by` picks it),
//! and stable orders (as `slice::sort_by` gives them).

use vstd::prelude::*;
use vstd::multiset::Multiset;

verus! {

broadcast use vstd::seq_lib::group_seq_properties, vstd::seq_lib::group_to_multiset_ensures, vstd::multiset::group_multiset_axioms;

/// The key of the bit pattern of a `f64`: patterns with the sign bit clear
/// keep their value, those with it set map to `-1 - (bits - 2^63)`. This is
/// the transformation with which `f64::total_cmp` compares, so that keys
/// compare as the numbers do in IEEE 754 total order.
pub open spec fn total_key(bits: u64) -> int {
    if bits < 0x8000_0000_0000_0000u64 {
        bits as int
    } else {
        -1 - (bits - 0x8000_0000_0000_0000u64)
    }
}

/// The key of the bit pattern `bits` of a `f64`.
pub fn total_order_key(bits: u64) -> (r: i64)
    ensures
        r == total_key(bits),
{
    if bits < 0x8000_0000_0000_0000u64 {
        bits as i64
    } else {
        -1 - ((bits - 0x8000_0000_0000_0000u64) as i64)
    }
}

/// `i` holds the first of the smallest keys.
pub open spec fn is_first_min(keys: Seq<i64>, i: int) -> bool {
    &&& 0 <= i < keys.len()
    &&& forall|j: int| 0 <= j < keys.len() ==> keys[i] <= #[trigger] keys[j]
    &&& forall|j: int| 0 <= j < i ==> keys[i] < #[trigger] keys[j]
}

/// `i` holds the last of the largest keys.
pub open spec fn is_last_max(keys: Seq<i64>, i: int) -> bool {
    &&& 0 <= i < keys.len()
    &&& forall|j: int| 0 <= j < keys.len() ==> #[trigger] keys[j] <= keys[i]
    &&& forall|j: int| i < j < keys.len() ==> #[trigger] keys[j] < keys[i]
}

/// The index of the first smallest key, `None` for no keys.
pub fn index_of_min(keys: &Vec<i64>) -> (r: Option<usize>)
    ensures
        r is None <==> keys@.len() == 0,
        r matches Some(i) ==> is_first_min(keys@, i as int) && i == first_min_index(keys@),
{
    if keys.len() == 0 {
        return None;
    }
    let mut best: usize = 0;
    let mut i: usize = 1;
    while i < keys.len()
        invariant
            1 <= i <= keys@.len(),
            best < i,
            forall|j: int| 0 <= j < i ==> keys@[best as int] <= #[trigger] keys@[j],
            forall|j: int| 0 <= j < best ==> keys@[best as int] < #[trigger] keys@[j],
        decreases keys.len() - i,
    {
        if keys[i] < keys[best] {
            best = i;
        }
        i = i + 1;
    }
    proof {
        lemma_first_min_index(keys@);
    }
    Some(best)
}

/// The index of the last largest key, `None` for no keys.
pub fn index_of_max(keys: &Vec<i64>) -> (r: Option<usize>)
    ensures
        r is None <==> keys@.len() == 0,
        r matches Some(i) ==> is_last_max(keys@, i as int) && i == last_max_index(keys@),
{
    if keys.len() == 0 {
        return None;
    }
    let mut best: usize = 0;
    let mut i: usize = 1;
    while i < keys.len()
        invariant
            1 <= i <= keys@.len(),
            best < i,
            forall|j: int| 0 <= j < i ==> #[trigger] keys@[j] <= keys@[best as int],
            forall|j: int| best < j < i ==> #[trigger] keys@[j] < keys@[best as int],
        decreases keys.len() - i,
    {
        if keys[i] >= keys[best] {
            best = i;
        }
        i = i + 1;
    }
    proof {
        lemma_last_max_index(keys@);
    }
    Some(best)
}

/// `(a, i)` comes before `(b, j)`: by key, and by index between equal keys.
pub open spec fn key_index_lt(a: i64, i: int, b: i64, j: int) -> bool {
    a < b || (a == b && i < j)
}

/// `(a.0, a.1)` is at most `(b.0, b.1)` in lexicographic order.
pub open spec fn pair_le(a: (i64, usize), b: (i64, usize)) -> bool {
    a.0 < b.0 || (a.0 == b.0 && a.1 <= b.1)
}

/// Sorts pairs of a key and an index in ascending lexicographic order.
///
/// Calls `slice::sort`, documented to sort the slice in ascending order of
/// `Ord`, which for tuples is lexicographic; the contract claims that the
/// result is a rearrangement of the input in that order.
#[verifier::external_body]
fn sort_pairs(v: &mut Vec<(i64, usize)>)
    ensures
        final(v)@.to_multiset() == old(v)@.to_multiset(),
        forall|a: int, b: int| 0 <= a < b < final(v)@.len() ==> pair_le(final(v)@[a], final(v)@[b]),
{
    v.sort();
}

/// `order` lists each index of `keys` once, by ascending key and, between
/// equal keys, by ascending index: the order in which a stable sort by key
/// leaves the indices.
pub open spec fn is_stable_order(keys: Seq<i64>, order: Seq<usize>) -> bool {
    &&& order.len() == keys.len()
    &&& forall|a: int| 0 <= a < order.len() ==> #[trigger] order[a] < keys.len()
    &&& forall|i: usize| i < keys.len() ==> #[trigger] order.contains(i)
    &&& forall|a: int, b: int|
        0 <= a < b < order.len() ==> key_index_lt(
            keys[#[trigger] order[a] as int],
            order[a] as int,
            keys[#[trigger] order[b] as int],
            order[b] as int,
        )
}

/// The indices of `keys` in the order of a stable sort by key.
pub fn argsort(keys: &Vec<i64>) -> (r: Vec<usize>)
    ensures
        is_stable_order(keys@, r@),
{
    let n = keys.len();
    let mut pairs: Vec<(i64, usize)> = Vec::new();
    let mut i: usize = 0;
    while i < n
        invariant
            i <= n == keys@.len(),
            pairs@.len() == i,
            forall|j: int| 0 <= j < i ==> #[trigger] pairs@[j] == (keys@[j], j as usize),
        decreases n - i,
    {
        pairs.push((keys[i], i));
        i = i + 1;
    }
    let ghost before = pairs@;
    sort_pairs(&mut pairs);
    proof {
        assert(pairs@.len() == pairs@.to_multiset().len());
        assert(before.len() == before.to_multiset().len());
        assert forall|a: int| 0 <= a < pairs@.len() implies #[trigger] pairs@[a] == (
        keys@[pairs@[a].1 as int],
        pairs@[a].1,
        ) && pairs@[a].1 < n by {
            assert(pairs@.to_multiset().count(pairs@[a]) > 0);
            assert(before.to_multiset().count(pairs@[a]) > 0);
            assert(before.contains(pairs@[a]));
        }
        assert forall|j: usize| j < n implies #[trigger] pairs@.contains((keys@[j as int], j)) by {
            assert(before[j as int] == (keys@[j as int], j));
            assert(before.to_multiset().count(before[j as int]) > 0);
            assert(pairs@.to_multiset().count(before[j as int]) > 0);
        }
    }
    let mut r: Vec<usize> = Vec::new();
    let mut k: usize = 0;
    while k < pairs.len()
        invariant
            k <= pairs@.len(),
            pairs@.len() == n,
            r@.len() == k,
            forall|a: int| 0 <= a < k ==> #[trigger] r@[a] == pairs@[a].1,
        decreases pairs.len() - k,
    {
        r.push(pairs[k].1);
        k = k + 1;
    }
    proof {
        assert forall|i: usize| i < keys@.len() implies #[trigger] r@.contains(i) by {
            assert(pairs@.contains((keys@[i as int], i)));
            let a = choose|a: int| 0 <= a < pairs@.len() && #[trigger] pairs@[a] == (keys@[i as int], i);
            assert(r@[a] == i);
        }
        assert forall|a: int, b: int| 0 <= a < b < r@.len() implies key_index_lt(
            keys@[#[trigger] r@[a] as int],
            r@[a] as int,
            keys@[#[trigger] r@[b] as int],
            r@[b] as int,
        ) by {
            assert(pair_le(pairs@[a], pairs@[b]));
            assert(pairs@[a] == (keys@[pairs@[a].1 as int], pairs@[a].1));
            assert(pairs@[b] == (keys@[pairs@[b].1 as int], pairs@[b].1));
            if pairs@[a].1 == pairs@[b].1 {
                // two entries of one index would be two copies of one pair
                assert(before.to_multiset().count(pairs@[a]) <= 1) by {
                    lemma_distinct_count(before, pairs@[a]);
                }
                lemma_two_copies(pairs@, a, b);
            }
        }
    }
    r
}

/// In a sequence of pairs whose second parts are their positions, each pair
/// occurs at most once.
proof fn lemma_distinct_count(s: Seq<(i64, usize)>, x: (i64, usize))
    requires
        forall|j: int| 0 <= j < s.len() ==> (#[trigger] s[j]).1 == j,
    ensures
        s.to_multiset().count(x) <= 1,
    decreases s.len(),
{
    if s.len() > 0 {
        let t = s.drop_last();
        assert forall|j: int| 0 <= j < t.len() implies (#[trigger] t[j]).1 == j by {
            assert(t[j] == s[j]);
        }
        lemma_distinct_count(t, x);
        assert(s =~= t.push(s.last()));
        if s.last() == x {
            assert(!t.contains(x)) by {
                if t.contains(x) {
                    let j = choose|j: int| 0 <= j < t.len() && t[j] == x;
                    assert(t[j].1 == j);
                    assert(s.last().1 == s.len() - 1);
                }
            }
            assert(t.to_multiset().count(x) == 0);
        }
    }
}

/// A value at two positions of a sequence occurs at least twice.
proof fn lemma_two_copies(s: Seq<(i64, usize)>, a: int, b: int)
    requires
        0 <= a < b < s.len(),
        s[a] == s[b],
    ensures
        s.to_multiset().count(s[a]) >= 2,
    decreases s.len(),
{
    let t = s.drop_last();
    assert(s =~= t.push(s.last()));
    if b == s.len() - 1 {
        assert(t[a] == s[a]);
        assert(t.contains(s[a]));
        assert(t.to_multiset().count(s[a]) >= 1);
    } else {
        assert(t[a] == s[a] && t[b] == s[b]);
        lemma_two_copies(t, a, b);
    }
}


/// `s` with its element at `i` replaced by its last element, and the last
/// element dropped: what `Vec::swap_remove` leaves.
pub open spec fn swap_removed<T>(s: Seq<T>, i: int) -> Seq<T> {
    s.update(i, s.last()).drop_last()
}

/// The keys of the entries `ids` names, in the order of `ids`.
pub open spec fn keys_at(keys: Seq<i64>, ids: Seq<usize>) -> Seq<i64> {
    Seq::new(ids.len(), |p: int| keys[ids[p] as int])
}

/// The index of the last largest key of a non-empty sequence.
pub open spec fn last_max_index(keys: Seq<i64>) -> int
    decreases keys.len(),
{
    if keys.len() <= 1 {
        0
    } else {
        let k = last_max_index(keys.drop_last());
        if keys.last() >= keys[k] {
            keys.len() - 1
        } else {
            k
        }
    }
}

/// The index of the first smallest key of a non-empty sequence.
pub open spec fn first_min_index(keys: Seq<i64>) -> int
    decreases keys.len(),
{
    if keys.len() <= 1 {
        0
    } else {
        let k = first_min_index(keys.drop_last());
        if keys.last() < keys[k] {
            keys.len() - 1
        } else {
            k
        }
    }
}

pub proof fn lemma_last_max_index(keys: Seq<i64>)
    requires
        keys.len() > 0,
    ensures
        is_last_max(keys, last_max_index(keys)),
        forall|i: int| is_last_max(keys, i) ==> i == last_max_index(keys),
    decreases keys.len(),
{
    let m = last_max_index(keys);
    if keys.len() > 1 {
        let t = keys.drop_last();
        lemma_last_max_index(t);
        let k = last_max_index(t);
        assert forall|j: int| 0 <= j < keys.len() implies #[trigger] keys[j] <= keys[m] by {
            if j < keys.len() - 1 {
                assert(keys[j] == t[j]);
                assert(keys[k] == t[k]);
            }
        }
        assert forall|j: int| m < j < keys.len() implies #[trigger] keys[j] < keys[m] by {
            if j < keys.len() - 1 {
                assert(keys[j] == t[j]);
                assert(keys[k] == t[k]);
            }
        }
    }
    assert(is_last_max(keys, m));
    assert forall|i: int| is_last_max(keys, i) implies i == m by {
        if i < m {
            assert(keys[m] < keys[i]);
            assert(keys[i] <= keys[m]);
        } else if m < i {
            assert(keys[i] < keys[m]);
            assert(keys[m] <= keys[i]);
        }
    }
}

pub proof fn lemma_first_min_index(keys: Seq<i64>)
    requires
        keys.len() > 0,
    ensures
        is_first_min(keys, first_min_index(keys)),
        forall|i: int| is_first_min(keys, i) ==> i == first_min_index(keys),
    decreases keys.len(),
{
    let m = first_min_index(keys);
    if keys.len() > 1 {
        let t = keys.drop_last();
        lemma_first_min_index(t);
        let k = first_min_index(t);
        assert forall|j: int| 0 <= j < keys.len() implies keys[m] <= #[trigger] keys[j] by {
            if j < keys.len() - 1 {
                assert(keys[j] == t[j]);
                assert(keys[k] == t[k]);
            }
        }
        assert forall|j: int| 0 <= j < m implies keys[m] < #[trigger] keys[j] by {
            if j < keys.len() - 1 {
                assert(keys[j] == t[j]);
                assert(keys[k] == t[k]);
            }
        }
    }
    assert(is_first_min(keys, m));
    assert forall|i: int| is_first_min(keys, i) implies i == m by {
        if i < m {
            assert(keys[m] < keys[i]);
            assert(keys[i] <= keys[m]);
        } else if m < i {
            assert(keys[i] < keys[m]);
            assert(keys[m] <= keys[i]);
        }
    }
}

/// The indices `o` are in ascending order of key, and of index between
/// equal keys.
pub open spec fn key_sorted(keys: Seq<i64>, o: Seq<usize>) -> bool {
    forall|a: int, b: int|
        0 <= a < b < o.len() ==> key_index_lt(keys[#[trigger] o[a] as int], o[a] as int, keys[#[trigger] o[b] as int], o[b] as int)
}

/// `s` with `i` inserted before the first entry that comes after it.
spec fn inserted(keys: Seq<i64>, s: Seq<usize>, i: usize) -> Seq<usize>
    decreases s.len(),
{
    if s.len() == 0 {
        seq![i]
    } else if key_index_lt(keys[i as int], i as int, keys[s[0] as int], s[0] as int) {
        seq![i] + s
    } else {
        seq![s[0]] + inserted(keys, s.drop_first(), i)
    }
}

proof fn lemma_inserted(keys: Seq<i64>, s: Seq<usize>, i: usize)
    requires
        key_sorted(keys, s),
        !s.contains(i),
    ensures
        inserted(keys, s, i).len() == s.len() + 1,
        forall|x: usize| #[trigger] inserted(keys, s, i).contains(x) <==> (s.contains(x) || x == i),
        key_sorted(keys, inserted(keys, s, i)),
    decreases s.len(),
{
    let r = inserted(keys, s, i);
    if s.len() == 0 {
        assert forall|x: usize| #[trigger] r.contains(x) <==> (s.contains(x) || x == i) by {
            if r.contains(x) {
                let j = choose|j: int| 0 <= j < r.len() && r[j] == x;
            }
            if x == i {
                assert(r[0] == i);
            }
        }
    } else if key_index_lt(keys[i as int], i as int, keys[s[0] as int], s[0] as int) {
        assert forall|a: int, b: int| 0 <= a < b < r.len() implies key_index_lt(keys[#[trigger] r[a] as int], r[a] as int, keys[#[trigger] r[b] as int], r[b] as int) by {
            if a == 0 {
                assert(r[b] == s[b - 1]);
                if b - 1 > 0 {
                    assert(key_index_lt(keys[s[0] as int], s[0] as int, keys[s[b - 1] as int], s[b - 1] as int));
                }
            } else {
                assert(r[a] == s[a - 1] && r[b] == s[b - 1]);
            }
        }
        assert forall|x: usize| #[trigger] r.contains(x) <==> (s.contains(x) || x == i) by {
            if r.contains(x) {
                let j = choose|j: int| 0 <= j < r.len() && r[j] == x;
                if j > 0 {
                    assert(s[j - 1] == x);
                }
            }
            if s.contains(x) {
                let j = choose|j: int| 0 <= j < s.len() && s[j] == x;
                assert(r[j + 1] == x);
            }
            if x == i {
                assert(r[0] == i);
            }
        }
    } else {
        let rest = s.drop_first();
        assert(key_sorted(keys, rest)) by {
            assert forall|a: int, b: int| 0 <= a < b < rest.len() implies key_index_lt(keys[#[trigger] rest[a] as int], rest[a] as int, keys[#[trigger] rest[b] as int], rest[b] as int) by {
                assert(rest[a] == s[a + 1] && rest[b] == s[b + 1]);
            }
        }
        assert(!rest.contains(i)) by {
            if rest.contains(i) {
                let j = choose|j: int| 0 <= j < rest.len() && rest[j] == i;
                assert(s[j + 1] == i);
            }
        }
        lemma_inserted(keys, rest, i);
        let t = inserted(keys, rest, i);
        assert(r == seq![s[0]] + t);
        assert(s[0] != i) by {
            assert(s.contains(s[0]));
        }
        assert forall|b: int| 0 <= b < t.len() implies key_index_lt(keys[s[0] as int], s[0] as int, keys[#[trigger] t[b] as int], t[b] as int) by {
            assert(t.contains(t[b]));
            if t[b] == i {
            } else {
                assert(rest.contains(t[b]));
                let j = choose|j: int| 0 <= j < rest.len() && rest[j] == t[b];
                assert(s[j + 1] == t[b]);
            }
        }
        assert forall|a: int, b: int| 0 <= a < b < r.len() implies key_index_lt(keys[#[trigger] r[a] as int], r[a] as int, keys[#[trigger] r[b] as int], r[b] as int) by {
            assert(r[b] == t[b - 1]);
            if a > 0 {
                assert(r[a] == t[a - 1]);
            }
        }
        assert forall|x: usize| #[trigger] r.contains(x) <==> (s.contains(x) || x == i) by {
            if r.contains(x) {
                let j = choose|j: int| 0 <= j < r.len() && r[j] == x;
                if j > 0 {
                    assert(t[j - 1] == x);
                    assert(t.contains(x));
                    if rest.contains(x) {
                        let k = choose|k: int| 0 <= k < rest.len() && rest[k] == x;
                        assert(s[k + 1] == x);
                    }
                } else {
                    assert(s[0] == x);
                }
            }
            if s.contains(x) {
                let j = choose|j: int| 0 <= j < s.len() && s[j] == x;
                if j == 0 {
                    assert(r[0] == x);
                } else {
                    assert(rest[j - 1] == x);
                    assert(t.contains(x));
                    let k = choose|k: int| 0 <= k < t.len() && t[k] == x;
                    assert(r[k + 1] == x);
                }
            }
            if x == i {
                assert(t.contains(i));
                let k = choose|k: int| 0 <= k < t.len() && t[k] == i;
                assert(r[k + 1] == i);
            }
        }
    }
}

/// The indices below `n`, sorted by key and index.
spec fn sorted_upto(keys: Seq<i64>, n: nat) -> Seq<usize>
    decreases n,
{
    if n == 0 {
        seq![]
    } else {
        inserted(keys, sorted_upto(keys, (n - 1) as nat), (n - 1) as usize)
    }
}

proof fn lemma_sorted_upto(keys: Seq<i64>, n: nat)
    requires
        n <= usize::MAX,
    ensures
        sorted_upto(keys, n).len() == n,
        forall|x: usize| #[trigger] sorted_upto(keys, n).contains(x) <==> x < n,
        key_sorted(keys, sorted_upto(keys, n)),
    decreases n,
{
    if n > 0 {
        let m = (n - 1) as nat;
        lemma_sorted_upto(keys, m);
        assert(!sorted_upto(keys, m).contains(m as usize));
        lemma_inserted(keys, sorted_upto(keys, m), m as usize);
    }
}

/// Every sequence of keys that a `Vec` can hold has its stable order.
pub proof fn lemma_stable_order_exists(keys: Seq<i64>)
    requires
        keys.len() <= usize::MAX,
    ensures
        is_stable_order(keys, stable_order(keys)),
{
    let o = sorted_upto(keys, keys.len());
    lemma_sorted_upto(keys, keys.len());
    assert forall|a: int| 0 <= a < o.len() implies #[trigger] o[a] < keys.len() by {
        assert(o.contains(o[a]));
    }
    assert(is_stable_order(keys, o));
}

/// The stable order of the indices of `keys` (see [`is_stable_order`], which
/// holds of exactly one sequence).
pub open spec fn stable_order(keys: Seq<i64>) -> Seq<usize> {
    choose|o: Seq<usize>| is_stable_order(keys, o)
}

proof fn lemma_stable_orders_agree(keys: Seq<i64>, o1: Seq<usize>, o2: Seq<usize>, n: int)
    requires
        is_stable_order(keys, o1),
        is_stable_order(keys, o2),
        0 <= n <= o1.len(),
    ensures
        forall|b: int| 0 <= b < n ==> o1[b] == o2[b],
    decreases n,
{
    if n > 0 {
        let a = n - 1;
        lemma_stable_orders_agree(keys, o1, o2, a);
        let u = o1[a];
        let v = o2[a];
        if u != v {
            assert(o2.contains(u));
            assert(o1.contains(v));
            let b = choose|b: int| 0 <= b < o2.len() && o2[b] == u;
            let c = choose|c: int| 0 <= c < o1.len() && o1[c] == v;
            if b < a {
                assert(o1[b] == o2[b]);
                assert(key_index_lt(keys[o1[b] as int], o1[b] as int, keys[o1[a] as int], o1[a] as int));
            } else if c < a {
                assert(o1[c] == o2[c]);
                assert(key_index_lt(keys[o2[c] as int], o2[c] as int, keys[o2[a] as int], o2[a] as int));
            } else {
                assert(key_index_lt(keys[o2[a] as int], o2[a] as int, keys[o2[b] as int], o2[b] as int));
                assert(key_index_lt(keys[o1[a] as int], o1[a] as int, keys[o1[c] as int], o1[c] as int));
            }
        }
    }
}

/// At most one sequence is the stable order of `keys`.
pub proof fn lemma_stable_order_unique(keys: Seq<i64>, o1: Seq<usize>, o2: Seq<usize>)
    requires
        is_stable_order(keys, o1),
        is_stable_order(keys, o2),
    ensures
        o1 == o2,
{
    lemma_stable_orders_agree(keys, o1, o2, o1.len() as int);
    assert(o1 =~= o2);
}

/// The stable order of the indices of `keys`.
pub fn stable_sort_order(keys: &Vec<i64>) -> (r: Vec<usize>)
    ensures
        r@ == stable_order(keys@),
        is_stable_order(keys@, r@),
{
    let r = argsort(keys);
    proof {
        lemma_stable_order_unique(keys@, r@, stable_order(keys@));
    }
    r
}

/// The keys of the entries `ids` names.
pub fn select_keys(keys: &Vec<i64>, ids: &Vec<usize>) -> (r: Vec<i64>)
    requires
        forall|p: int| 0 <= p < ids@.len() ==> #[trigger] ids@[p] < keys@.len(),
    ensures
        r@ == keys_at(keys@, ids@),
{
    let mut r: Vec<i64> = Vec::new();
    let mut p: usize = 0;
    while p < ids.len()
        invariant
            p <= ids@.len(),
            forall|q: int| 0 <= q < ids@.len() ==> #[trigger] ids@[q] < keys@.len(),
            r@ =~= keys_at(keys@, ids@).take(p as int),
        decreases ids.len() - p,
    {
        r.push(keys[ids[p]]);
        p = p + 1;
    }
    assert(r@ =~= keys_at(keys@, ids@));
    r
}

/// The entries `ids` names after sorting them stably by their keys.
pub fn sorted_by_keys(keys: &Vec<i64>, ids: &Vec<usize>) -> (r: Vec<usize>)
    requires
        forall|p: int| 0 <= p < ids@.len() ==> #[trigger] ids@[p] < keys@.len(),
    ensures
        r@ == sorted_ids(keys@, ids@),
        r@.len() == ids@.len(),
        forall|a: int| 0 <= a < r@.len() ==> #[trigger] r@[a] < keys@.len(),
{
    let k = select_keys(keys, ids);
    let o = stable_sort_order(&k);
    let mut r: Vec<usize> = Vec::new();
    let mut a: usize = 0;
    while a < o.len()
        invariant
            a <= o@.len(),
            o@ == stable_order(keys_at(keys@, ids@)),
            is_stable_order(keys_at(keys@, ids@), o@),
            r@.len() == a,
            forall|q: int| 0 <= q < ids@.len() ==> #[trigger] ids@[q] < keys@.len(),
            forall|b: int| 0 <= b < a ==> #[trigger] r@[b] == ids@[o@[b] as int],
            forall|b: int| 0 <= b < a ==> #[trigger] r@[b] < keys@.len(),
        decreases o.len() - a,
    {
        r.push(ids[o[a]]);
        a = a + 1;
    }
    assert(r@ =~= sorted_ids(keys@, ids@));
    r
}


/// The indices `0, 1, ..., n - 1`.
pub open spec fn ids_upto(n: nat) -> Seq<usize> {
    Seq::new(n, |i: int| i as usize)
}

/// The indices `0, 1, ..., n - 1`.
pub fn identity_ids(n: usize) -> (r: Vec<usize>)
    ensures
        r@ == ids_upto(n as nat),
{
    let mut r: Vec<usize> = Vec::new();
    let mut i: usize = 0;
    while i < n
        invariant
            i <= n,
            r@ =~= ids_upto(n as nat).take(i as int),
        decreases n - i,
    {
        r.push(i);
        i = i + 1;
    }
    assert(r@ =~= ids_upto(n as nat));
    r
}

/// `items[ids[0]], items[ids[1]], ...`
pub open spec fn picked<A>(items: Seq<A>, ids: Seq<usize>) -> Seq<A> {
    Seq::new(ids.len(), |p: int| items[ids[p] as int])
}

/// `items[ids[0]], items[ids[1]], ...`
pub fn pick<A: Copy>(items: &Vec<A>, ids: &Vec<usize>) -> (r: Vec<A>)
    requires
        forall|p: int| 0 <= p < ids@.len() ==> #[trigger] ids@[p] < items@.len(),
    ensures
        r@ == picked(items@, ids@),
{
    let mut r: Vec<A> = Vec::new();
    let mut p: usize = 0;
    while p < ids.len()
        invariant
            p <= ids@.len(),
            forall|q: int| 0 <= q < ids@.len() ==> #[trigger] ids@[q] < items@.len(),
            r@ =~= picked(items@, ids@).take(p as int),
        decreases ids.len() - p,
    {
        r.push(items[ids[p]]);
        p = p + 1;
    }
    assert(r@ =~= picked(items@, ids@));
    r
}

/// `ids` permuted into the stable order of the keys of its entries.
pub open spec fn sorted_ids(keys: Seq<i64>, ids: Seq<usize>) -> Seq<usize> {
    picked(ids, stable_order(keys_at(keys, ids)))
}

/// Removing entry `i` the way `Vec::swap_remove` does leaves one entry
/// less, and every entry but that one.
pub proof fn lemma_swapped_bounds(s: Seq<usize>, i: int, n: nat)
    requires
        0 <= i < s.len(),
        forall|p: int| 0 <= p < s.len() ==> #[trigger] s[p] < n,
    ensures
        swap_removed(s, i).len() == s.len() - 1,
        forall|p: int| 0 <= p < swap_removed(s, i).len() ==> #[trigger] swap_removed(s, i)[p] < n,
        forall|x: usize| #[trigger] s.contains(x) <==> (x == s[i] || swap_removed(s, i).contains(x)),
{
    let t = swap_removed(s, i);
    assert forall|p: int| 0 <= p < t.len() implies #[trigger] t[p] < n by {
        if p == i {
            assert(t[p] == s[s.len() - 1]);
        } else {
            assert(t[p] == s[p]);
        }
    }
    assert forall|x: usize| #[trigger] s.contains(x) <==> (x == s[i] || t.contains(x)) by {
        if s.contains(x) && x != s[i] {
            let j = choose|j: int| 0 <= j < s.len() && s[j] == x;
            if j == s.len() - 1 {
                assert(t[i] == x);
            } else {
                assert(t[j] == x);
            }
        }
        if t.contains(x) {
            let j = choose|j: int| 0 <= j < t.len() && t[j] == x;
            if j == i {
                assert(s[s.len() - 1] == x);
            } else {
                assert(s[j] == x);
            }
        }
    }
}

/// `o` lists each index below `n` once.
pub open spec fn is_permutation(o: Seq<usize>, n: nat) -> bool {
    &&& o.len() == n
    &&& forall|a: int| 0 <= a < o.len() ==> #[trigger] o[a] < n
    &&& forall|i: usize| i < n ==> #[trigger] o.contains(i)
}

/// Sorting entries by their keys keeps them: the result holds the entries
/// of `ids`, each as often as `ids` does.
pub proof fn lemma_sorted_ids_permutes(keys: Seq<i64>, ids: Seq<usize>)
    requires
        ids.len() <= usize::MAX,
    ensures
        sorted_ids(keys, ids).len() == ids.len(),
        forall|x: usize| #[trigger] sorted_ids(keys, ids).contains(x) <==> ids.contains(x),
{
    let k = keys_at(keys, ids);
    lemma_stable_order_exists(k);
    let o = stable_order(k);
    let r = sorted_ids(keys, ids);
    assert forall|x: usize| #[trigger] r.contains(x) <==> ids.contains(x) by {
        if r.contains(x) {
            let p = choose|p: int| 0 <= p < r.len() && r[p] == x;
            assert(r[p] == ids[o[p] as int]);
        }
        if ids.contains(x) {
            let j = choose|j: int| 0 <= j < ids.len() && ids[j] == x;
            assert(o.contains(j as usize));
            let p = choose|p: int| 0 <= p < o.len() && o[p] == j as usize;
            assert(r[p] == x);
        }
    }
}

} // verus!

//! Stable ranking by descending integer keys.
//!
//! Scores are handed to the library as order-preserving integer keys; ranking
//! puts higher keys first and keeps the input order among equal keys.
use vstd::prelude::*;

verus! {

/// Item `i` comes before item `j`: a higher key, or an equal key and an
/// earlier position.
pub open spec fn ranks_before(keys: Seq<u64>, i: int, j: int) -> bool {
    keys[i] > keys[j] || (keys[i] == keys[j] && i < j)
}

/// `p` lists every index of `keys` exactly once, by descending key, equal
/// keys in their input order.
pub open spec fn is_rank_order(keys: Seq<u64>, p: Seq<usize>) -> bool {
    &&& p.len() == keys.len()
    &&& forall|k: int| 0 <= k < p.len() ==> (#[trigger] p[k] as int) < keys.len()
    &&& forall|x: int| 0 <= x < keys.len() ==> #[trigger] p.contains(x as usize)
    &&& forall|a: int, b: int|
        0 <= a < b < p.len() ==> ranks_before(keys, #[trigger] p[a] as int, #[trigger] p[b] as int)
}

/// The indices of `keys` by descending key; equal keys keep their order.
pub fn rank_order(keys: &Vec<u64>) -> (p: Vec<usize>)
    ensures
        is_rank_order(keys@, p@),
{
    let n = keys.len();
    let mut p: Vec<usize> = Vec::new();
    let mut i: usize = 0;
    while i < n
        invariant
            i <= n == keys.len(),
            p.len() == i,
            forall|k: int| 0 <= k < p.len() ==> (#[trigger] p@[k] as int) < i,
            forall|x: int| 0 <= x < i ==> #[trigger] p@.contains(x as usize),
            forall|a: int, b: int|
                0 <= a < b < p.len() ==> ranks_before(keys@, #[trigger] p@[a] as int, #[trigger] p@[b] as int),
        decreases n - i,
    {
        let key = keys[i];
        // Binary search for the first position whose item does not come
        // before item `i`.
        let mut lo: usize = 0;
        let mut hi: usize = p.len();
        while lo < hi
            invariant
                i < n == keys.len(),
                key == keys@[i as int],
                lo <= hi <= p.len() == i,
                forall|k: int| 0 <= k < p.len() ==> (#[trigger] p@[k] as int) < i,
                forall|a: int, b: int|
                    0 <= a < b < p.len() ==> ranks_before(keys@, #[trigger] p@[a] as int, #[trigger] p@[b] as int),
                forall|j: int| 0 <= j < lo ==> keys@[#[trigger] p@[j] as int] >= key,
                forall|j: int| hi <= j < p.len() ==> keys@[#[trigger] p@[j] as int] < key,
            decreases hi - lo,
        {
            let mid = lo + (hi - lo) / 2;
            if keys[p[mid]] >= key {
                assert forall|j: int| 0 <= j < mid + 1 implies keys@[#[trigger] p@[j] as int] >= key by {
                    if j < mid {
                        assert(ranks_before(keys@, p@[j] as int, p@[mid as int] as int));
                    }
                }
                lo = mid + 1;
            } else {
                assert forall|j: int| mid <= j < p.len() implies keys@[#[trigger] p@[j] as int] < key by {
                    if j > mid {
                        assert(ranks_before(keys@, p@[mid as int] as int, p@[j] as int));
                    }
                }
                hi = mid;
            }
        }
        let ghost old_p = p@;
        p.insert(lo, i);
        proof {
            assert(p@ == old_p.insert(lo as int, i));
            assert forall|k: int| 0 <= k < p.len() implies (#[trigger] p@[k] as int) < i + 1 by {
                if k < lo {
                    assert(p@[k] == old_p[k]);
                } else if k > lo {
                    assert(p@[k] == old_p[k - 1]);
                }
            }
            assert forall|x: int| 0 <= x < i + 1 implies #[trigger] p@.contains(x as usize) by {
                if x == i {
                    assert(p@[lo as int] == i);
                } else {
                    assert(old_p.contains(x as usize));
                    let k = choose|k: int| 0 <= k < old_p.len() && old_p[k] == x as usize;
                    if k < lo {
                        assert(p@[k] == old_p[k]);
                    } else {
                        assert(p@[k + 1] == old_p[k]);
                    }
                }
            }
            assert forall|a: int, b: int| 0 <= a < b < p.len() implies ranks_before(
                keys@,
                #[trigger] p@[a] as int,
                #[trigger] p@[b] as int,
            ) by {
                if b < lo {
                    assert(p@[a] == old_p[a] && p@[b] == old_p[b]);
                } else if b == lo {
                    assert(p@[a] == old_p[a]);
                } else if a < lo {
                    assert(p@[a] == old_p[a] && p@[b] == old_p[b - 1]);
                    assert(ranks_before(keys@, old_p[a] as int, old_p[b - 1] as int));
                } else if a == lo {
                    assert(p@[b] == old_p[b - 1]);
                } else {
                    assert(p@[a] == old_p[a - 1] && p@[b] == old_p[b - 1]);
                }
            }
        }
        i += 1;
    }
    p
}

/// In a rank order, the first entry comes before every other index.
proof fn lemma_first_is_least(keys: Seq<u64>, p: Seq<usize>, x: usize)
    requires
        p.len() > 0,
        forall|a: int, b: int|
            0 <= a < b < p.len() ==> ranks_before(keys, #[trigger] p[a] as int, #[trigger] p[b] as int),
        p.contains(x),
        x != p[0],
    ensures
        ranks_before(keys, p[0] as int, x as int),
{
    let k = choose|k: int| 0 <= k < p.len() && p[k] == x;
    assert(k != 0);
}

/// Two sequences that are sorted by `ranks_before` and hold the same
/// elements are equal.
proof fn lemma_sorted_same_elements(keys: Seq<u64>, p: Seq<usize>, q: Seq<usize>)
    requires
        forall|a: int, b: int|
            0 <= a < b < p.len() ==> ranks_before(keys, #[trigger] p[a] as int, #[trigger] p[b] as int),
        forall|a: int, b: int|
            0 <= a < b < q.len() ==> ranks_before(keys, #[trigger] q[a] as int, #[trigger] q[b] as int),
        forall|x: usize| p.contains(x) <==> q.contains(x),
    ensures
        p == q,
    decreases p.len(),
{
    if p.len() == 0 {
        if q.len() > 0 {
            assert(q.contains(q[0]));
        }
        assert(q.len() == 0);
    } else {
        assert(p.contains(p[0]));
        assert(q.len() > 0);
        assert(q.contains(q[0]));
        if p[0] != q[0] {
            lemma_first_is_least(keys, p, q[0]);
            lemma_first_is_least(keys, q, p[0]);
        }
        let p1 = p.drop_first();
        let q1 = q.drop_first();
        assert forall|a: int, b: int| 0 <= a < b < p1.len() implies ranks_before(
            keys,
            #[trigger] p1[a] as int,
            #[trigger] p1[b] as int,
        ) by {
            assert(p1[a] == p[a + 1] && p1[b] == p[b + 1]);
        }
        assert forall|a: int, b: int| 0 <= a < b < q1.len() implies ranks_before(
            keys,
            #[trigger] q1[a] as int,
            #[trigger] q1[b] as int,
        ) by {
            assert(q1[a] == q[a + 1] && q1[b] == q[b + 1]);
        }
        assert forall|x: usize| p1.contains(x) <==> q1.contains(x) by {
            if p1.contains(x) {
                let k = choose|k: int| 0 <= k < p1.len() && p1[k] == x;
                assert(p[k + 1] == x);
                assert(ranks_before(keys, p[0] as int, p[k + 1] as int));
                assert(q.contains(x));
                let j = choose|j: int| 0 <= j < q.len() && q[j] == x;
                assert(j != 0);
                assert(q1[j - 1] == x);
            }
            if q1.contains(x) {
                let k = choose|k: int| 0 <= k < q1.len() && q1[k] == x;
                assert(q[k + 1] == x);
                assert(ranks_before(keys, q[0] as int, q[k + 1] as int));
                assert(p.contains(x));
                let j = choose|j: int| 0 <= j < p.len() && p[j] == x;
                assert(j != 0);
                assert(p1[j - 1] == x);
            }
        }
        lemma_sorted_same_elements(keys, p1, q1);
        assert(p == seq![p[0]] + p1);
        assert(q == seq![q[0]] + q1);
    }
}

/// The rank order of a key sequence is unique: ranking is fully determined
/// by the keys, ties included.
pub proof fn lemma_rank_order_unique(keys: Seq<u64>, p: Seq<usize>, q: Seq<usize>)
    requires
        is_rank_order(keys, p),
        is_rank_order(keys, q),
    ensures
        p == q,
{
    assert forall|x: usize| p.contains(x) <==> q.contains(x) by {
        if p.contains(x) {
            let k = choose|k: int| 0 <= k < p.len() && p[k] == x;
            assert((p[k] as int) < keys.len());
            assert(q.contains((x as int) as usize));
        }
        if q.contains(x) {
            let k = choose|k: int| 0 <= k < q.len() && q[k] == x;
            assert((q[k] as int) < keys.len());
            assert(p.contains((x as int) as usize));
        }
    }
    lemma_sorted_same_elements(keys, p, q);
}

/// An integer that orders as an `f32` does, given its bit pattern: positive
/// values above the sign bit in increasing order, negative values below it
/// in decreasing magnitude (as `f32::total_cmp` orders them), with `-0.0`
/// placed with `+0.0`.
pub open spec fn similarity_order_key(bits: u32) -> u64 {
    if bits == 0x8000_0000u32 {
        0x8000_0000u64
    } else if bits > 0x8000_0000u32 {
        (0xffff_ffffu64 - bits) as u64
    } else {
        (bits + 0x8000_0000u64) as u64
    }
}

/// The ordering key of an `f32` similarity, given its bit pattern.
pub fn similarity_key(bits: u32) -> (k: u64)
    ensures
        k == similarity_order_key(bits),
{
    if bits == 0x8000_0000u32 {
        0x8000_0000u64
    } else if bits > 0x8000_0000u32 {
        0xffff_ffffu64 - bits as u64
    } else {
        bits as u64 + 0x8000_0000u64
    }
}

/// The indices of the `limit` highest keys (all of them when there are
/// fewer), by descending key, equal keys in their input order.
pub fn top_ranked(keys: &Vec<u64>, limit: usize) -> (r: Vec<usize>)
    ensures
        exists|p: Seq<usize>|
            is_rank_order(keys@, p) && r@ == (if limit < p.len() {
                p.take(limit as int)
            } else {
                p
            }),
{
    let mut p = rank_order(keys);
    let ghost full = p@;
    if limit < p.len() {
        p.truncate(limit);
    }
    assert(is_rank_order(keys@, full));
    p
}

/// The sign bit of an `f32` bit pattern is set.
pub open spec fn f32_negative(b: u32) -> bool {
    (b >> 31u32) == 1u32
}

/// The biased exponent field of an `f32` bit pattern.
pub open spec fn f32_exponent(b: u32) -> u32 {
    (b >> 23u32) & 0xffu32
}

/// The fraction field of an `f32` bit pattern.
pub open spec fn f32_fraction(b: u32) -> u32 {
    b & 0x7f_ffffu32
}

/// The bit pattern is a NaN: all exponent bits set and a non-zero fraction.
pub open spec fn f32_is_nan(b: u32) -> bool {
    f32_exponent(b) == 0xffu32 && f32_fraction(b) != 0u32
}

/// The bit pattern is `+0.0` or `-0.0`.
pub open spec fn f32_is_zero(b: u32) -> bool {
    f32_exponent(b) == 0u32 && f32_fraction(b) == 0u32
}

/// The magnitude of `a` is below that of `b`: a smaller exponent, or the same
/// exponent and a smaller fraction.
pub open spec fn f32_magnitude_below(a: u32, b: u32) -> bool {
    f32_exponent(a) < f32_exponent(b) || (f32_exponent(a) == f32_exponent(b) && f32_fraction(a)
        < f32_fraction(b))
}

/// The IEEE 754 order of two non-NaN `f32` values, read from their sign,
/// exponent and fraction: the two zeros are equal, a negative value lies
/// below a non-negative one, and values of one sign order by magnitude
/// (reversed for negative values).
pub open spec fn f32_below(a: u32, b: u32) -> bool {
    if f32_is_zero(a) && f32_is_zero(b) {
        false
    } else if f32_negative(a) != f32_negative(b) {
        f32_negative(a)
    } else if f32_negative(a) {
        f32_magnitude_below(b, a)
    } else {
        f32_magnitude_below(a, b)
    }
}

/// Similarity keys order exactly as the similarities: for non-NaN values,
/// one key is below another exactly when its value is below the other's,
/// and the two zeros get the same key. So ranking by descending key ranks
/// by descending similarity.
pub proof fn lemma_similarity_key_orders(a: u32, b: u32)
    by (bit_vector)
    requires
        !f32_is_nan(a),
        !f32_is_nan(b),
    ensures
        f32_below(a, b) <==> similarity_order_key(a) < similarity_order_key(b),
        f32_is_zero(a) && f32_is_zero(b) ==> similarity_order_key(a) == similarity_order_key(b),
{
}

} // verus!

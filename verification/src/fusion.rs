//! Reciprocal rank fusion.
//!
//! Several ranked lists of movie ids are fused into one ranking. Each id
//! scores `1 / (k + rank)` for every position at which a list holds it, summed
//! over all its positions. The library gathers, for every distinct id in
//! order of first appearance, the ranks at which it appears; the caller sums
//! the reciprocal scores and hands them back as order-preserving integer
//! keys, by which the library ranks the ids.
use vstd::prelude::*;
use crate::order::{is_rank_order, rank_order};
use std::collections::HashMap;

verus! {

/// The `(rank, id)` entries of one ranked list.
pub open spec fn ranked(list: Seq<usize>) -> Seq<(usize, usize)> {
    Seq::new(list.len(), |r: int| (r as usize, list[r]))
}

/// The `(rank, id)` entries of all lists, list after list.
pub open spec fn rank_entries(lists: Seq<Seq<usize>>) -> Seq<(usize, usize)>
    decreases lists.len(),
{
    if lists.len() == 0 {
        Seq::empty()
    } else {
        rank_entries(lists.drop_last()) + ranked(lists.last())
    }
}

/// The ids of a sequence of entries.
pub open spec fn entry_ids(entries: Seq<(usize, usize)>) -> Seq<usize> {
    entries.map_values(|e: (usize, usize)| e.1)
}

/// The distinct elements of `s`, in order of first appearance.
pub open spec fn first_seen(s: Seq<usize>) -> Seq<usize>
    decreases s.len(),
{
    if s.len() == 0 {
        Seq::empty()
    } else if s.drop_last().contains(s.last()) {
        first_seen(s.drop_last())
    } else {
        first_seen(s.drop_last()).push(s.last())
    }
}

/// The ranks at which `id` appears among the entries, in order.
pub open spec fn ranks_of(entries: Seq<(usize, usize)>, id: usize) -> Seq<usize>
    decreases entries.len(),
{
    if entries.len() == 0 {
        Seq::empty()
    } else if entries.last().1 == id {
        ranks_of(entries.drop_last(), id).push(entries.last().0)
    } else {
        ranks_of(entries.drop_last(), id)
    }
}

/// The ids of ranked lists as sequences.
pub open spec fn list_views(lists: Seq<Vec<usize>>) -> Seq<Seq<usize>> {
    lists.map_values(|l: Vec<usize>| l@)
}

/// The fusion groups of some ranked lists: every distinct id, in order of
/// first appearance, with the ranks at which the lists hold it.
pub open spec fn are_fusion_groups(
    lists: Seq<Seq<usize>>,
    ids: Seq<usize>,
    ranks: Seq<Seq<usize>>,
) -> bool {
    &&& ids == first_seen(entry_ids(rank_entries(lists)))
    &&& ranks.len() == ids.len()
    &&& forall|g: int| 0 <= g < ids.len() ==> #[trigger] ranks[g] == ranks_of(rank_entries(lists), ids[g])
}

/// `first_seen(s)` holds exactly the elements of `s`.
pub proof fn lemma_first_seen_contains(s: Seq<usize>, x: usize)
    ensures
        first_seen(s).contains(x) <==> s.contains(x),
    decreases s.len(),
{
    if s.len() > 0 {
        let p = s.drop_last();
        let y = s.last();
        lemma_first_seen_contains(p, x);
        assert(s == p.push(y));
        assert(s.contains(x) <==> (p.contains(x) || x == y)) by {
            if s.contains(x) {
                let k = choose|k: int| 0 <= k < s.len() && s[k] == x;
                if k < p.len() {
                    assert(p[k] == x);
                }
            }
            if p.contains(x) {
                let k = choose|k: int| 0 <= k < p.len() && p[k] == x;
                assert(s[k] == x);
            }
            if x == y {
                assert(s[s.len() - 1] == x);
            }
        }
        if !p.contains(y) {
            let f = first_seen(p);
            assert(first_seen(s) == f.push(y));
            assert(f.push(y).contains(x) <==> (f.contains(x) || x == y)) by {
                if f.push(y).contains(x) {
                    let k = choose|k: int| 0 <= k < f.len() + 1 && f.push(y)[k] == x;
                    if k < f.len() {
                        assert(f[k] == x);
                    }
                }
                if f.contains(x) {
                    let k = choose|k: int| 0 <= k < f.len() && f[k] == x;
                    assert(f.push(y)[k] == x);
                }
                if x == y {
                    assert(f.push(y)[f.len() as int] == x);
                }
            }
        }
    }
}

/// `first_seen(s)` holds no element twice.
pub proof fn lemma_first_seen_distinct(s: Seq<usize>)
    ensures
        first_seen(s).no_duplicates(),
    decreases s.len(),
{
    if s.len() > 0 {
        let p = s.drop_last();
        lemma_first_seen_distinct(p);
        if !p.contains(s.last()) {
            lemma_first_seen_contains(p, s.last());
            let f = first_seen(s);
            assert forall|i: int, j: int| 0 <= i < f.len() && 0 <= j < f.len() && i != j implies f[i]
                != f[j] by {
                if i == f.len() - 1 {
                    assert(first_seen(p)[j] == f[j]);
                } else if j == f.len() - 1 {
                    assert(first_seen(p)[i] == f[i]);
                } else {
                    assert(first_seen(p)[i] == f[i] && first_seen(p)[j] == f[j]);
                }
            }
        }
    }
}

/// An id that no entry holds has no ranks.
proof fn lemma_ranks_of_absent(entries: Seq<(usize, usize)>, id: usize)
    requires
        !entry_ids(entries).contains(id),
    ensures
        ranks_of(entries, id) == Seq::<usize>::empty(),
    decreases entries.len(),
{
    if entries.len() > 0 {
        let p = entries.drop_last();
        assert(entry_ids(entries)[entries.len() - 1] == entries.last().1);
        assert forall|k: int| 0 <= k < entry_ids(p).len() implies entry_ids(p)[k] != id by {
            assert(entry_ids(entries)[k] == entry_ids(p)[k]);
        }
        lemma_ranks_of_absent(p, id);
    }
}

/// Adding one entry to the fusion groups of `entries`.
proof fn lemma_groups_push(
    entries: Seq<(usize, usize)>,
    ids: Seq<usize>,
    ranks: Seq<Seq<usize>>,
    e: (usize, usize),
)
    requires
        ids == first_seen(entry_ids(entries)),
        ranks.len() == ids.len(),
        forall|g: int| 0 <= g < ids.len() ==> #[trigger] ranks[g] == ranks_of(entries, ids[g]),
    ensures
        ({
            let entries2 = entries.push(e);
            &&& entry_ids(entries2) == entry_ids(entries).push(e.1)
            &&& ids.contains(e.1) ==> first_seen(entry_ids(entries2)) == ids
            &&& !ids.contains(e.1) ==> first_seen(entry_ids(entries2)) == ids.push(e.1)
            &&& forall|x: usize| #[trigger]
                ranks_of(entries2, x) == if x == e.1 {
                    ranks_of(entries, x).push(e.0)
                } else {
                    ranks_of(entries, x)
                }
            &&& !ids.contains(e.1) ==> ranks_of(entries, e.1) == Seq::<usize>::empty()
        }),
{
    let entries2 = entries.push(e);
    assert(entry_ids(entries2) == entry_ids(entries).push(e.1));
    assert(entries2.drop_last() == entries);
    assert(entry_ids(entries2).drop_last() == entry_ids(entries));
    lemma_first_seen_contains(entry_ids(entries), e.1);
    if !ids.contains(e.1) {
        lemma_ranks_of_absent(entries, e.1);
    }
}

/// Gathers, for every distinct id of the ranked lists in order of first
/// appearance, the ranks at which the lists hold it (list after list, each
/// list by rank).
pub fn fusion_groups(lists: &Vec<Vec<usize>>) -> (r: (Vec<usize>, Vec<Vec<usize>>))
    ensures
        are_fusion_groups(list_views(lists@), r.0@, r.1@.map_values(|v: Vec<usize>| v@)),
{
    broadcast use vstd::std_specs::hash::group_hash_axioms;

    let ghost ls = list_views(lists@);
    let mut ids: Vec<usize> = Vec::new();
    let mut ranks: Vec<Vec<usize>> = Vec::new();
    // The group index of every id seen so far.
    let mut group_of: HashMap<usize, usize> = HashMap::new();
    let mut l: usize = 0;
    while l < lists.len()
        invariant
            l <= lists.len(),
            ls == list_views(lists@),
            ids@ == first_seen(entry_ids(rank_entries(ls.take(l as int)))),
            ranks.len() == ids.len(),
            forall|x: usize| group_of@.contains_key(x) <==> ids@.contains(x),
            forall|g: int| 0 <= g < ids.len() ==> #[trigger] group_of@[ids@[g]] == g,
            forall|g: int|
                0 <= g < ids.len() ==> #[trigger] ranks@[g]@ == ranks_of(
                    rank_entries(ls.take(l as int)),
                    ids@[g],
                ),
        decreases lists.len() - l,
    {
        let list = &lists[l];
        let ghost before = rank_entries(ls.take(l as int));
        assert(ls[l as int] == list@);
        let mut r: usize = 0;
        while r < list.len()
            invariant
                l < lists.len(),
                r <= list.len(),
                l < ls.len(),
                list@ == ls[l as int],
                ids@ == first_seen(entry_ids(before + ranked(list@).take(r as int))),
                ranks.len() == ids.len(),
                forall|x: usize| group_of@.contains_key(x) <==> ids@.contains(x),
                forall|g: int| 0 <= g < ids.len() ==> #[trigger] group_of@[ids@[g]] == g,
                forall|g: int|
                    0 <= g < ids.len() ==> #[trigger] ranks@[g]@ == ranks_of(
                        before + ranked(list@).take(r as int),
                        ids@[g],
                    ),
            decreases list.len() - r,
        {
            let id = list[r];
            let ghost cur = before + ranked(list@).take(r as int);
            let ghost e = (r, id);
            assert(before + ranked(list@).take(r + 1) == cur.push(e));
            proof {
                lemma_groups_push(cur, ids@, ranks@.map_values(|v: Vec<usize>| v@), e);
                lemma_first_seen_distinct(entry_ids(cur));
            }
            let found = group_of.get(&id);
            let g: usize = match found {
                Some(g) => *g,
                None => ids.len(),
            };
            proof {
                if g == ids.len() {
                    assert(!group_of@.contains_key(id));
                    assert(!ids@.contains(id));
                } else {
                    assert(group_of@.contains_key(id));
                    assert(ids@.contains(id));
                    let h = choose|h: int| 0 <= h < ids.len() && ids@[h] == id;
                    assert(group_of@[ids@[h]] == h);
                }
            }
            let ghost old_ranks = ranks@;
            if g < ids.len() {
                assert(ids@[g as int] == id);
                ranks[g].push(r);
                assert(ranks@[g as int]@ == old_ranks[g as int]@.push(r));
                assert(forall|h: int| 0 <= h < ranks.len() && h != g ==> ranks@[h] == old_ranks[h]);
                assert(ids@.contains(id));
                assert forall|h: int| 0 <= h < ids.len() implies #[trigger] ranks@[h]@ == ranks_of(
                    cur.push(e),
                    ids@[h],
                ) by {
                    assert(old_ranks.map_values(|v: Vec<usize>| v@)[h] == old_ranks[h]@);
                    assert(ranks_of(cur.push(e), ids@[h]) == if ids@[h] == e.1 {
                        ranks_of(cur, ids@[h]).push(e.0)
                    } else {
                        ranks_of(cur, ids@[h])
                    });
                    if h != g {
                        assert(ids@[h] != ids@[g as int]);
                    }
                }
            } else {
                assert(!ids@.contains(id));
                let ghost old_ids = ids@;
                group_of.insert(id, ids.len());
                ids.push(id);
                assert forall|x: usize| group_of@.contains_key(x) <==> ids@.contains(x) by {
                    if old_ids.contains(x) {
                        let h = choose|h: int| 0 <= h < old_ids.len() && old_ids[h] == x;
                        assert(ids@[h] == x);
                    }
                    if ids@.contains(x) && x != id {
                        let h = choose|h: int| 0 <= h < ids.len() && ids@[h] == x;
                        assert(h < old_ids.len());
                        assert(old_ids[h] == x);
                    }
                    if x == id {
                        assert(ids@[ids.len() - 1] == x);
                    }
                }
                assert forall|h: int| 0 <= h < ids.len() implies #[trigger] group_of@[ids@[h]] == h by {
                    if h < old_ids.len() {
                        assert(old_ids.contains(old_ids[h]));
                        assert(ids@[h] != id);
                    }
                }
                let mut fresh: Vec<usize> = Vec::new();
                fresh.push(r);
                ranks.push(fresh);
                assert forall|h: int| 0 <= h < ids.len() implies #[trigger] ranks@[h]@ == ranks_of(
                    cur.push(e),
                    ids@[h],
                ) by {
                    assert(ranks_of(cur.push(e), ids@[h]) == if ids@[h] == e.1 {
                        ranks_of(cur, ids@[h]).push(e.0)
                    } else {
                        ranks_of(cur, ids@[h])
                    });
                    if h < old_ids.len() {
                        assert(old_ranks.map_values(|v: Vec<usize>| v@)[h] == old_ranks[h]@);
                        assert(old_ids.contains(old_ids[h]));
                    } else {
                        assert(ranks_of(cur, id) == Seq::<usize>::empty());
                    }
                }
            }
            r += 1;
        }
        assert(ranked(list@).take(list.len() as int) == ranked(list@));
        assert(ls.take(l + 1).drop_last() == ls.take(l as int));
        assert(ls.take(l + 1).last() == list@);
        l += 1;
    }
    assert(ls.take(lists.len() as int) == ls);
    let ghost rv = ranks@.map_values(|v: Vec<usize>| v@);
    assert forall|g: int| 0 <= g < ids.len() implies #[trigger] rv[g] == ranks_of(rank_entries(ls), ids@[g]) by {
        assert(rv[g] == ranks@[g]@);
    }
    (ids, ranks)
}

/// The fused ranking: the ids by descending score key, ids with equal keys in
/// order of first appearance, each with its key.
pub fn fused_ranking(ids: &Vec<usize>, keys: &Vec<u64>) -> (r: Vec<(usize, u64)>)
    requires
        ids.len() == keys.len(),
    ensures
        exists|p: Seq<usize>|
            is_rank_order(keys@, p) && r@ == p.map_values(|i: usize| (ids@[i as int], keys@[i as int])),
{
    let p = rank_order(keys);
    let mut r: Vec<(usize, u64)> = Vec::new();
    let mut k: usize = 0;
    while k < p.len()
        invariant
            is_rank_order(keys@, p@),
            ids.len() == keys.len(),
            k <= p.len(),
            r@ == p@.take(k as int).map_values(|i: usize| (ids@[i as int], keys@[i as int])),
        decreases p.len() - k,
    {
        let i = p[k];
        r.push((ids[i], keys[i]));
        assert(p@.take(k + 1) == p@.take(k as int).push(i));
        k += 1;
    }
    assert(p@.take(p.len() as int) == p@);
    r
}

/// An id is among the entries of some lists exactly when one of the lists
/// holds it.
pub proof fn lemma_entry_ids_contains(lists: Seq<Seq<usize>>, x: usize)
    ensures
        entry_ids(rank_entries(lists)).contains(x) <==> exists|l: int|
            0 <= l < lists.len() && #[trigger] lists[l].contains(x),
    decreases lists.len(),
{
    if lists.len() > 0 {
        let p = lists.drop_last();
        let last = lists.last();
        lemma_entry_ids_contains(p, x);
        let a = entry_ids(rank_entries(p));
        let b = entry_ids(ranked(last));
        assert(entry_ids(rank_entries(lists)) == a + b);
        assert(b == last);
        if (a + b).contains(x) {
            let k = choose|k: int| 0 <= k < (a + b).len() && (a + b)[k] == x;
            if k < a.len() {
                assert(a[k] == x);
                let l = choose|l: int| 0 <= l < p.len() && #[trigger] p[l].contains(x);
                assert(lists[l] == p[l]);
            } else {
                assert(b[k - a.len()] == x);
                assert(lists[lists.len() - 1].contains(x));
            }
        }
        if exists|l: int| 0 <= l < lists.len() && #[trigger] lists[l].contains(x) {
            let l = choose|l: int| 0 <= l < lists.len() && #[trigger] lists[l].contains(x);
            if l < p.len() {
                assert(p[l] == lists[l]);
                let k = choose|k: int| 0 <= k < a.len() && a[k] == x;
                assert((a + b)[k] == x);
            } else {
                let k = choose|k: int| 0 <= k < b.len() && b[k] == x;
                assert((a + b)[a.len() + k] == x);
            }
        }
    }
}

/// Fusion deduplicates: every id occurs once in the fused groups, and the
/// fused ids are exactly the ids that some input list holds.
pub proof fn lemma_fusion_ids(lists: Seq<Seq<usize>>, ids: Seq<usize>, ranks: Seq<Seq<usize>>, x: usize)
    requires
        are_fusion_groups(lists, ids, ranks),
    ensures
        ids.no_duplicates(),
        ids.contains(x) <==> exists|l: int| 0 <= l < lists.len() && #[trigger] lists[l].contains(x),
{
    lemma_first_seen_distinct(entry_ids(rank_entries(lists)));
    lemma_first_seen_contains(entry_ids(rank_entries(lists)), x);
    lemma_entry_ids_contains(lists, x);
}

/// Every fused id has at least one rank: the ranks of a group are its
/// positions in the lists, and it has one.
pub proof fn lemma_fusion_ranks_nonempty(lists: Seq<Seq<usize>>, ids: Seq<usize>, ranks: Seq<Seq<usize>>, g: int)
    requires
        are_fusion_groups(lists, ids, ranks),
        0 <= g < ids.len(),
    ensures
        ranks[g].len() > 0,
{
    let e = rank_entries(lists);
    assert(ids.contains(ids[g]));
    lemma_first_seen_contains(entry_ids(e), ids[g]);
    lemma_ranks_present(e, ids[g]);
}

/// An id that some entry holds has a rank.
proof fn lemma_ranks_present(entries: Seq<(usize, usize)>, id: usize)
    requires
        entry_ids(entries).contains(id),
    ensures
        ranks_of(entries, id).len() > 0,
    decreases entries.len(),
{
    let p = entries.drop_last();
    if entries.last().1 != id {
        let k = choose|k: int| 0 <= k < entry_ids(entries).len() && entry_ids(entries)[k] == id;
        assert(k < entries.len() - 1);
        assert(entry_ids(p)[k] == id);
        lemma_ranks_present(p, id);
    }
}

} // verus!

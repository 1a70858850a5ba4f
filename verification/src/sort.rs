use vstd::multiset::Multiset;
use vstd::prelude::*;
use vstd::relations::{sorted_by, total_ordering};
use vstd::seq_lib::{lemma_multiset_commutative, lemma_sorted_unique};

verus! {

/// The order by which the registry's sorting function sorts its words.
pub open spec fn le_ord() -> spec_fn(u64, u64) -> bool {
    |x: u64, y: u64| x <= y
}

pub proof fn lemma_le_ord_total()
    ensures
        total_ordering(le_ord()),
{
}

/// The sorted rearrangement of a sequence of words: the unique sequence
/// that is sorted and carries the same multiset of elements.
pub open spec fn sort_model(s: Seq<u64>) -> Seq<u64> {
    s.sort_by(le_ord())
}

/// Inputs shorter than this are sorted in place rather than split
/// into recursive partitions.
pub const LOCAL_SORT_CUTOFF: usize = 200_000;

/// Splits a non-empty vector around its last element: everything at most
/// the pivot on the left, everything greater on the right.
pub fn partition(v: Vec<u64>) -> (r: (Vec<u64>, u64, Vec<u64>))
    requires
        v@.len() >= 1,
    ensures
        ({
            let (l, p, g) = r;
            &&& p == v@.last()
            &&& forall|i: int| 0 <= i < l@.len() ==> l@[i] <= p
            &&& forall|i: int| 0 <= i < g@.len() ==> g@[i] > p
            &&& l@.len() + g@.len() + 1 == v@.len()
            &&& l@.to_multiset().add(g@.to_multiset()) == v@.drop_last().to_multiset()
        }),
{
    broadcast use vstd::seq_lib::group_to_multiset_ensures;
    broadcast use vstd::multiset::group_multiset_axioms;

    let mut v = v;
    let p = match v.pop() {
        Some(p) => p,
        None => {
            proof {
                assert(false);
            }
            0
        },
    };
    let mut l: Vec<u64> = Vec::new();
    let mut g: Vec<u64> = Vec::new();
    let mut i: usize = 0;
    while i < v.len()
        invariant
            i <= v@.len(),
            forall|j: int| 0 <= j < l@.len() ==> l@[j] <= p,
            forall|j: int| 0 <= j < g@.len() ==> g@[j] > p,
            l@.len() + g@.len() == i,
            l@.to_multiset().add(g@.to_multiset()) == v@.take(i as int).to_multiset(),
        decreases v@.len() - i,
    {
        proof {
            assert(v@.take(i + 1 as int) =~= v@.take(i as int).push(v@[i as int]));
        }
        let ghost old_l = l@;
        let ghost old_g = g@;
        let ghost x = v@[i as int];
        if v[i] > p {
            g.push(v[i]);
            proof {
                vstd::seq_lib::to_multiset_build(old_g, x);
                assert(g@.to_multiset() == old_g.to_multiset().insert(x));
                assert(old_l.to_multiset().add(old_g.to_multiset().insert(x))
                    =~= old_l.to_multiset().add(old_g.to_multiset()).insert(x));
            }
        } else {
            l.push(v[i]);
            proof {
                vstd::seq_lib::to_multiset_build(old_l, x);
                assert(l@.to_multiset() == old_l.to_multiset().insert(x));
                assert(old_l.to_multiset().insert(x).add(old_g.to_multiset())
                    =~= old_l.to_multiset().add(old_g.to_multiset()).insert(x));
            }
        }
        proof {
            vstd::seq_lib::to_multiset_build(v@.take(i as int), x);
            assert(l@.to_multiset().add(g@.to_multiset()) == v@.take(i + 1 as int).to_multiset());
        }
        i = i + 1;
    }
    proof {
        assert(v@.take(v@.len() as int) =~= v@);
    }
    (l, p, g)
}

/// Places one word into an already sorted vector, keeping it sorted.
fn insert_in_order(out: &mut Vec<u64>, x: u64)
    requires
        sorted_by(old(out)@, le_ord()),
        old(out)@.len() < usize::MAX,
    ensures
        sorted_by(final(out)@, le_ord()),
        final(out)@.to_multiset() == old(out)@.to_multiset().insert(x),
        final(out)@.len() == old(out)@.len() + 1,
{
    broadcast use vstd::seq_lib::to_multiset_insert;

    let mut j: usize = 0;
    while j < out.len() && out[j] <= x
        invariant
            j <= out@.len(),
            forall|k: int| 0 <= k < j ==> le_ord()(out@[k], x),
        decreases out@.len() - j,
    {
        j = j + 1;
    }
    let ghost pre = out@;
    out.insert(j, x);
    proof {
        assert forall|a: int, b: int| 0 <= a < b < out@.len() implies le_ord()(
            out@[a],
            out@[b],
        ) by {
            if b < j {
                assert(le_ord()(pre[a], pre[b]));
            } else if a > j {
                assert(le_ord()(pre[a - 1], pre[b - 1]));
            } else if a < j && b == j {
                assert(le_ord()(pre[a], x));
            } else if a == j && b > j {
                // pre[j] > x, and pre is sorted past j.
                assert(!le_ord()(pre[j as int], x));
                if b - 1 > j {
                    assert(le_ord()(pre[j as int], pre[b - 1]));
                }
            } else if a < j && b > j {
                assert(le_ord()(pre[a], x));
                assert(!le_ord()(pre[j as int], x));
                if b - 1 > j {
                    assert(le_ord()(pre[j as int], pre[b - 1]));
                }
            }
        }
    }
}

/// Sorts a vector of words by repeated ordered insertion.
pub fn insertion_sort(v: Vec<u64>) -> (r: Vec<u64>)
    ensures
        r@ == sort_model(v@),
{
    broadcast use vstd::seq_lib::group_to_multiset_ensures;

    let mut out: Vec<u64> = Vec::new();
    let mut i: usize = 0;
    while i < v.len()
        invariant
            i <= v@.len(),
            sorted_by(out@, le_ord()),
            out@.len() == i,
            out@.to_multiset() == v@.take(i as int).to_multiset(),
        decreases v@.len() - i,
    {
        proof {
            assert(v@.take(i + 1 as int) =~= v@.take(i as int).push(v@[i as int]));
            vstd::seq_lib::to_multiset_build(v@.take(i as int), v@[i as int]);
        }
        insert_in_order(&mut out, v[i]);
        i = i + 1;
    }
    proof {
        assert(v@.take(v@.len() as int) =~= v@);
        lemma_le_ord_total();
        v@.lemma_sort_by_ensures(le_ord());
        lemma_sorted_unique(out@, sort_model(v@), le_ord());
    }
    out
}

/// Sorts by partitioning around a pivot and recursing, as the distributed
/// sorting workload does; small inputs fall back to ordered insertion.
pub fn local_quick_sort(v: Vec<u64>) -> (r: Vec<u64>)
    ensures
        r@ == sort_model(v@),
    decreases v@.len(),
{
    broadcast use vstd::seq_lib::group_to_multiset_ensures;
    broadcast use vstd::multiset::group_multiset_axioms;

    if v.len() < LOCAL_SORT_CUTOFF {
        return insertion_sort(v);
    }
    let ghost whole = v@;
    let (l, p, g) = partition(v);
    let ghost l0 = l@;
    let ghost g0 = g@;
    let mut l = local_quick_sort(l);
    let mut g = local_quick_sort(g);
    proof {
        lemma_le_ord_total();
        l0.lemma_sort_by_ensures(le_ord());
        g0.lemma_sort_by_ensures(le_ord());
    }
    let ghost ls = l@;
    let ghost gs = g@;
    let mut out = l;
    out.push(p);
    out.append(&mut g);
    proof {
        // Elements kept their bounds across sorting: same multiset, so
        // membership carries over.
        assert forall|i: int| 0 <= i < ls.len() implies ls[i] <= p by {
            assert(ls.to_multiset().contains(ls[i]));
            assert(l0.to_multiset().contains(ls[i]));
            assert(l0.contains(ls[i]));
        }
        assert forall|i: int| 0 <= i < gs.len() implies gs[i] > p by {
            assert(gs.to_multiset().contains(gs[i]));
            assert(g0.to_multiset().contains(gs[i]));
            assert(g0.contains(gs[i]));
        }
        assert(out@ =~= ls.push(p) + gs);
        assert forall|a: int, b: int| 0 <= a < b < out@.len() implies le_ord()(
            out@[a],
            out@[b],
        ) by {
            let n = ls.len() as int;
            if b <= n {
                if b < n {
                    assert(le_ord()(ls[a], ls[b]));
                } else {
                    assert(out@[b] == p);
                }
            } else if a >= n {
                if a > n {
                    assert(le_ord()(gs[a - n - 1], gs[b - n - 1]));
                } else {
                    assert(out@[b] == gs[b - n - 1]);
                }
            } else {
                assert(out@[a] == ls[a] && le_ord()(ls[a], p));
                assert(out@[b] == gs[b - n - 1] && p <= gs[b - n - 1]);
            }
        }
        // The multiset is exactly the input's.
        assert(ls.push(p) =~= ls + seq![p]);
        lemma_multiset_commutative(ls + seq![p], gs);
        lemma_multiset_commutative(ls, seq![p]);
        assert(seq![p].to_multiset() =~= Multiset::<u64>::empty().insert(p));
        assert(whole.drop_last().push(whole.last()) =~= whole);
        assert(out@.to_multiset() =~= whole.to_multiset());
        whole.lemma_sort_by_ensures(le_ord());
        lemma_sorted_unique(out@, sort_model(whole), le_ord());
    }
    out
}

} // verus!

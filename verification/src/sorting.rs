//! Stable descending sort of constellation points by magnitude, written as an
//! insertion sort whose recursive specification pins the exact output order:
//! of two points with equal magnitude, the earlier one stays first.

use vstd::prelude::*;

use crate::constellation::ConstellationPoint;

verus! {

use vstd::multiset::Multiset;

/// Inserts `p` before the first element whose magnitude does not exceed it,
/// so an earlier point precedes later points of equal magnitude.
pub open spec fn insert_desc(p: ConstellationPoint, s: Seq<ConstellationPoint>) -> Seq<
    ConstellationPoint,
>
    decreases s.len(),
{
    if s.len() == 0 {
        seq![p]
    } else if p.magnitude >= s[0].magnitude {
        seq![p] + s
    } else {
        seq![s[0]] + insert_desc(p, s.drop_first())
    }
}

/// The stable magnitude-descending sort: each element, from first to last,
/// inserted into the sorted remainder.
pub open spec fn sort_points_desc_spec(s: Seq<ConstellationPoint>) -> Seq<ConstellationPoint>
    decreases s.len(),
{
    if s.len() == 0 {
        Seq::empty()
    } else {
        insert_desc(s[0], sort_points_desc_spec(s.drop_first()))
    }
}

/// Sorting preserves the collection of points.
pub proof fn lemma_insert_desc_multiset(p: ConstellationPoint, s: Seq<ConstellationPoint>)
    ensures
        insert_desc(p, s).to_multiset() == s.to_multiset().insert(p),
    decreases s.len(),
{
    broadcast use vstd::seq_lib::group_to_multiset_ensures;

    if s.len() == 0 {
        assert(insert_desc(p, s) =~= Seq::empty().push(p));
        assert(Seq::<ConstellationPoint>::empty().push(p).to_multiset() == s.to_multiset().insert(
            p,
        ));
    } else if p.magnitude >= s[0].magnitude {
        assert(insert_desc(p, s) =~= seq![p] + s);
        assert((seq![p] + s) =~= s.insert(0, p));
        vstd::seq_lib::lemma_multiset_commutative(seq![p], s);
        assert(seq![p].to_multiset() == Multiset::<ConstellationPoint>::empty().insert(p)) by {
            assert(seq![p] =~= Seq::empty().push(p));
        }
        assert((seq![p] + s).to_multiset() =~= s.to_multiset().insert(p));
    } else {
        lemma_insert_desc_multiset(p, s.drop_first());
        vstd::seq_lib::lemma_multiset_commutative(seq![s[0]], insert_desc(p, s.drop_first()));
        assert(seq![s[0]].to_multiset() == Multiset::<ConstellationPoint>::empty().insert(s[0]))
            by {
            assert(seq![s[0]] =~= Seq::empty().push(s[0]));
        }
        assert(s =~= seq![s[0]] + s.drop_first());
        vstd::seq_lib::lemma_multiset_commutative(seq![s[0]], s.drop_first());
        assert(insert_desc(p, s).to_multiset() =~= s.to_multiset().insert(p));
    }
}

/// The sorted sequence holds exactly the input points.
pub proof fn lemma_sort_multiset(s: Seq<ConstellationPoint>)
    ensures
        sort_points_desc_spec(s).to_multiset() == s.to_multiset(),
    decreases s.len(),
{
    broadcast use vstd::seq_lib::group_to_multiset_ensures;

    if s.len() == 0 {
    } else {
        lemma_sort_multiset(s.drop_first());
        lemma_insert_desc_multiset(s[0], sort_points_desc_spec(s.drop_first()));
        assert(s =~= seq![s[0]] + s.drop_first());
        vstd::seq_lib::lemma_multiset_commutative(seq![s[0]], s.drop_first());
        assert(seq![s[0]].to_multiset() == Multiset::<ConstellationPoint>::empty().insert(s[0]))
            by {
            assert(seq![s[0]] =~= Seq::empty().push(s[0]));
        }
        assert(sort_points_desc_spec(s).to_multiset() =~= s.to_multiset());
    }
}

/// Every point of the sorted sequence comes from the input.
pub proof fn lemma_sort_contains(s: Seq<ConstellationPoint>, p: ConstellationPoint)
    requires
        sort_points_desc_spec(s).contains(p),
    ensures
        s.contains(p),
{
    broadcast use vstd::seq_lib::group_to_multiset_ensures;

    lemma_sort_multiset(s);
    assert(sort_points_desc_spec(s).to_multiset().count(p) > 0);
    assert(s.to_multiset().count(p) > 0);
}

/// Where `insert_desc` lands: before index `j` every magnitude exceeds `p`'s,
/// and `p` goes in at `j`.
proof fn lemma_insert_desc_at(p: ConstellationPoint, s: Seq<ConstellationPoint>, j: int)
    requires
        0 <= j <= s.len(),
        forall|k: int| 0 <= k < j ==> s[k].magnitude > p.magnitude,
        j < s.len() ==> p.magnitude >= s[j].magnitude,
    ensures
        insert_desc(p, s) == s.subrange(0, j) + seq![p] + s.subrange(j, s.len() as int),
    decreases j,
{
    if j == 0 {
        if s.len() == 0 {
            assert(insert_desc(p, s) =~= s.subrange(0, 0) + seq![p] + s.subrange(0, 0));
        } else {
            assert(insert_desc(p, s) =~= s.subrange(0, 0) + seq![p] + s.subrange(
                0,
                s.len() as int,
            ));
        }
    } else {
        let rest = s.drop_first();
        assert(forall|k: int| 0 <= k < j - 1 ==> rest[k].magnitude > p.magnitude);
        lemma_insert_desc_at(p, rest, j - 1);
        assert(insert_desc(p, s) == seq![s[0]] + insert_desc(p, rest));
        assert(seq![s[0]] + (rest.subrange(0, j - 1) + seq![p] + rest.subrange(
            j - 1,
            rest.len() as int,
        )) =~= s.subrange(0, j) + seq![p] + s.subrange(j, s.len() as int));
    }
}

/// Inserts one point into a sorted vector at its stable position.
fn insert_point_desc(out: Vec<ConstellationPoint>, p: ConstellationPoint) -> (r: Vec<
    ConstellationPoint,
>)
    ensures
        r@ == insert_desc(p, out@),
{
    let mut j: usize = 0;
    loop
        invariant_except_break
            j <= out@.len(),
            forall|k: int| 0 <= k < j ==> out@[k].magnitude > p.magnitude,
        ensures
            j <= out@.len(),
            forall|k: int| 0 <= k < j ==> out@[k].magnitude > p.magnitude,
            j < out@.len() ==> p.magnitude >= out@[j as int].magnitude,
        decreases out@.len() - j,
    {
        if j == out.len() {
            break ;
        }
        if out[j].magnitude <= p.magnitude {
            break ;
        }
        j = j + 1;
    }
    let ghost s = out@;
    let mut v = out;
    v.insert(j, p);
    proof {
        lemma_insert_desc_at(p, s, j as int);
        assert(s.insert(j as int, p) =~= s.subrange(0, j as int) + seq![p] + s.subrange(
            j as int,
            s.len() as int,
        ));
    }
    v
}

/// Sorts points by magnitude descending, keeping the input order of points
/// with equal magnitude.
pub fn sort_points_desc(pts: &Vec<ConstellationPoint>) -> (r: Vec<ConstellationPoint>)
    ensures
        r@ == sort_points_desc_spec(pts@),
{
    let mut out: Vec<ConstellationPoint> = Vec::new();
    let mut i: usize = pts.len();
    while i > 0
        invariant
            i <= pts@.len(),
            out@ == sort_points_desc_spec(pts@.subrange(i as int, pts@.len() as int)),
        decreases i,
    {
        i = i - 1;
        let ghost sub = pts@.subrange(i as int, pts@.len() as int);
        out = insert_point_desc(out, pts[i]);
        proof {
            assert(sub[0] == pts@[i as int]);
            assert(sub.drop_first() =~= pts@.subrange(i as int + 1, pts@.len() as int));
        }
    }
    proof {
        assert(pts@.subrange(0, pts@.len() as int) =~= pts@);
    }
    out
}

} // verus!

//! Clustering traditions by proximity (the discrete part of k-means).
//!
//! A cluster holds the indices of its member traditions. The assignment step
//! of k-means puts every tradition into the cluster whose centroid is nearest,
//! decided from the order keys of the distances of each tradition to each
//! centroid.

use vstd::prelude::*;

use crate::rank;
use crate::rank::first_min_index;

verus! {

/// A cluster of traditions around a centroid.
pub struct Cluster<P> {
    /// Centroid of the cluster.
    pub centroid: P,
    /// Indices of traditions in this cluster.
    pub members: Vec<usize>,
}

/// Result of a clustering operation.
pub struct ClusteringResult<P> {
    /// The clusters found.
    pub clusters: Vec<Cluster<P>>,
    /// Number of iterations performed.
    pub iterations: usize,
    /// Whether the algorithm converged.
    pub converged: bool,
}

/// The traditions, in increasing index order, whose nearest centroid is the
/// one of cluster `c`; `rows[i]` holds the keys of the distances of
/// tradition `i` to the centroids.
pub open spec fn members_of(rows: Seq<Vec<Option<u64>>>, c: int) -> Seq<usize>
    decreases rows.len(),
{
    if rows.len() == 0 {
        Seq::empty()
    } else {
        let rest = members_of(rows.drop_last(), c);
        if rank::is_first_min(rows.last()@, c) {
            rest.push((rows.len() - 1) as usize)
        } else {
            rest
        }
    }
}

/// `rows` holds, for each tradition, one distance key per centroid, and the
/// keys can be compared: with two or more centroids they are all numbers.
pub open spec fn valid_distances(rows: Seq<Vec<Option<u64>>>, k: int) -> bool {
    forall|i: int| 0 <= i < rows.len() ==> {
        &&& (#[trigger] rows[i]).len() == k
        &&& k < 2 || rank::all_numbers(rows[i]@)
    }
}

/// Membership in `members_of`: tradition `x` is listed for cluster `c`
/// exactly when cluster `c` is its first nearest centroid.
pub proof fn lemma_members_of_contains(rows: Seq<Vec<Option<u64>>>, c: int, x: usize)
    requires
        rows.len() <= usize::MAX,
    ensures
        members_of(rows, c).contains(x) <==> (x < rows.len() && rank::is_first_min(rows[x as int]@, c)),
    decreases rows.len(),
{
    if rows.len() == 0 {
        assert(!members_of(rows, c).contains(x));
    } else {
        let n = rows.len();
        let rest = rows.drop_last();
        let r = members_of(rest, c);
        lemma_members_of_contains(rest, c, x);
        if x < n - 1 {
            assert(rows[x as int] == rest[x as int]);
        }
        if rank::is_first_min(rows.last()@, c) {
            let s = r.push((n - 1) as usize);
            assert(members_of(rows, c) == s);
            if x == n - 1 {
                assert(s[r.len() as int] == x);
            } else {
                if s.contains(x) {
                    let k = choose|k: int| 0 <= k < s.len() && s[k] == x;
                    assert(k != r.len());
                    assert(r[k] == x);
                }
                if r.contains(x) {
                    let k = choose|k: int| 0 <= k < r.len() && r[k] == x;
                    assert(s[k] == x);
                }
            }
        } else {
            assert(members_of(rows, c) == r);
        }
    }
}

/// The assignment step partitions the traditions: with at least one cluster,
/// every tradition is a member of exactly one cluster.
pub proof fn lemma_assignment_partitions(rows: Seq<Vec<Option<u64>>>, k: int, x: usize)
    requires
        rows.len() <= usize::MAX,
        k >= 1,
        valid_distances(rows, k),
        x < rows.len(),
    ensures
        exists|c: int| 0 <= c < k && members_of(rows, c).contains(x),
        forall|c: int, d: int|
            0 <= c < k && 0 <= d < k && (#[trigger] members_of(rows, c)).contains(x)
                && (#[trigger] members_of(rows, d)).contains(x) ==> c == d,
{
    let row = rows[x as int]@;
    assert(rows[x as int].len() == k);
    rank::lemma_first_min_exists(row);
    let c = choose|i: int| rank::is_first_min(row, i);
    lemma_members_of_contains(rows, c, x);
    assert forall|c1: int, d: int|
        0 <= c1 < k && 0 <= d < k && (#[trigger] members_of(rows, c1)).contains(x)
            && (#[trigger] members_of(rows, d)).contains(x) implies c1 == d by {
        lemma_members_of_contains(rows, c1, x);
        lemma_members_of_contains(rows, d, x);
        rank::lemma_first_min_unique(row, c1, d);
    }
}

/// A tradition assigned to cluster `c` is numerically at least as close to
/// centroid `c` as to any other centroid, and strictly closer than to every
/// earlier one.
pub proof fn lemma_assigned_is_nearest(rows: Seq<Vec<Option<u64>>>, k: int, c: int, x: usize)
    requires
        rows.len() <= usize::MAX,
        k >= 2,
        valid_distances(rows, k),
        members_of(rows, c).contains(x),
    ensures
        x < rows.len(),
        0 <= c < k,
        forall|d: int| 0 <= d < k ==> rows[x as int]@[c]->0 <= (#[trigger] rows[x as int]@[d])->0,
        forall|d: int| 0 <= d < c ==> rows[x as int]@[c]->0 < (#[trigger] rows[x as int]@[d])->0,
{
    lemma_members_of_contains(rows, c, x);
    assert(rows[x as int].len() == k);
    rank::lemma_first_min_numeric(rows[x as int]@, c);
}

impl<P> Cluster<P> {
    /// Create an empty cluster at a centroid.
    pub fn new(centroid: P) -> (c: Self)
        ensures
            c.centroid == centroid,
            c.members@ == Seq::<usize>::empty(),
    {
        Cluster { centroid, members: Vec::new() }
    }

    /// Number of members.
    pub fn size(&self) -> (r: usize)
        ensures
            r == self.members@.len(),
    {
        self.members.len()
    }

    /// The most central member, given the order key of each member's distance
    /// to the centroid (one key per member, in member order): the first member
    /// with a minimal key, or `None` for an empty cluster.
    pub fn representative_by_key(&self, keys: &Vec<Option<u64>>) -> (r: Option<usize>)
        requires
            keys.len() == self.members.len(),
            keys.len() < 2 || rank::all_numbers(keys@),
        ensures
            r is None <==> self.members@.len() == 0,
            r matches Some(t) ==> exists|p: int| rank::is_first_min(keys@, p) && t == self.members@[p],
            r matches Some(t) ==> exists|p: int|
                0 <= p < keys.len() && t == self.members@[p] && (keys.len() >= 2 ==> forall|j: int|
                    0 <= j < keys.len() ==> keys@[p]->0 <= (#[trigger] keys@[j])->0),
    {
        match first_min_index(keys) {
            None => None,
            Some(p) => {
                assert(keys.len() >= 2 ==> forall|j: int|
                    0 <= j < keys.len() ==> keys@[p as int]->0 <= (#[trigger] keys@[j])->0);
                Some(self.members[p])
            },
        }
    }
}

/// The assignment step of k-means: clears every cluster's members, then adds
/// each tradition, in index order, to the first cluster whose centroid is at
/// minimal distance. Centroids are left as they are.
pub fn assign_members<P>(clusters: &mut Vec<Cluster<P>>, dist: &Vec<Vec<Option<u64>>>)
    requires
        valid_distances(dist@, old(clusters).len() as int),
    ensures
        final(clusters).len() == old(clusters).len(),
        forall|c: int| 0 <= c < final(clusters).len() ==> {
            &&& (#[trigger] final(clusters)@[c]).centroid == old(clusters)@[c].centroid
            &&& final(clusters)@[c].members@ == members_of(dist@, c)
        },
{
    let k = clusters.len();
    let mut c: usize = 0;
    while c < k
        invariant
            c <= k,
            clusters.len() == k,
            forall|d: int| 0 <= d < k ==> (#[trigger] clusters@[d]).centroid == old(clusters)@[d].centroid,
            forall|d: int| 0 <= d < c ==> (#[trigger] clusters@[d]).members@ == Seq::<usize>::empty(),
        decreases k - c,
    {
        clusters[c].members.clear();
        c += 1;
    }
    let mut i: usize = 0;
    while i < dist.len()
        invariant
            i <= dist.len(),
            clusters.len() == k,
            valid_distances(dist@, k as int),
            forall|d: int| 0 <= d < k ==> (#[trigger] clusters@[d]).centroid == old(clusters)@[d].centroid,
            forall|d: int| 0 <= d < k ==> (#[trigger] clusters@[d]).members@ == members_of(dist@.take(i as int), d),
        decreases dist.len() - i,
    {
        assert(dist@.take(i + 1).drop_last() =~= dist@.take(i as int));
        assert(dist@[i as int].len() == k);
        let ghost before = clusters@;
        match first_min_index(&dist[i]) {
            None => {
                assert forall|d: int| 0 <= d < k implies (#[trigger] clusters@[d]).members@
                    == members_of(dist@.take(i + 1), d) by {
                    assert(!rank::is_first_min(dist@[i as int]@, d));
                }
            },
            Some(best) => {
                clusters[best].members.push(i);
                assert forall|d: int| 0 <= d < k implies (#[trigger] clusters@[d]).members@
                    == members_of(dist@.take(i + 1), d) by {
                    if d != best {
                        if rank::is_first_min(dist@[i as int]@, d) {
                            rank::lemma_first_min_unique(dist@[i as int]@, d, best as int);
                        }
                        assert(clusters@[d] == before[d]);
                    }
                }
            },
        }
        i += 1;
    }
    assert(dist@.take(dist.len() as int) =~= dist@);
}

} // verus!

use vstd::prelude::*;

use crate::random::choose_from;
use crate::random::choose_list_mut;
use crate::random::random_u32_in;
use crate::world::world::TargetInfo;

verus! {

/// One level of the dungeon: the warps by which it is left.
pub struct Level {
    exits: Vec<TargetInfo>,
}

/// The pair with its smaller element first.
pub fn sort_pair(p: (u32, u32)) -> (r: (u32, u32))
    ensures
        r.0 <= r.1,
        (r == p) || (r == (p.1, p.0)),
        p.0 < p.1 ==> r == p,
{
    if p.0 < p.1 {
        p
    } else {
        (p.1, p.0)
    }
}

/// The pair with its smaller element first.
pub open spec fn ordered(p: (u32, u32)) -> (u32, u32) {
    if p.0 < p.1 {
        p
    } else {
        (p.1, p.0)
    }
}

/// The link between the `i`-th map of a cluster and the one after it.
pub open spec fn link_of(cluster: Seq<u32>, i: int) -> (u32, u32) {
    ordered((cluster[i], cluster[i + 1]))
}

/// Whether `q` links one of the first `n` maps of the cluster to the next.
pub open spec fn chain_links(cluster: Seq<u32>, n: int, q: (u32, u32)) -> bool {
    exists|i: int| 0 <= i < n && i + 1 < cluster.len() && #[trigger] link_of(cluster, i) == q
}

/// Whether `q` links two neighbours in one of the first `n` clusters.
pub open spec fn cluster_link(clusters: Seq<Vec<u32>>, n: int, q: (u32, u32)) -> bool {
    exists|c: int|
        0 <= c < n && c < clusters.len() && #[trigger] chain_links(
            clusters[c]@,
            clusters[c]@.len() as int,
            q,
        )
}

/// Whether `q` is one of the first `n` extra links, between two different
/// maps.
pub open spec fn extra_link(extra: Seq<(u32, u32)>, n: int, q: (u32, u32)) -> bool {
    exists|j: int| 0 <= j < n && #[trigger] extra[j].0 != extra[j].1 && ordered(extra[j]) == q
}

/// Adds a link unless it is there already.
fn insert_link(links: &mut Vec<(u32, u32)>, q: (u32, u32))
    requires
        old(links)@.no_duplicates(),
    ensures
        final(links)@.no_duplicates(),
        forall|x: (u32, u32)| #[trigger]
            final(links)@.contains(x) <==> old(links)@.contains(x) || x == q,
{
    let mut i: usize = 0;
    let mut found = false;
    while i < links.len()
        invariant
            i <= links@.len(),
            found <==> exists|j: int| 0 <= j < i && links@[j] == q,
        decreases links@.len() - i,
    {
        if links[i].0 == q.0 && links[i].1 == q.1 {
            found = true;
        }
        i += 1;
    }
    if !found {
        proof {
            assert(!links@.contains(q));
        }
        links.push(q);
        proof {
            assert forall|x: (u32, u32)| #[trigger]
                links@.contains(x) <==> old(links)@.contains(x) || x == q by {
                if old(links)@.contains(x) {
                    let j = old(links)@.index_of(x);
                    assert(links@[j] == x);
                }
                if x == q {
                    assert(links@[links@.len() - 1] == q);
                }
            }
        }
    }
}

/// The links between the maps of a level: each map of a cluster is linked
/// to the next one of that cluster, and each extra pair of two different
/// maps is linked too. Every link has its smaller map first and comes once.
pub fn cluster_connections(clusters: &Vec<Vec<u32>>, extra: &Vec<(u32, u32)>) -> (r: Vec<
    (u32, u32),
>)
    ensures
        r@.no_duplicates(),
        forall|q: (u32, u32)| #[trigger]
            r@.contains(q) <==> cluster_link(clusters@, clusters@.len() as int, q) || extra_link(
                extra@,
                extra@.len() as int,
                q,
            ),
{
    let mut links: Vec<(u32, u32)> = Vec::new();
    let mut c: usize = 0;
    while c < clusters.len()
        invariant
            c <= clusters@.len(),
            links@.no_duplicates(),
            forall|q: (u32, u32)| #[trigger]
                links@.contains(q) <==> cluster_link(clusters@, c as int, q),
        decreases clusters@.len() - c,
    {
        let cluster: &Vec<u32> = &clusters[c];
        let mut i: usize = 0;
        while i < cluster.len() && i + 1 < cluster.len()
            invariant
                c < clusters@.len(),
                cluster == clusters@[c as int],
                i + 1 <= cluster@.len() || i == 0,
                links@.no_duplicates(),
                forall|q: (u32, u32)| #[trigger]
                    links@.contains(q) <==> cluster_link(clusters@, c as int, q) || chain_links(
                        cluster@,
                        i as int,
                        q,
                    ),
            decreases cluster@.len() - i,
        {
            let q = sort_pair((cluster[i], cluster[i + 1]));
            proof {
                assert(q == link_of(cluster@, i as int));
            }
            insert_link(&mut links, q);
            proof {
                assert forall|x: (u32, u32)| #[trigger]
                    links@.contains(x) <==> cluster_link(clusters@, c as int, x) || chain_links(
                        cluster@,
                        i + 1,
                        x,
                    ) by {
                    if chain_links(cluster@, i + 1, x) && x != q {
                        let k = choose|k: int|
                            0 <= k < i + 1 && k + 1 < cluster@.len() && #[trigger] link_of(
                                cluster@,
                                k,
                            ) == x;
                        assert(k < i);
                    }
                }
            }
            i += 1;
        }
        proof {
            assert forall|x: (u32, u32)| #[trigger]
                links@.contains(x) <==> cluster_link(clusters@, c + 1, x) by {
                if chain_links(cluster@, i as int, x) {
                    assert(chain_links(clusters@[c as int]@, clusters@[c as int]@.len() as int, x));
                }
                if cluster_link(clusters@, c + 1, x) && !cluster_link(clusters@, c as int, x) {
                    let d = choose|d: int|
                        0 <= d < c + 1 && d < clusters@.len() && #[trigger] chain_links(
                            clusters@[d]@,
                            clusters@[d]@.len() as int,
                            x,
                        );
                    assert(d == c);
                    let k = choose|k: int|
                        0 <= k < cluster@.len() && k + 1 < cluster@.len() && #[trigger] link_of(
                            cluster@,
                            k,
                        ) == x;
                    assert(chain_links(cluster@, i as int, x));
                }
            }
        }
        c += 1;
    }
    let mut j: usize = 0;
    while j < extra.len()
        invariant
            j <= extra@.len(),
            links@.no_duplicates(),
            forall|q: (u32, u32)| #[trigger]
                links@.contains(q) <==> cluster_link(clusters@, clusters@.len() as int, q)
                    || extra_link(extra@, j as int, q),
        decreases extra@.len() - j,
    {
        let p = extra[j];
        if p.0 != p.1 {
            insert_link(&mut links, sort_pair(p));
        }
        proof {
            assert forall|x: (u32, u32)| #[trigger]
                links@.contains(x) <==> cluster_link(clusters@, clusters@.len() as int, x)
                    || extra_link(extra@, j + 1, x) by {
                if extra_link(extra@, j + 1, x) {
                    let k = choose|k: int|
                        0 <= k < j + 1 && #[trigger] extra@[k].0 != extra@[k].1 && ordered(
                            extra@[k],
                        ) == x;
                    if k < j {
                        assert(extra_link(extra@, j as int, x));
                    } else {
                        assert(extra@[k] == p);
                    }
                }
                if extra_link(extra@, j as int, x) {
                    let k = choose|k: int|
                        0 <= k < j && #[trigger] extra@[k].0 != extra@[k].1 && ordered(extra@[k])
                            == x;
                    assert(extra_link(extra@, j + 1, x));
                }
                if p.0 != p.1 && x == ordered(p) {
                    assert(extra@[j as int] == p);
                    assert(extra_link(extra@, j + 1, x));
                }
            }
        }
        j += 1;
    }
    links
}

/// Whether every id of the clusters lies in `first_id .. end`, and each
/// cluster lists its ids in increasing order.
pub open spec fn ordered_within(clusters: Seq<Vec<u32>>, first_id: int, end: int) -> bool {
    &&& forall|c: int, i: int|
        0 <= c < clusters.len() && 0 <= i < clusters[c]@.len() ==> first_id <= #[trigger] clusters[c]@[i]
            < end
    &&& forall|c: int, i: int, j: int|
        0 <= c < clusters.len() && 0 <= i < j < clusters[c]@.len() ==> #[trigger] clusters[c]@[i]
            < #[trigger] clusters[c]@[j]
}

/// Whether one of the clusters holds `id`.
pub open spec fn in_some(clusters: Seq<Vec<u32>>, id: u32) -> bool {
    exists|c: int| 0 <= c < clusters.len() && #[trigger] clusters[c]@.contains(id)
}

/// Whether each id of `first_id .. end` lies in exactly one of the clusters.
pub open spec fn each_once(clusters: Seq<Vec<u32>>, first_id: int, end: int) -> bool {
    &&& forall|id: u32| first_id <= id < end ==> #[trigger] in_some(clusters, id)
    &&& forall|c: int, d: int, id: u32|
        0 <= c < clusters.len() && 0 <= d < clusters.len() && c != d && #[trigger] clusters[c]@.contains(id)
            ==> !#[trigger] clusters[d]@.contains(id)
}

/// Spreads the map ids `first_id .. first_id + map_count` over
/// `cluster_count` clusters: each id in turn goes to a cluster picked at
/// random. Every id lands in exactly one cluster, and each cluster lists its
/// ids in increasing order; which cluster gets which id is left to chance.
pub fn assign_clusters(map_count: u32, cluster_count: u32, first_id: u32) -> (r: Vec<Vec<u32>>)
    requires
        1 <= cluster_count,
        first_id + map_count <= u32::MAX,
    ensures
        r@.len() == cluster_count,
        ordered_within(r@, first_id as int, first_id + map_count),
        each_once(r@, first_id as int, first_id + map_count),
{
    let mut clusters: Vec<Vec<u32>> = Vec::new();
    let mut k: u32 = 0;
    while k < cluster_count
        invariant
            k <= cluster_count,
            clusters@.len() == k,
            forall|c: int| 0 <= c < k ==> (#[trigger] clusters@[c])@.len() == 0,
        decreases cluster_count - k,
    {
        clusters.push(Vec::new());
        k += 1;
    }
    let mut i: u32 = 0;
    while i < map_count
        invariant
            i <= map_count,
            first_id + map_count <= u32::MAX,
            clusters@.len() == cluster_count,
            cluster_count >= 1,
            ordered_within(clusters@, first_id as int, first_id + i),
            each_once(clusters@, first_id as int, first_id + i),
        decreases map_count - i,
    {
        let id = first_id + i;
        let ghost before = clusters@;
        let cluster = choose_list_mut(&mut clusters);
        let ghost cur = *cluster;
        proof {
            assert(exists|c0: int| 0 <= c0 < before.len() && cur == before[c0]);
        }
        cluster.push(id);
        proof {
            assert(cluster@ == cur@.push(id));
        }
        let ghost after = *cluster;
        proof {
            let c0 = choose|c0: int|
                0 <= c0 < before.len() && cur == before[c0] && clusters@ == before.update(c0, after);
            assert(clusters@[c0]@ == cur@.push(id));
            assert(clusters@[c0]@[clusters@[c0]@.len() - 1] == id);
            assert(clusters@[c0]@.contains(id));
            assert(in_some(clusters@, id));
            assert forall|x: u32|
                first_id <= x < first_id + i + 1 implies #[trigger] in_some(clusters@, x) by {
                if x != id {
                    assert(in_some(before, x));
                    let c = choose|c: int| 0 <= c < before.len() && #[trigger] before[c]@.contains(x);
                    let j = before[c]@.index_of(x);
                    assert(clusters@[c]@[j] == x);
                    assert(clusters@[c]@.contains(x));
                }
            }
            assert forall|c: int, d: int, x: u32|
                0 <= c < clusters@.len() && 0 <= d < clusters@.len() && c != d
                    && #[trigger] clusters@[c]@.contains(x) implies !#[trigger] clusters@[d]@.contains(
                x,
            ) by {
                if clusters@[d]@.contains(x) {
                    if x == id {
                        let e = if c == c0 {
                            d
                        } else {
                            c
                        };
                        assert(e != c0);
                        assert(clusters@[e] == before[e]);
                        let j = clusters@[e]@.index_of(x);
                        assert(before[e]@[j] == x);
                        assert(before[e]@[j] < first_id + i);
                    } else {
                        let jc = clusters@[c]@.index_of(x);
                        let jd = clusters@[d]@.index_of(x);
                        assert(jc < before[c]@.len()) by {
                            if c == c0 {
                                assert(clusters@[c]@[clusters@[c]@.len() - 1] == id);
                            }
                        }
                        assert(jd < before[d]@.len()) by {
                            if d == c0 {
                                assert(clusters@[d]@[clusters@[d]@.len() - 1] == id);
                            }
                        }
                        assert(before[c]@[jc] == x);
                        assert(before[d]@[jd] == x);
                        assert(before[c]@.contains(x));
                        assert(before[d]@.contains(x));
                    }
                }
            }
        }
        i += 1;
    }
    clusters
}

/// In an increasing list of ids from `lo` on, the `i`-th id is at least
/// `lo + i`, so such a list of ids below `hi` has at most `hi - lo` of them.
proof fn lemma_increasing_len(s: Seq<u32>, lo: int, hi: int)
    requires
        forall|i: int| 0 <= i < s.len() ==> lo <= #[trigger] s[i] < hi,
        forall|i: int, j: int| 0 <= i < j < s.len() ==> #[trigger] s[i] < #[trigger] s[j],
    ensures
        forall|i: int| 0 <= i < s.len() ==> #[trigger] s[i] >= lo + i,
        s.len() <= hi - lo || s.len() == 0,
    decreases s.len(),
{
    if s.len() > 0 {
        let front = s.drop_last();
        assert forall|i: int, j: int| 0 <= i < j < front.len() implies #[trigger] front[i]
            < #[trigger] front[j] by {
            assert(front[i] == s[i] && front[j] == s[j]);
        }
        assert forall|i: int| 0 <= i < front.len() implies lo <= #[trigger] front[i] < hi by {
            assert(front[i] == s[i]);
        }
        lemma_increasing_len(front, lo, hi);
        assert forall|i: int| 0 <= i < s.len() implies #[trigger] s[i] >= lo + i by {
            if i < front.len() {
                assert(front[i] == s[i]);
            } else if i > 0 {
                assert(front[i - 1] == s[i - 1]);
                assert(s[i - 1] < s[i]);
            }
        }
        assert(s[s.len() - 1] >= lo + s.len() - 1);
    }
}

/// An increasing list of ids from `lo .. hi` that holds every one of them
/// is `lo, lo + 1, ..` up to `k`.
proof fn lemma_full_range_prefix(s: Seq<u32>, lo: int, hi: int, k: int)
    requires
        0 <= k < s.len(),
        0 <= lo,
        forall|i: int| 0 <= i < s.len() ==> lo <= #[trigger] s[i] < hi,
        forall|i: int, j: int| 0 <= i < j < s.len() ==> #[trigger] s[i] < #[trigger] s[j],
        forall|id: u32| lo <= id < hi ==> #[trigger] s.contains(id),
    ensures
        s[k] == lo + k,
    decreases k,
{
    lemma_increasing_len(s, lo, hi);
    assert(s[k] >= lo + k);
    let v = (lo + k) as u32;
    assert(s.contains(v));
    let m = s.index_of(v);
    if k > 0 {
        lemma_full_range_prefix(s, lo, hi, k - 1);
        if m < k {
            if m < k - 1 {
                assert(s[m] < s[k - 1]);
            }
        }
    }
    if m > k {
        assert(s[k] < s[m]);
    }
}

/// An increasing list of ids from `lo .. hi` that holds every one of them
/// is exactly `lo, lo + 1, .., hi - 1`.
proof fn lemma_full_range(s: Seq<u32>, lo: int, hi: int)
    requires
        0 <= lo < hi <= u32::MAX + 1,
        forall|i: int| 0 <= i < s.len() ==> lo <= #[trigger] s[i] < hi,
        forall|i: int, j: int| 0 <= i < j < s.len() ==> #[trigger] s[i] < #[trigger] s[j],
        forall|id: u32| lo <= id < hi ==> #[trigger] s.contains(id),
    ensures
        s.len() == hi - lo,
        forall|k: int| 0 <= k < s.len() ==> #[trigger] s[k] == lo + k,
{
    lemma_increasing_len(s, lo, hi);
    assert forall|k: int| 0 <= k < s.len() implies #[trigger] s[k] == lo + k by {
        lemma_full_range_prefix(s, lo, hi, k);
    }
    let top = (hi - 1) as u32;
    assert(s.contains(top));
    let m = s.index_of(top);
    assert(s[m] == lo + m);
}

/// With a single cluster, every map of `first_id .. end` is linked to the
/// next one, so there are at least `end - first_id - 1` links.
proof fn lemma_single_cluster_links(
    clusters: Seq<Vec<u32>>,
    extra: Seq<(u32, u32)>,
    r: Seq<(u32, u32)>,
    first_id: int,
    end: int,
)
    requires
        clusters.len() == 1,
        0 <= first_id < end <= u32::MAX + 1,
        ordered_within(clusters, first_id, end),
        each_once(clusters, first_id, end),
        r.no_duplicates(),
        forall|q: (u32, u32)|
            #[trigger] r.contains(q) <==> cluster_link(clusters, clusters.len() as int, q)
                || extra_link(extra, extra.len() as int, q),
    ensures
        r.len() >= end - first_id - 1,
{
    let s = clusters[0]@;
    assert forall|id: u32| first_id <= id < end implies #[trigger] s.contains(id) by {
        assert(in_some(clusters, id));
    }
    assert forall|i: int, j: int| 0 <= i < j < s.len() implies #[trigger] s[i] < #[trigger] s[j] by {
        assert(clusters[0]@[i] < clusters[0]@[j]);
    }
    assert forall|i: int| 0 <= i < s.len() implies first_id <= #[trigger] s[i] < end by {
        assert(first_id <= clusters[0]@[i] < end);
    }
    lemma_full_range(s, first_id, end);
    let n = end - first_id - 1;
    let chain = Seq::new(n as nat, |k: int| link_of(s, k));
    assert forall|i: int, j: int| 0 <= i < j < chain.len() implies chain[i] != chain[j] by {
        assert(s[i] == first_id + i && s[i + 1] == first_id + i + 1);
        assert(s[j] == first_id + j && s[j + 1] == first_id + j + 1);
    }
    assert(chain.no_duplicates());
    assert forall|q: (u32, u32)| chain.to_set().contains(q) implies r.to_set().contains(q) by {
        let k = chain.index_of(q);
        assert(link_of(s, k) == q);
        assert(chain_links(s, s.len() as int, q));
        assert(chain_links(clusters[0]@, clusters[0]@.len() as int, q));
        assert(cluster_link(clusters, clusters.len() as int, q));
        assert(r.contains(q));
    }
    chain.unique_seq_to_set();
    r.unique_seq_to_set();
    vstd::set_lib::lemma_len_subset(chain.to_set(), r.to_set());
}

/// Draws the extra links of a cluster: a random number of them, fewer than
/// half the cluster's size, each between two maps of the cluster picked at
/// random (possibly the same map twice; `cluster_connections` leaves such a
/// pair out).
pub fn draw_extra_links(cluster: &Vec<u32>) -> (r: Vec<(u32, u32)>)
    requires
        2 <= cluster@.len() <= u32::MAX,
    ensures
        r@.len() < cluster@.len() / 2,
        forall|j: int|
            0 <= j < r@.len() ==> cluster@.contains((#[trigger] r@[j]).0) && cluster@.contains(
                r@[j].1,
            ),
{
    let half = (cluster.len() / 2) as u32;
    let count = random_u32_in(0, half);
    let mut links: Vec<(u32, u32)> = Vec::new();
    let mut k: u32 = 0;
    while k < count
        invariant
            k <= count,
            count < half,
            half == cluster@.len() / 2,
            cluster@.len() >= 2,
            links@.len() == k,
            forall|j: int|
                0 <= j < links@.len() ==> cluster@.contains((#[trigger] links@[j]).0)
                    && cluster@.contains(links@[j].1),
        decreases count - k,
    {
        let u = choose_from(cluster);
        let v = choose_from(cluster);
        links.push((u, v));
        k += 1;
    }
    links
}

/// Whether one of the clusters holds both maps of the pair.
pub open spec fn pair_in_some(clusters: Seq<Vec<u32>>, p: (u32, u32)) -> bool {
    exists|d: int| 0 <= d < clusters.len() && #[trigger] clusters[d]@.contains(p.0) && clusters[d]@.contains(p.1)
}

/// Whether each extra pair joins two maps of one cluster.
pub open spec fn extras_within(clusters: Seq<Vec<u32>>, extra: Seq<(u32, u32)>) -> bool {
    forall|j: int| 0 <= j < extra.len() ==> #[trigger] pair_in_some(clusters, extra[j])
}

/// Whether `clusters` and `extra` are a possible plan of a level whose maps
/// have the ids `first_id .. end`: between 1 and `entrance_count` clusters,
/// each in increasing order, every map in exactly one of them, and each
/// extra pair inside one cluster.
pub open spec fn level_plan(
    clusters: Seq<Vec<u32>>,
    extra: Seq<(u32, u32)>,
    first_id: int,
    end: int,
    entrance_count: int,
) -> bool {
    &&& 1 <= clusters.len() <= entrance_count
    &&& ordered_within(clusters, first_id, end)
    &&& each_once(clusters, first_id, end)
    &&& extras_within(clusters, extra)
}

/// The links between the maps of a new level: the level has
/// `get_maps_per_level` maps, with the ids from `first_id` on; they are
/// spread at random over 1 to `entrance_count` clusters (see
/// `assign_clusters`), the empty clusters are dropped, each cluster of two
/// or more maps gets its extra links drawn (see `draw_extra_links`), and the
/// links are made by `cluster_connections`. Every link joins two different
/// maps of the level, the smaller id first, and comes once. Whatever the
/// draws, the links are exactly those of some possible plan (see
/// `level_plan`): the chain of each cluster and the extra pairs; with a
/// single entrance all maps form one chain, so there are at least as many
/// links as maps less one.
pub fn level_connections(level_idx: u32, entrance_count: u32, first_id: u32) -> (r: Vec<(u32, u32)>)
    requires
        1 <= entrance_count,
        level_idx <= u32::MAX - 3,
        first_id + level_idx + 3 <= u32::MAX,
    ensures
        r@.no_duplicates(),
        forall|j: int|
            0 <= j < r@.len() ==> first_id <= (#[trigger] r@[j]).0 < r@[j].1 < first_id + level_idx
                + 3,
        entrance_count == 1 ==> r@.len() >= level_idx + 2,
        exists|clusters: Seq<Vec<u32>>, extra: Seq<(u32, u32)>|
            #[trigger] level_plan(
                clusters,
                extra,
                first_id as int,
                first_id + level_idx + 3,
                entrance_count as int,
            ) && forall|q: (u32, u32)|
                #[trigger] r@.contains(q) <==> cluster_link(clusters, clusters.len() as int, q)
                    || extra_link(extra, extra.len() as int, q),
{
    let map_count = get_maps_per_level(level_idx, entrance_count);
    let cluster_count = random_u32_in(0, entrance_count) + 1;
    let clusters = assign_clusters(map_count, cluster_count, first_id);
    let ghost end = first_id + map_count;
    let mut kept: Vec<Vec<u32>> = Vec::new();
    let ghost mut idx: Seq<int> = Seq::empty();
    let mut c: usize = 0;
    while c < clusters.len()
        invariant
            c <= clusters@.len(),
            ordered_within(clusters@, first_id as int, end),
            ordered_within(kept@, first_id as int, end),
            forall|d: int| 0 <= d < kept@.len() ==> (#[trigger] kept@[d])@.len() > 0,
            idx.len() == kept@.len(),
            kept@.len() <= c,
            forall|d: int|
                0 <= d < idx.len() ==> 0 <= #[trigger] idx[d] < c && kept@[d]@ == clusters@[idx[d]]@,
            forall|d1: int, d2: int| 0 <= d1 < d2 < idx.len() ==> #[trigger] idx[d1] < #[trigger] idx[d2],
            forall|e: int| 0 <= e < c && (#[trigger] clusters@[e])@.len() > 0 ==> idx.contains(e),
        decreases clusters@.len() - c,
    {
        if clusters[c].len() > 0 {
            let copy = clusters[c].clone();
            proof {
                assert(copy@ =~= clusters@[c as int]@);
            }
            kept.push(copy);
            proof {
                let old_idx = idx;
                idx = idx.push(c as int);
                assert forall|e: int| 0 <= e < c + 1 && (#[trigger] clusters@[e])@.len() > 0 implies idx.contains(e) by {
                    if e < c {
                        let d = old_idx.index_of(e);
                        assert(idx[d] == e);
                    } else {
                        assert(idx[idx.len() - 1] == e);
                    }
                }
                assert forall|d: int| 0 <= d < kept@.len() implies (#[trigger] kept@[d])@.len() > 0 by {
                    if d < kept@.len() - 1 {
                        assert(kept@[d]@ == clusters@[idx[d]]@);
                    }
                }
            }
        }
        c += 1;
    }
    proof {
        assert(in_some(clusters@, first_id));
        let e0 = choose|e: int| 0 <= e < clusters@.len() && #[trigger] clusters@[e]@.contains(first_id);
        assert(clusters@[e0]@.len() > 0);
        assert(idx.contains(e0));
        assert(kept@.len() >= 1);
        assert forall|x: u32| first_id <= x < end implies #[trigger] in_some(kept@, x) by {
            assert(in_some(clusters@, x));
            let e = choose|e: int| 0 <= e < clusters@.len() && #[trigger] clusters@[e]@.contains(x);
            assert(clusters@[e]@.len() > 0);
            assert(idx.contains(e));
            let d = idx.index_of(e);
            assert(kept@[d]@ == clusters@[e]@);
            assert(kept@[d]@.contains(x));
        }
        assert forall|d1: int, d2: int, x: u32|
            0 <= d1 < kept@.len() && 0 <= d2 < kept@.len() && d1 != d2
                && #[trigger] kept@[d1]@.contains(x) implies !#[trigger] kept@[d2]@.contains(x) by {
            assert(kept@[d1]@ == clusters@[idx[d1]]@);
            assert(kept@[d2]@ == clusters@[idx[d2]]@);
            if d1 < d2 {
                assert(idx[d1] < idx[d2]);
            } else {
                assert(idx[d2] < idx[d1]);
            }
            assert(clusters@[idx[d1]]@.contains(x));
        }
        assert(each_once(kept@, first_id as int, end));
    }
    let mut extra: Vec<(u32, u32)> = Vec::new();
    let mut d: usize = 0;
    while d < kept.len()
        invariant
            d <= kept@.len(),
            end == first_id + map_count,
            ordered_within(kept@, first_id as int, end),
            extras_within(kept@, extra@),
            forall|j: int|
                0 <= j < extra@.len() ==> first_id <= (#[trigger] extra@[j]).0 < end && first_id
                    <= extra@[j].1 < end,
        decreases kept@.len() - d,
    {
        let cluster: &Vec<u32> = &kept[d];
        if cluster.len() >= 2 {
            proof {
                lemma_increasing_len(cluster@, first_id as int, end);
            }
            let drawn = draw_extra_links(cluster);
            let mut j: usize = 0;
            while j < drawn.len()
                invariant
                    j <= drawn@.len(),
                    cluster == kept@[d as int],
                    d < kept@.len(),
                    ordered_within(kept@, first_id as int, end),
                    extras_within(kept@, extra@),
                    forall|n: int|
                        0 <= n < drawn@.len() ==> cluster@.contains((#[trigger] drawn@[n]).0)
                            && cluster@.contains(drawn@[n].1),
                    forall|n: int|
                        0 <= n < extra@.len() ==> first_id <= (#[trigger] extra@[n]).0 < end
                            && first_id <= extra@[n].1 < end,
                decreases drawn@.len() - j,
            {
                let p = drawn[j];
                proof {
                    assert(cluster@.contains(p.0) && cluster@.contains(p.1));
                    let a = cluster@.index_of(p.0);
                    let b = cluster@.index_of(p.1);
                    assert(first_id <= kept@[d as int]@[a] < end);
                    assert(first_id <= kept@[d as int]@[b] < end);
                }
                let ghost before = extra@;
                extra.push(p);
                proof {
                    assert forall|n: int| 0 <= n < extra@.len() implies #[trigger] pair_in_some(
                        kept@,
                        extra@[n],
                    ) by {
                        if n < before.len() {
                            assert(extra@[n] == before[n]);
                        } else {
                            assert(extra@[n] == p);
                            assert(kept@[d as int]@.contains(p.0));
                        }
                    }
                    assert(extras_within(kept@, extra@));
                }
                j += 1;
            }
        }
        d += 1;
    }
    let links = cluster_connections(&kept, &extra);
    proof {
        assert forall|j: int| 0 <= j < links@.len() implies first_id <= (#[trigger] links@[j]).0
            < links@[j].1 < end by {
            let q = links@[j];
            assert(links@.contains(q));
            if cluster_link(kept@, kept@.len() as int, q) {
                let e = choose|e: int|
                    0 <= e < kept@.len() && e < kept@.len() && #[trigger] chain_links(
                        kept@[e]@,
                        kept@[e]@.len() as int,
                        q,
                    );
                let k = choose|k: int|
                    0 <= k < kept@[e]@.len() && k + 1 < kept@[e]@.len() && #[trigger] link_of(
                        kept@[e]@,
                        k,
                    ) == q;
                assert(kept@[e]@[k] < kept@[e]@[k + 1]);
                assert(first_id <= kept@[e]@[k] < end);
                assert(first_id <= kept@[e]@[k + 1] < end);
            } else {
                let k = choose|k: int|
                    0 <= k < extra@.len() && #[trigger] extra@[k].0 != extra@[k].1 && ordered(
                        extra@[k],
                    ) == q;
                assert(first_id <= extra@[k].0 < end);
            }
        }
        assert(level_plan(kept@, extra@, first_id as int, end, entrance_count as int));
        if entrance_count == 1 {
            lemma_single_cluster_links(kept@, extra@, links@, first_id as int, end);
        }
    }
    links
}

/// How many maps a level has: three more than its index.
pub fn get_maps_per_level(level: u32, entrances: u32) -> (r: u32)
    requires
        level <= u32::MAX - 3,
    ensures
        r == level + 3,
{
    3 + level
}

} // verus!

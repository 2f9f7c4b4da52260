//! Named clusters of locality-grouped endpoints, and the map that holds them.
//!
//! A `ClusterMap` always holds exactly one default cluster (the cluster whose
//! name is the empty string); inserting a cluster replaces the cluster of the
//! same name.

use vstd::prelude::*;

use crate::endpoint::{Endpoint, EpV, eps_view};
use crate::locality::{
    GroupV, Locality, LocalityEndpoints, LocalitySet, LocalityV, dedup_eps, groups_wf, has_key,
    insert_group, key_index, lemma_dedup_eps, lemma_insert_group_wf, lemma_key_index,
};

verus! {

/// A named collection of locality-grouped endpoints. The empty name
/// identifies the default cluster.
#[derive(Debug)]
pub struct Cluster {
    pub name: String,
    pub localities: LocalitySet,
}

/// The mathematical value of a cluster: its name and its groups.
pub type ClusterV = (Seq<char>, Seq<GroupV>);

impl View for Cluster {
    type V = ClusterV;

    open spec fn view(&self) -> ClusterV {
        (self.name@, self.localities@)
    }
}

/// The endpoint values of a cluster: the concatenation of its groups'
/// endpoint lists.
pub open spec fn groups_eps(gs: Seq<GroupV>) -> Seq<EpV>
    decreases gs.len(),
{
    if gs.len() == 0 {
        Seq::empty()
    } else {
        groups_eps(gs.drop_last()) + gs.last().1
    }
}

impl Cluster {
    /// The cluster's groups are well-formed as a locality set.
    pub open spec fn wf(self) -> bool {
        self.localities.wf()
    }

    /// A cluster from a name and a set of localities.
    pub fn new(name: String, localities: LocalitySet) -> (r: Cluster)
        ensures
            r@ == (name@, localities@),
            localities.wf() ==> r.wf(),
    {
        Cluster { name, localities }
    }

    /// Every endpoint of the cluster, each occurrence once, across all its
    /// localities in their stored order.
    pub fn endpoints(&self) -> (r: Vec<Endpoint>)
        ensures
            eps_view(r@) == groups_eps(self@.1),
    {
        let mut out: Vec<Endpoint> = Vec::new();
        let groups = self.localities.iter();
        let n = groups.len();
        let ghost gs = self@.1;
        let mut i: usize = 0;
        while i < n
            invariant
                n == groups.len(),
                0 <= i <= n,
                gs == groups@.map_values(|le: LocalityEndpoints| le@),
                gs == self@.1,
                eps_view(out@) == groups_eps(gs.take(i as int)),
            decreases n - i,
        {
            proof {
                assert(gs.take(i + 1 as int).drop_last() =~= gs.take(i as int));
                assert(gs.take(i + 1 as int).last() == groups@[i as int]@);
            }
            let eps = &groups[i].endpoints;
            let m = eps.len();
            let mut j: usize = 0;
            while j < m
                invariant
                    m == eps.len(),
                    0 <= j <= m,
                    eps_view(eps@) == groups@[i as int]@.1,
                    i < n == groups.len(),
                    gs == groups@.map_values(|le: LocalityEndpoints| le@),
                    eps_view(out@) == groups_eps(gs.take(i as int)) + eps_view(eps@).take(j as int),
                decreases m - j,
            {
                let c = eps[j].clone();
                let ghost prevout = out@;
                out.push(c);
                proof {
                    assert(eps_view(out@) =~= eps_view(prevout).push(c@));
                    assert(c@ == eps_view(eps@)[j as int]);
                    assert(eps_view(eps@).take(j + 1 as int) =~= eps_view(eps@).take(
                        j as int,
                    ).push(eps@[j as int]@));
                    assert(eps_view(out@) =~= groups_eps(gs.take(i as int)) + eps_view(eps@).take(
                        j + 1 as int,
                    ));
                }
                j += 1;
            }
            proof {
                assert(eps_view(eps@).take(m as int) =~= eps_view(eps@));
                assert(eps_view(out@) =~= groups_eps(gs.take(i + 1 as int)));
            }
            i += 1;
        }
        proof {
            assert(gs.take(n as int) =~= gs);
        }
        out
    }

    /// The number of endpoints in the cluster.
    pub fn num_endpoints(&self) -> (r: usize)
        ensures
            r == groups_eps(self@.1).len(),
    {
        self.endpoints().len()
    }
}

impl Cluster {
    /// Executable value equality of clusters: same name, same groups.
    pub fn same(&self, other: &Cluster) -> (r: bool)
        ensures
            r == (self@ == other@),
    {
        self.name == other.name && self.localities.same(&other.localities)
    }
}

impl Clone for Cluster {
    /// A value-equal copy of the cluster.
    fn clone(&self) -> (r: Self)
        ensures
            r@ == self@,
    {
        Cluster { name: self.name.clone(), localities: self.localities.clone() }
    }
}

/// The index of the first cluster named `name`, or `-1` if there is none.
pub open spec fn cluster_index(s: Seq<ClusterV>, name: Seq<char>) -> int
    decreases s.len(),
{
    if s.len() == 0 {
        -1
    } else if s[0].0 == name {
        0
    } else {
        let r = cluster_index(s.drop_first(), name);
        if r < 0 {
            -1
        } else {
            r + 1
        }
    }
}

/// Whether some cluster is named `name`.
pub open spec fn has_cluster(s: Seq<ClusterV>, name: Seq<char>) -> bool {
    exists|i: int| 0 <= i < s.len() && s[i].0 == name
}

/// Inserting a cluster replaces the cluster of the same name, or appends the
/// cluster when the name is new.
pub open spec fn insert_cluster(s: Seq<ClusterV>, c: ClusterV) -> Seq<ClusterV> {
    let i = cluster_index(s, c.0);
    if i < 0 {
        s.push(c)
    } else {
        s.update(i, c)
    }
}

/// The endpoint values of a whole cluster map, cluster by cluster.
pub open spec fn clusters_eps(s: Seq<ClusterV>) -> Seq<EpV>
    decreases s.len(),
{
    if s.len() == 0 {
        Seq::empty()
    } else {
        clusters_eps(s.drop_last()) + groups_eps(s.last().1)
    }
}

/// At most one cluster per name, every cluster's groups well-formed, and the
/// default cluster present.
pub open spec fn cmap_wf(s: Seq<ClusterV>) -> bool {
    &&& forall|i: int, j: int| 0 <= i < j < s.len() ==> s[i].0 != s[j].0
    &&& forall|i: int| 0 <= i < s.len() ==> groups_wf(s[i].1)
    &&& has_cluster(s, Seq::<char>::empty())
}

/// `cluster_index` finds the first cluster of a name, and `-1` exactly when
/// none has it.
pub proof fn lemma_cluster_index(s: Seq<ClusterV>, name: Seq<char>)
    ensures
        cluster_index(s, name) >= 0 <==> has_cluster(s, name),
        cluster_index(s, name) >= 0 ==> cluster_index(s, name) < s.len() && s[cluster_index(
            s,
            name,
        )].0 == name,
        forall|j: int| 0 <= j < cluster_index(s, name) ==> s[j].0 != name,
    decreases s.len(),
{
    if s.len() > 0 && s[0].0 != name {
        lemma_cluster_index(s.drop_first(), name);
        assert forall|i: int| 0 <= i < s.len() && s[i].0 == name implies cluster_index(s, name)
            >= 0 by {
            assert(s.drop_first()[i - 1] == s[i]);
            assert(has_cluster(s.drop_first(), name));
        }
        if cluster_index(s.drop_first(), name) >= 0 {
            let r = cluster_index(s.drop_first(), name);
            assert(s[r + 1] == s.drop_first()[r]);
            assert forall|j: int| 0 <= j < cluster_index(s, name) implies s[j].0 != name by {
                if j > 0 {
                    assert(s.drop_first()[j - 1] == s[j]);
                }
            }
        }
    }
}

/// A map from cluster name to cluster, holding exactly one default cluster.
#[derive(Debug)]
pub struct ClusterMap {
    clusters: Vec<Cluster>,
}

impl View for ClusterMap {
    type V = Seq<ClusterV>;

    closed spec fn view(&self) -> Seq<ClusterV> {
        self.clusters@.map_values(|c: Cluster| c@)
    }
}

/// The position of the cluster with `name`'s value, if any.
fn find_cluster(clusters: &Vec<Cluster>, name: &String) -> (r: Option<usize>)
    ensures
        ({
            let cs = clusters@.map_values(|c: Cluster| c@);
            match r {
                Some(i) => 0 <= i < cs.len() && cluster_index(cs, name@) == i,
                None => !has_cluster(cs, name@),
            }
        }),
{
    let ghost cs = clusters@.map_values(|c: Cluster| c@);
    let n = clusters.len();
    let mut i: usize = 0;
    while i < n
        invariant
            n == clusters.len(),
            0 <= i <= n,
            cs == clusters@.map_values(|c: Cluster| c@),
            forall|j: int| 0 <= j < i ==> cs[j].0 != name@,
        decreases n - i,
    {
        if clusters[i].name == *name {
            proof {
                assert(cs[i as int].0 == name@);
                assert(has_cluster(cs, name@));
                lemma_cluster_index(cs, name@);
                let p = cluster_index(cs, name@);
                if p < i as int {
                    assert(cs[p].0 != name@);
                }
                if p > i as int {
                    assert(cs[i as int].0 != name@);
                }
            }
            return Some(i);
        }
        i += 1;
    }
    proof {
        assert(!has_cluster(cs, name@));
    }
    None
}

impl ClusterMap {
    /// Unique names, well-formed clusters, and a default cluster present.
    pub open spec fn wf(self) -> bool {
        cmap_wf(self@)
    }

    /// A map holding only an empty default cluster.
    pub fn new() -> (r: ClusterMap)
        ensures
            r@ =~= seq![(Seq::<char>::empty(), Seq::<GroupV>::empty())],
            r.wf(),
    {
        let default = Cluster::new(String::new(), LocalitySet::empty());
        let mut clusters: Vec<Cluster> = Vec::new();
        clusters.push(default);
        let r = ClusterMap { clusters };
        proof {
            assert(r@ =~= seq![(Seq::<char>::empty(), Seq::<GroupV>::empty())]);
            assert(r@[0].0 == Seq::<char>::empty());
        }
        r
    }

    /// A map whose default cluster holds the given endpoints in a single
    /// unlocated group, and nothing else.
    pub fn new_with_default_cluster(endpoints: Vec<Endpoint>) -> (r: ClusterMap)
        ensures
            r.wf(),
            r@ =~= seq![
                (
                    Seq::<char>::empty(),
                    seq![(None::<LocalityV>, dedup_eps(eps_view(endpoints@)))],
                ),
            ],
    {
        let mut r = ClusterMap::new();
        r.insert_default(endpoints);
        proof {
            lemma_cluster_index(
                seq![(Seq::<char>::empty(), Seq::<GroupV>::empty())],
                Seq::<char>::empty(),
            );
        }
        r
    }

    /// The number of clusters in the map.
    pub fn len(&self) -> (r: usize)
        ensures
            r == self@.len(),
    {
        self.clusters.len()
    }

    /// Inserts a cluster, replacing the cluster of the same name if present.
    pub fn insert(&mut self, cluster: Cluster)
        requires
            old(self).wf(),
            cluster.wf(),
        ensures
            final(self)@ == insert_cluster(old(self)@, cluster@),
            final(self).wf(),
    {
        let ghost pre = self@;
        proof {
            lemma_cluster_index(pre, cluster@.0);
        }
        match find_cluster(&self.clusters, &cluster.name) {
            Some(i) => {
                let ghost gi = cluster_index(pre, cluster@.0);
                self.clusters.remove(i);
                self.clusters.insert(i, cluster);
                proof {
                    assert(self@ =~= insert_cluster(pre, cluster@));
                    assert(has_cluster(self@, Seq::<char>::empty())) by {
                        let d = choose|d: int| 0 <= d < pre.len() && pre[d].0 == Seq::<
                            char,
                        >::empty();
                        assert(self@[d].0 == Seq::<char>::empty());
                    }
                }
            },
            None => {
                self.clusters.push(cluster);
                proof {
                    assert(self@ =~= insert_cluster(pre, cluster@));
                    assert(has_cluster(self@, Seq::<char>::empty())) by {
                        let d = choose|d: int| 0 <= d < pre.len() && pre[d].0 == Seq::<
                            char,
                        >::empty();
                        assert(self@[d].0 == Seq::<char>::empty());
                    }
                    assert forall|p: int, q: int|
                        0 <= p < q < self@.len() implies self@[p].0 != self@[q].0 by {
                        if q == self@.len() - 1 {
                            assert(self@[q].0 == cluster@.0);
                            if self@[p].0 == cluster@.0 {
                                assert(pre[p].0 == cluster@.0);
                                assert(has_cluster(pre, cluster@.0));
                            }
                        }
                    }
                }
            },
        }
    }

    /// Replaces the default cluster's contents with a single unlocated group
    /// holding the given endpoints.
    pub fn insert_default(&mut self, endpoints: Vec<Endpoint>)
        requires
            old(self).wf(),
        ensures
            final(self)@ == insert_cluster(
                old(self)@,
                (
                    Seq::<char>::empty(),
                    seq![(None::<LocalityV>, dedup_eps(eps_view(endpoints@)))],
                ),
            ),
            final(self).wf(),
    {
        let ghost epsv = eps_view(endpoints@);
        let group = LocalityEndpoints::new(endpoints);
        let mut localities = LocalitySet::empty();
        proof {
            lemma_key_index(Seq::<GroupV>::empty(), group@.0);
            lemma_dedup_eps(dedup_eps(epsv));
            lemma_dedup_eps(epsv);
        }
        localities.insert(group);
        proof {
            assert(localities@ =~= seq![(None::<LocalityV>, dedup_eps(epsv))]) by {
                assert(key_index(Seq::<GroupV>::empty(), None::<LocalityV>) == -1);
                assert(insert_group(
                    Seq::<GroupV>::empty(),
                    (None::<LocalityV>, dedup_eps(epsv)),
                ) =~= Seq::<GroupV>::empty().push(
                    (None::<LocalityV>, dedup_eps(dedup_eps(epsv))),
                ));
                assert(dedup_eps(dedup_eps(epsv)) =~= dedup_eps(epsv)) by {
                    lemma_dedup_idempotent(epsv);
                }
            }
        }
        let default = Cluster::new(String::new(), localities);
        self.insert(default);
    }

    /// The cluster with the given name, if present.
    pub fn get(&self, name: &String) -> (r: Option<&Cluster>)
        ensures
            has_cluster(self@, name@) ==> (r matches Some(c) && c@ == self@[cluster_index(
                self@,
                name@,
            )]),
            !has_cluster(self@, name@) ==> r is None,
    {
        proof {
            lemma_cluster_index(self@, name@);
        }
        match find_cluster(&self.clusters, name) {
            Some(i) => Some(&self.clusters[i]),
            None => None,
        }
    }

    /// The clusters of the map, in their stored order.
    pub fn iter(&self) -> (r: &Vec<Cluster>)
        ensures
            r@.map_values(|c: Cluster| c@) == self@,
    {
        &self.clusters
    }

    /// Every endpoint of every cluster, across all localities.
    pub fn endpoints(&self) -> (r: Vec<Endpoint>)
        ensures
            eps_view(r@) == clusters_eps(self@),
    {
        let mut out: Vec<Endpoint> = Vec::new();
        let ghost cs = self@;
        let n = self.clusters.len();
        let mut i: usize = 0;
        while i < n
            invariant
                n == self.clusters.len(),
                0 <= i <= n,
                cs == self@,
                eps_view(out@) == clusters_eps(cs.take(i as int)),
            decreases n - i,
        {
            proof {
                assert(cs.take(i + 1 as int).drop_last() =~= cs.take(i as int));
                assert(cs.take(i + 1 as int).last() == self.clusters@[i as int]@);
            }
            let mut eps = self.clusters[i].endpoints();
            let m = eps.len();
            let mut j: usize = 0;
            let ghost evs = eps_view(eps@);
            while j < m
                invariant
                    m == eps.len(),
                    0 <= j <= m,
                    evs == eps_view(eps@),
                    i < n == self.clusters.len(),
                    cs == self@,
                    eps_view(out@) == clusters_eps(cs.take(i as int)) + evs.take(j as int),
                decreases m - j,
            {
                let c = eps[j].clone();
                let ghost prevout = out@;
                out.push(c);
                proof {
                    assert(eps_view(out@) =~= eps_view(prevout).push(c@));
                    assert(c@ == evs[j as int]);
                    assert(evs.take(j + 1 as int) =~= evs.take(j as int).push(eps@[j as int]@));
                    assert(eps_view(out@) =~= clusters_eps(cs.take(i as int)) + evs.take(
                        j + 1 as int,
                    ));
                }
                j += 1;
            }
            proof {
                assert(evs.take(m as int) =~= evs);
                assert(eps_view(out@) =~= clusters_eps(cs.take(i + 1 as int)));
            }
            i += 1;
        }
        proof {
            assert(cs.take(n as int) =~= cs);
        }
        out
    }

    /// The total number of endpoints across all clusters and localities.
    pub fn num_endpoints(&self) -> (r: usize)
        ensures
            r == clusters_eps(self@).len(),
    {
        self.endpoints().len()
    }

    /// In every cluster, re-files the endpoints currently held under "no
    /// locality" under the given locality.
    pub fn update_unlocated_endpoints(&mut self, locality: &Locality)
        requires
            old(self).wf(),
        ensures
            final(self)@ == promote_clusters(old(self)@, locality@),
            final(self).wf(),
    {
        let ghost pre = self@;
        let n = self.clusters.len();
        let mut i: usize = 0;
        while i < n
            invariant
                old(self).wf(),
                pre == old(self)@,
                n == pre.len(),
                self.clusters.len() == n,
                0 <= i <= n,
                forall|k: int|
                    0 <= k < i ==> self@[k] == (pre[k].0, promote_groups(pre[k].1, locality@)),
                forall|k: int| i <= k < n ==> self@[k] == pre[k],
            decreases n - i,
        {
            let ghost mid = self@;
            let mut c = self.clusters.remove(i);
            proof {
                assert(c@ == pre[i as int]);
                assert(groups_wf(c.localities@));
                lemma_key_index(c.localities@, None);
            }
            let ghost cpre = c.localities@;
            match c.localities.remove(&None) {
                Some(g) => {
                    let promoted = g.with_locality(Some(locality.clone()));
                    c.localities.insert(promoted);
                    proof {
                        assert(c.localities@ == promote_groups(cpre, locality@));
                    }
                },
                None => {
                    proof {
                        assert(c.localities@ == promote_groups(cpre, locality@));
                    }
                },
            }
            self.clusters.insert(i, c);
            proof {
                assert forall|k: int|
                    0 <= k < i + 1 implies self@[k] == (
                    pre[k].0,
                    promote_groups(pre[k].1, locality@),
                ) by {
                    if k < i as int {
                        assert(self@[k] == mid[k]);
                    }
                }
                assert forall|k: int| i + 1 <= k < n implies self@[k] == pre[k] by {
                    assert(self@[k] == mid[k]);
                }
            }
            i += 1;
        }
        proof {
            assert(self@ =~= promote_clusters(pre, locality@));
            assert(has_cluster(self@, Seq::<char>::empty())) by {
                let d = choose|d: int| 0 <= d < pre.len() && pre[d].0 == Seq::<char>::empty();
                assert(self@[d].0 == Seq::<char>::empty());
            }
            assert forall|k: int| 0 <= k < self@.len() implies groups_wf(self@[k].1) by {
                lemma_promote_groups_wf(pre[k].1, locality@);
            }
            assert forall|p: int, q: int|
                0 <= p < q < self@.len() implies self@[p].0 != self@[q].0 by {
                assert(self@[p].0 == pre[p].0);
                assert(self@[q].0 == pre[q].0);
            }
        }
    }
}

/// Re-filing a well-formed cluster's unlocated endpoints keeps it
/// well-formed.
pub proof fn lemma_promote_groups_wf(gs: Seq<GroupV>, lv: LocalityV)
    requires
        groups_wf(gs),
    ensures
        groups_wf(promote_groups(gs, lv)),
{
    if has_key(gs, None::<LocalityV>) {
        lemma_key_index(gs, None::<LocalityV>);
        let i = key_index(gs, None::<LocalityV>);
        let removed = gs.remove(i);
        assert(groups_wf(removed)) by {
            assert forall|p: int, q: int|
                0 <= p < q < removed.len() implies removed[p].0 != removed[q].0 by {
                assert(removed[p] == if p < i {
                    gs[p]
                } else {
                    gs[p + 1]
                });
                assert(removed[q] == if q < i {
                    gs[q]
                } else {
                    gs[q + 1]
                });
            }
            assert forall|p: int| 0 <= p < removed.len() implies removed[p].1.no_duplicates() by {
                assert(removed[p] == if p < i {
                    gs[p]
                } else {
                    gs[p + 1]
                });
            }
        }
        lemma_insert_group_wf(removed, (Some(lv), gs[i].1));
    }
}

/// A cluster's groups after re-filing its "no locality" group, if any, under
/// the locality `lv`.
pub open spec fn promote_groups(gs: Seq<GroupV>, lv: LocalityV) -> Seq<GroupV> {
    if has_key(gs, None::<LocalityV>) {
        let i = key_index(gs, None::<LocalityV>);
        insert_group(gs.remove(i), (Some(lv), gs[i].1))
    } else {
        gs
    }
}

/// Every cluster of the map after re-filing its unlocated endpoints under
/// `lv`.
pub open spec fn promote_clusters(s: Seq<ClusterV>, lv: LocalityV) -> Seq<ClusterV> {
    s.map_values(|c: ClusterV| (c.0, promote_groups(c.1, lv)))
}

impl ClusterMap {
    /// Executable value equality of cluster maps, cluster by cluster in
    /// stored order.
    pub fn same(&self, other: &ClusterMap) -> (r: bool)
        ensures
            r == (self@ == other@),
    {
        if self.clusters.len() != other.clusters.len() {
            assert(self@.len() != other@.len());
            return false;
        }
        let n = self.clusters.len();
        let mut i: usize = 0;
        while i < n
            invariant
                n == self.clusters.len() == other.clusters.len(),
                0 <= i <= n,
                forall|k: int| 0 <= k < i ==> self@[k] == other@[k],
            decreases n - i,
        {
            if !self.clusters[i].same(&other.clusters[i]) {
                assert(self@[i as int] != other@[i as int]);
                return false;
            }
            i += 1;
        }
        proof {
            assert(self@ =~= other@);
        }
        true
    }
}

impl Clone for ClusterMap {
    /// A value-equal copy of the map.
    fn clone(&self) -> (r: Self)
        ensures
            r@ == self@,
    {
        let mut clusters: Vec<Cluster> = Vec::new();
        let n = self.clusters.len();
        let mut i: usize = 0;
        while i < n
            invariant
                n == self.clusters.len(),
                0 <= i <= n,
                clusters@.map_values(|c: Cluster| c@) == self@.take(i as int),
            decreases n - i,
        {
            let c = self.clusters[i].clone();
            proof {
                assert(self@.take(i + 1 as int) =~= self@.take(i as int).push(
                    self.clusters@[i as int]@,
                ));
            }
            clusters.push(c);
            proof {
                assert(clusters@.map_values(|c: Cluster| c@) =~= self@.take(i + 1 as int));
            }
            i += 1;
        }
        proof {
            assert(self@.take(n as int) =~= self@);
        }
        ClusterMap { clusters }
    }
}

/// Deduplicating an already duplicate-free sequence leaves it unchanged; in
/// particular deduplication is idempotent.
pub proof fn lemma_dedup_idempotent(s: Seq<EpV>)
    ensures
        dedup_eps(s).no_duplicates(),
        dedup_eps(dedup_eps(s)) == dedup_eps(s),
{
    lemma_dedup_eps(s);
    lemma_dedup_of_no_dup(dedup_eps(s));
}

/// A duplicate-free sequence is its own deduplication.
pub proof fn lemma_dedup_of_no_dup(s: Seq<EpV>)
    requires
        s.no_duplicates(),
    ensures
        dedup_eps(s) == s,
    decreases s.len(),
{
    if s.len() > 0 {
        assert(s.drop_last().no_duplicates());
        lemma_dedup_of_no_dup(s.drop_last());
        assert(!s.drop_last().contains(s.last())) by {
            if s.drop_last().contains(s.last()) {
                let i = choose|i: int|
                    0 <= i < s.drop_last().len() && s.drop_last()[i] == s.last();
                assert(s[i] == s[s.len() - 1]);
            }
        }
        assert(dedup_eps(s) =~= s.drop_last().push(s.last()));
        assert(s.drop_last().push(s.last()) =~= s);
    }
}

} // verus!

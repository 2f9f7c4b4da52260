//! The proxy's configuration: four slots (cluster map, filter chain, proxy
//! identity, version tag) and the applier the control plane drives.

use vstd::prelude::*;

use crate::cluster::{
    Cluster, ClusterMap, ClusterV, clusters_eps, groups_eps, insert_cluster,
};
use crate::filter::{
    Filter, FilterCfgV, FilterChain, FilterV, ValidationError, cfg_of_filter, chain_error,
    chain_of,
};
use crate::slot::Slot;

verus! {

/// On the hot path, one out of this many occurrences of a per-packet event
/// is logged, to avoid flooding the logs.
pub const LOG_SAMPLING_RATE: u64 = 1000;

/// First delay of the control-plane reconnect backoff, in milliseconds.
pub const BACKOFF_INITIAL_DELAY_MILLISECONDS: u64 = 500;

/// Ceiling of the control-plane reconnect backoff, in seconds.
pub const BACKOFF_MAX_DELAY_SECONDS: u64 = 30;

/// Jitter added to each backoff delay, in milliseconds.
pub const BACKOFF_MAX_JITTER_MILLISECONDS: u64 = 2000;

/// Control-plane connection timeout, in seconds.
pub const CONNECTION_TIMEOUT: u64 = 5;

/// The configuration schema version.
#[derive(Clone, Copy, PartialEq, Eq, Structural, Debug)]
pub enum Version {
    V1Alpha1,
}

impl Default for Version {
    /// The current schema version.
    fn default() -> (r: Version)
        ensures
            r == Version::V1Alpha1,
    {
        Version::V1Alpha1
    }
}

/// The resource types the discovery protocol exchanges.
#[derive(Clone, Copy, PartialEq, Eq, Structural, Debug)]
pub enum ResourceType {
    Endpoint,
    Listener,
    Cluster,
}

/// A decoded resource handed over by the control plane.
#[derive(Debug)]
pub enum Resource {
    /// An endpoint assignment, already translated to a cluster.
    Endpoint(Cluster),
    /// A listener: its filter chains, each an ordered list of filter
    /// configurations.
    Listener(Vec<Vec<Filter>>),
    /// A cluster definition with an optional embedded load assignment.
    Cluster(Option<Cluster>),
}

/// The mathematical value of a resource.
pub enum ResourceV {
    Endpoint(ClusterV),
    Listener(Seq<Seq<FilterCfgV>>),
    Cluster(Option<ClusterV>),
}

impl View for Resource {
    type V = ResourceV;

    open spec fn view(&self) -> ResourceV {
        match self {
            Resource::Endpoint(c) => ResourceV::Endpoint(c@),
            Resource::Listener(chains) => ResourceV::Listener(
                chains@.map_values(|ch: Vec<Filter>| ch@.map_values(|f: Filter| f@)),
            ),
            Resource::Cluster(oc) => ResourceV::Cluster(
                match oc {
                    Some(c) => Some(c@),
                    None => None,
                },
            ),
        }
    }
}

/// A response to a discovery request: the matching resources and the type
/// they carry.
#[derive(Debug)]
pub struct DiscoveryResponse {
    pub resources: Vec<Resource>,
    pub resource_type: ResourceType,
}

/// The clusters selected by a list of names, in name order, skipping names
/// the map does not hold.
pub open spec fn selected_clusters(cs: Seq<ClusterV>, names: Seq<Seq<char>>) -> Seq<ClusterV>
    decreases names.len(),
{
    if names.len() == 0 {
        Seq::empty()
    } else {
        let front = selected_clusters(cs, names.drop_last());
        if crate::cluster::has_cluster(cs, names.last()) {
            front.push(cs[crate::cluster::cluster_index(cs, names.last())])
        } else {
            front
        }
    }
}

/// Relies on `uuid::Uuid::new_v4` and `Uuid::as_hyphenated`: the hyphenated
/// textual form of a UUID is exactly 36 characters long.
#[verifier::external_body]
fn random_uuid_string() -> (r: String)
    ensures
        r@.len() == 36,
{
    uuid::Uuid::new_v4().as_hyphenated().to_string()
}

/// Relies on `sys_info::hostname`. Nothing is promised of the name the
/// machine reports; a failure comes back as `None`.
#[verifier::external_body]
fn machine_hostname() -> (r: Option<String>)
{
    sys_info::hostname().ok()
}

/// The identity a proxy starts with when none is configured: the machine's
/// hostname when it reports a non-empty one, otherwise a fresh UUID. Never
/// empty.
pub fn default_proxy_id() -> (r: String)
    ensures
        r@.len() >= 1,
{
    match machine_hostname() {
        Some(h) => {
            if h.as_str().unicode_len() >= 1 {
                h
            } else {
                random_uuid_string()
            }
        },
        None => random_uuid_string(),
    }
}

/// The proxy's live configuration: a slot per concern, each read per packet
/// and replaced whole by the control plane.
#[derive(Debug)]
pub struct Config {
    pub clusters: Slot<ClusterMap>,
    pub filters: Slot<FilterChain>,
    pub id: Slot<String>,
    pub version: Slot<Version>,
}

impl Config {
    /// The held cluster map is well-formed.
    pub open spec fn wf(self) -> bool {
        self.clusters.value().wf()
    }

    /// Applies one decoded resource from the control plane.
    ///
    /// An endpoint assignment or a cluster definition with at least one
    /// endpoint replaces the cluster of its name; an empty one is ignored, so
    /// a momentarily-empty discovery answer cannot blackhole traffic. A
    /// listener replaces the filter chain with its first chain's filters,
    /// built through the registry; when a filter name is unknown or a
    /// configuration malformed, the error comes back and no slot changes.
    pub fn apply(&mut self, resource: &Resource) -> (r: Result<(), ValidationError>)
        requires
            old(self).wf(),
            match resource@ {
                ResourceV::Endpoint(c) => crate::locality::groups_wf(c.1),
                ResourceV::Cluster(oc) => oc matches Some(c) ==> crate::locality::groups_wf(c.1),
                ResourceV::Listener(_) => true,
            },
        ensures
            final(self).wf(),
            final(self).id == old(self).id,
            final(self).version == old(self).version,
            match resource@ {
                ResourceV::Endpoint(c) => {
                    &&& r is Ok
                    &&& final(self).filters == old(self).filters
                    &&& final(self).clusters.value()@ == (if groups_eps(c.1).len() == 0 {
                        old(self).clusters.value()@
                    } else {
                        insert_cluster(old(self).clusters.value()@, c)
                    })
                },
                ResourceV::Cluster(oc) => {
                    &&& r is Ok
                    &&& final(self).filters == old(self).filters
                    &&& final(self).clusters.value()@ == (match oc {
                        Some(c) => if groups_eps(c.1).len() == 0 {
                            old(self).clusters.value()@
                        } else {
                            insert_cluster(old(self).clusters.value()@, c)
                        },
                        None => old(self).clusters.value()@,
                    })
                },
                ResourceV::Listener(chains) => {
                    let cfgs = if chains.len() == 0 {
                        Seq::<FilterCfgV>::empty()
                    } else {
                        chains[0]
                    };
                    match r {
                        Ok(_) => {
                            &&& chain_error(cfgs) is None
                            &&& final(self).clusters == old(self).clusters
                            &&& final(self).filters.value()@ == chain_of(cfgs)
                        },
                        Err(e) => {
                            &&& final(self).clusters == old(self).clusters
                            &&& final(self).filters == old(self).filters
                            &&& (chain_error(cfgs) matches Some(bad) && match e {
                                ValidationError::NotFound(n) => n@ == bad.0
                                    && !crate::filter::registry_has(bad.0),
                                ValidationError::InvalidConfig(n) => n@ == bad.0
                                    && crate::filter::registry_has(bad.0),
                            })
                        },
                    }
                },
            },
    {
        match resource {
            Resource::Endpoint(c) => {
                self.apply_cluster(c);
                Ok(())
            },
            Resource::Cluster(oc) => {
                match oc {
                    Some(c) => {
                        self.apply_cluster(c);
                    },
                    None => {},
                }
                Ok(())
            },
            Resource::Listener(chains) => {
                let empty: Vec<Filter> = Vec::new();
                let first: &Vec<Filter> = if chains.len() == 0 {
                    &empty
                } else {
                    &chains[0]
                };
                proof {
                    if chains@.len() == 0 {
                        assert(first@.map_values(|f: Filter| f@) =~= Seq::<FilterCfgV>::empty());
                    }
                }
                match FilterChain::try_from(first) {
                    Ok(chain) => {
                        self.filters.store(chain);
                        Ok(())
                    },
                    Err(e) => Err(e),
                }
            },
        }
    }

    /// Inserts a cluster with at least one endpoint; ignores an empty one.
    fn apply_cluster(&mut self, cluster: &Cluster)
        requires
            old(self).wf(),
            crate::locality::groups_wf(cluster@.1),
        ensures
            final(self).wf(),
            final(self).filters == old(self).filters,
            final(self).id == old(self).id,
            final(self).version == old(self).version,
            final(self).clusters.value()@ == (if groups_eps(cluster@.1).len() == 0 {
                old(self).clusters.value()@
            } else {
                insert_cluster(old(self).clusters.value()@, cluster@)
            }),
    {
        if cluster.num_endpoints() == 0 {
            return;
        }
        let mut map = self.clusters.replace(ClusterMap::new());
        map.insert(cluster.clone());
        self.clusters.store(map);
    }

    /// The counts the metrics gauges track: how many clusters the map holds
    /// and how many endpoints they hold in total.
    pub fn apply_metrics(&self) -> (r: (usize, usize))
        ensures
            r.0 == self.clusters.value()@.len(),
            r.1 == clusters_eps(self.clusters.value()@).len(),
    {
        let clusters = self.clusters.load();
        (clusters.len(), clusters.num_endpoints())
    }

    /// Answers a discovery request against the current configuration: every
    /// cluster as an endpoint assignment, the current filter chain as a
    /// listener, or the clusters selected by name.
    pub fn discovery_request(&self, _node_id: &String, resource_type: ResourceType, names: &Vec<
        String,
    >) -> (r: DiscoveryResponse)
        ensures
            r.resource_type == resource_type,
            match resource_type {
                ResourceType::Endpoint => r.resources@.map_values(|x: Resource| x@)
                    == self.clusters.value()@.map_values(|c: ClusterV| ResourceV::Endpoint(c)),
                ResourceType::Listener => r.resources@.map_values(|x: Resource| x@) == seq![
                    ResourceV::Listener(
                        seq![
                            self.filters.value()@.map_values(|f: FilterV| cfg_of_filter(f))
                        ],
                    ),
                ],
                ResourceType::Cluster => r.resources@.map_values(|x: Resource| x@)
                    == selected_clusters(
                    self.clusters.value()@,
                    names@.map_values(|n: String| n@),
                ).map_values(|c: ClusterV| ResourceV::Cluster(Some(c))),
            },
    {
        let mut resources: Vec<Resource> = Vec::new();
        match resource_type {
            ResourceType::Endpoint => {
                let ghost cs = self.clusters.value()@;
                let clusters = self.clusters.load().iter();
                let n = clusters.len();
                let mut i: usize = 0;
                while i < n
                    invariant
                        n == clusters.len(),
                        0 <= i <= n,
                        cs == clusters@.map_values(|c: Cluster| c@),
                        resources@.map_values(|x: Resource| x@) == cs.take(i as int).map_values(
                            |c: ClusterV| ResourceV::Endpoint(c),
                        ),
                    decreases n - i,
                {
                    let c = clusters[i].clone();
                    proof {
                        assert(cs.take(i + 1 as int) =~= cs.take(i as int).push(
                            clusters@[i as int]@,
                        ));
                    }
                    let ghost prevres = resources@;
                    let ghost cv = c@;
                    resources.push(Resource::Endpoint(c));
                    proof {
                        assert(resources@.map_values(|x: Resource| x@) =~= prevres.map_values(
                            |x: Resource| x@,
                        ).push(ResourceV::Endpoint(cv)));
                        assert(resources@.map_values(|x: Resource| x@) =~= cs.take(
                            i + 1 as int,
                        ).map_values(|c: ClusterV| ResourceV::Endpoint(c)));
                    }
                    i += 1;
                }
                proof {
                    assert(cs.take(n as int) =~= cs);
                }
            },
            ResourceType::Listener => {
                let chain_cfg = self.filters.load().describe();
                let ghost ccv = chain_cfg@.map_values(|f: Filter| f@);
                let mut chains: Vec<Vec<Filter>> = Vec::new();
                chains.push(chain_cfg);
                let ghost chv = chains@;
                let listener = Resource::Listener(chains);
                let ghost lv = listener@;
                resources.push(listener);
                proof {
                    assert(ccv == self.filters.value()@.map_values(|f: FilterV| cfg_of_filter(f)));
                    assert(chv[0]@.map_values(|f: Filter| f@) == ccv);
                    assert(lv == ResourceV::Listener(
                        chv.map_values(|ch: Vec<Filter>| ch@.map_values(|f: Filter| f@)),
                    ));
                    assert(chv.map_values(|ch: Vec<Filter>| ch@.map_values(|f: Filter| f@))
                        =~= seq![ccv]);
                    assert(resources@.map_values(|x: Resource| x@) =~= seq![lv]);
                    assert(resources@.map_values(|x: Resource| x@) =~= seq![
                        ResourceV::Listener(
                            seq![
                                self.filters.value()@.map_values(|f: FilterV| cfg_of_filter(f))
                            ],
                        ),
                    ]);
                }
            },
            ResourceType::Cluster => {
                let ghost cs = self.clusters.value()@;
                let ghost nms = names@.map_values(|n: String| n@);
                let clusters = self.clusters.load();
                let n = names.len();
                let mut i: usize = 0;
                while i < n
                    invariant
                        n == names.len(),
                        0 <= i <= n,
                        cs == clusters@,
                        clusters == self.clusters.value(),
                        nms == names@.map_values(|n: String| n@),
                        resources@.map_values(|x: Resource| x@) == selected_clusters(
                            cs,
                            nms.take(i as int),
                        ).map_values(|c: ClusterV| ResourceV::Cluster(Some(c))),
                    decreases n - i,
                {
                    proof {
                        assert(nms.take(i + 1 as int).drop_last() =~= nms.take(i as int));
                        assert(nms.take(i + 1 as int).last() == names@[i as int]@);
                    }
                    match clusters.get(&names[i]) {
                        Some(c) => {
                            let copy = c.clone();
                            let ghost prevres = resources@;
                            let ghost cv = copy@;
                            resources.push(Resource::Cluster(Some(copy)));
                            proof {
                                assert(resources@.map_values(|x: Resource| x@) =~= prevres
                                    .map_values(|x: Resource| x@).push(
                                    ResourceV::Cluster(Some(cv)),
                                ));
                                assert(selected_clusters(cs, nms.take(i + 1 as int))
                                    =~= selected_clusters(cs, nms.take(i as int)).push(cv));
                                assert(resources@.map_values(|x: Resource| x@) =~= selected_clusters(
                                    cs,
                                    nms.take(i + 1 as int),
                                ).map_values(|c: ClusterV| ResourceV::Cluster(Some(c))));
                            }
                        },
                        None => {
                            proof {
                                assert(selected_clusters(cs, nms.take(i + 1 as int))
                                    =~= selected_clusters(cs, nms.take(i as int)));
                            }
                        },
                    }
                    i += 1;
                }
                proof {
                    assert(nms.take(n as int) =~= nms);
                }
            },
        }
        DiscoveryResponse { resources, resource_type }
    }

    /// Replaces, slot by slot, whatever a partial configuration update
    /// carries, then re-files unlocated endpoints under the given locality.
    pub fn update_from_parts(
        &mut self,
        clusters: Option<ClusterMap>,
        filters: Option<FilterChain>,
        id: Option<String>,
        locality: Option<crate::locality::Locality>,
    )
        requires
            old(self).wf(),
            clusters matches Some(m) ==> m.wf(),
        ensures
            final(self).wf(),
            final(self).version == old(self).version,
            ({
                let with_clusters = match clusters {
                    Some(m) => m@,
                    None => old(self).clusters.value()@,
                };
                final(self).clusters.value()@ == (match locality {
                    Some(l) => crate::cluster::promote_clusters(with_clusters, l@),
                    None => with_clusters,
                })
            }),
            final(self).filters.value() == (match filters {
                Some(f) => f,
                None => old(self).filters.value(),
            }),
            final(self).id.value() == (match id {
                Some(s) => s,
                None => old(self).id.value(),
            }),
    {
        match clusters {
            Some(m) => {
                self.clusters.store(m);
            },
            None => {},
        }
        match filters {
            Some(f) => {
                self.filters.store(f);
            },
            None => {},
        }
        match id {
            Some(s) => {
                self.id.store(s);
            },
            None => {},
        }
        match locality {
            Some(l) => {
                let mut map = self.clusters.replace(ClusterMap::new());
                map.update_unlocated_endpoints(&l);
                self.clusters.store(map);
            },
            None => {},
        }
    }
}

impl Config {
    /// Executable value equality of configurations: same identity, same
    /// clusters, same filter chain, same version.
    pub fn same(&self, other: &Config) -> (r: bool)
        ensures
            r == (self.id.value()@ == other.id.value()@ && self.clusters.value()@
                == other.clusters.value()@ && self.filters.value()@ == other.filters.value()@
                && self.version.value() == other.version.value()),
    {
        *self.id.load() == *other.id.load() && self.clusters.load().same(other.clusters.load())
            && self.filters.load().same(other.filters.load()) && *self.version.load()
            == *other.version.load()
    }
}

impl Default for Config {
    /// A fresh configuration: an empty default cluster, no filters, a
    /// non-empty proxy identity, and the current schema version.
    fn default() -> (r: Config)
        ensures
            r.wf(),
            r.clusters.value()@ == seq![
                (Seq::<char>::empty(), Seq::<crate::locality::GroupV>::empty()),
            ],
            r.filters.value()@ == Seq::<FilterV>::empty(),
            r.id.value()@.len() >= 1,
            r.version.value() == Version::V1Alpha1,
    {
        Config {
            clusters: Slot::new(ClusterMap::new()),
            filters: Slot::new(FilterChain::empty()),
            id: Slot::new(default_proxy_id()),
            version: Slot::new(Version::V1Alpha1),
        }
    }
}

} // verus!

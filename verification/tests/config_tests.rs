use quilkin::cluster::{Cluster, ClusterMap};
use quilkin::config::{Config, Resource, ResourceType};
use quilkin::endpoint::{Endpoint, EndpointAddress};
use quilkin::filter::{Filter, ValidationError};
use quilkin::locality::{LocalityEndpoints, LocalitySet};

fn addr(ip: u128, port: u16) -> EndpointAddress {
    EndpointAddress { ip, port }
}

fn ep(ip: u128, port: u16) -> Endpoint {
    Endpoint::new(addr(ip, port))
}

fn cluster(name: &str, eps: Vec<Endpoint>) -> Cluster {
    Cluster::new(
        name.to_string(),
        LocalitySet::new(vec![LocalityEndpoints::new(eps)]),
    )
}

#[test]
fn default_config_has_a_default_cluster_and_an_id() {
    let config = Config::default();
    let (clusters, endpoints) = config.apply_metrics();
    assert_eq!(clusters, 1);
    assert_eq!(endpoints, 0);
    assert!(config.id.load().len() >= 1);
}

#[test]
fn cluster_map_insert_replaces_by_name() {
    let mut map = ClusterMap::new();
    map.insert(cluster("game", vec![ep(1, 10), ep(2, 20)]));
    assert_eq!(map.len(), 2);
    assert_eq!(map.num_endpoints(), 2);
    map.insert(cluster("game", vec![ep(3, 30)]));
    assert_eq!(map.len(), 2);
    assert_eq!(map.num_endpoints(), 1);
    let got = map.get(&"game".to_string()).unwrap();
    assert_eq!(got.name, "game");
    assert!(map.get(&"missing".to_string()).is_none());
}

#[test]
fn insert_default_fills_the_default_cluster() {
    let mut map = ClusterMap::new();
    map.insert_default(vec![ep(1, 10), ep(2, 20), ep(1, 10)]);
    assert_eq!(map.len(), 1);
    assert_eq!(map.num_endpoints(), 2);
    let eps = map.endpoints();
    assert!(eps[0].same(&ep(1, 10)));
    assert!(eps[1].same(&ep(2, 20)));
}

#[test]
fn update_unlocated_endpoints_promotes_the_unlocated_group() {
    let mut map = ClusterMap::new();
    map.insert_default(vec![ep(1, 10)]);
    let loc = quilkin::locality::Locality::new("r".to_string(), "z".to_string(), "".to_string());
    map.update_unlocated_endpoints(&loc);
    assert_eq!(map.num_endpoints(), 1);
    let default = map.get(&"".to_string()).unwrap();
    let groups = default.localities.iter();
    assert_eq!(groups.len(), 1);
    assert!(groups[0].locality.as_ref().unwrap().same(&loc));
}

#[test]
fn apply_endpoint_resource_inserts_the_cluster() {
    let mut config = Config::default();
    let r = config.apply(&Resource::Endpoint(cluster("game", vec![ep(9, 90)])));
    assert!(r.is_ok());
    let (clusters, endpoints) = config.apply_metrics();
    assert_eq!(clusters, 2);
    assert_eq!(endpoints, 1);
}

#[test]
fn apply_ignores_an_empty_assignment() {
    // A momentarily-empty endpoint assignment must not blackhole traffic.
    let mut config = Config::default();
    config
        .apply(&Resource::Endpoint(cluster("game", vec![ep(9, 90)])))
        .unwrap();
    config.apply(&Resource::Endpoint(cluster("game", vec![]))).unwrap();
    let (_, endpoints) = config.apply_metrics();
    assert_eq!(endpoints, 1);
    config.apply(&Resource::Cluster(None)).unwrap();
    assert_eq!(config.apply_metrics().1, 1);
}

#[test]
fn apply_listener_stores_the_chain() {
    let mut config = Config::default();
    let r = config.apply(&Resource::Listener(vec![vec![Filter::new(
        "pass".to_string(),
        None,
    )]]));
    assert!(r.is_ok());
    assert_eq!(config.filters.load().len(), 1);
}

#[test]
fn apply_rejects_an_unknown_filter_and_keeps_the_old_chain() {
    // A listener naming an unregistered filter fails at apply time; the
    // filter slot is unchanged and the data plane keeps the previous chain.
    let mut config = Config::default();
    config
        .apply(&Resource::Listener(vec![vec![Filter::new(
            "pass".to_string(),
            None,
        )]]))
        .unwrap();
    let r = config.apply(&Resource::Listener(vec![vec![
        Filter::new("pass".to_string(), None),
        Filter::new("TestFilter".to_string(), None),
    ]]));
    match r {
        Err(ValidationError::NotFound(name)) => assert_eq!(name, "TestFilter"),
        other => panic!("expected a not-found error, got {:?}", other),
    }
    assert_eq!(config.filters.load().len(), 1);
}

#[test]
fn discovery_request_lists_every_cluster() {
    let mut config = Config::default();
    config
        .apply(&Resource::Endpoint(cluster("game", vec![ep(1, 10)])))
        .unwrap();
    let response = config.discovery_request(
        &"node".to_string(),
        ResourceType::Endpoint,
        &vec![],
    );
    assert_eq!(response.resource_type, ResourceType::Endpoint);
    assert_eq!(response.resources.len(), 2);
}

#[test]
fn discovery_request_describes_the_listener() {
    let mut config = Config::default();
    config
        .apply(&Resource::Listener(vec![vec![Filter::new(
            "drop".to_string(),
            None,
        )]]))
        .unwrap();
    let response = config.discovery_request(
        &"node".to_string(),
        ResourceType::Listener,
        &vec![],
    );
    assert_eq!(response.resources.len(), 1);
    match &response.resources[0] {
        Resource::Listener(chains) => {
            assert_eq!(chains.len(), 1);
            assert_eq!(chains[0].len(), 1);
            assert_eq!(chains[0][0].name, "drop");
        }
        other => panic!("expected a listener resource, got {:?}", other),
    }
}

#[test]
fn discovery_request_selects_clusters_by_name() {
    let mut config = Config::default();
    config
        .apply(&Resource::Endpoint(cluster("a", vec![ep(1, 10)])))
        .unwrap();
    config
        .apply(&Resource::Endpoint(cluster("b", vec![ep(2, 20)])))
        .unwrap();
    let response = config.discovery_request(
        &"node".to_string(),
        ResourceType::Cluster,
        &vec!["b".to_string(), "missing".to_string()],
    );
    assert_eq!(response.resources.len(), 1);
    match &response.resources[0] {
        Resource::Cluster(Some(c)) => assert_eq!(c.name, "b"),
        other => panic!("expected a cluster resource, got {:?}", other),
    }
}

#[test]
fn slot_load_returns_the_stored_value() {
    let mut slot = quilkin::slot::Slot::new(7u64);
    assert_eq!(*slot.load(), 7);
    slot.store(9);
    assert_eq!(*slot.load(), 9);
    let previous = slot.replace(11);
    assert_eq!(previous, 9);
    assert_eq!(*slot.load(), 11);
}

#[test]
fn value_equality_tracks_configuration_changes() {
    let mut a = Config::default();
    let mut b = Config::default();
    let shared_id = "proxy-a".to_string();
    a.id.store(shared_id.clone());
    b.id.store(shared_id);
    assert!(a.same(&b));
    a.apply(&Resource::Endpoint(cluster("game", vec![ep(1, 10)])))
        .unwrap();
    assert!(!a.same(&b));
    b.apply(&Resource::Endpoint(cluster("game", vec![ep(1, 10)])))
        .unwrap();
    assert!(a.same(&b));
    a.apply(&Resource::Listener(vec![vec![Filter::new("pass".to_string(), None)]]))
        .unwrap();
    assert!(!a.same(&b));
}

#[test]
fn clones_compare_equal_by_value() {
    let mut map = ClusterMap::new();
    map.insert(cluster("game", vec![ep(1, 10), ep(2, 20)]));
    let copy = map.clone();
    assert!(map.same(&copy));
    let c = cluster("game", vec![ep(1, 10)]);
    let c2 = c.clone();
    assert!(c.same(&c2));
}

#[test]
fn update_from_parts_replaces_what_it_carries() {
    let mut config = Config::default();
    let mut map = ClusterMap::new();
    map.insert_default(vec![ep(1, 10)]);
    config.update_from_parts(
        Some(map),
        None,
        Some("renamed".to_string()),
        Some(quilkin::locality::Locality::new(
            "r".to_string(),
            "z".to_string(),
            "".to_string(),
        )),
    );
    assert_eq!(*config.id.load(), "renamed");
    assert_eq!(config.apply_metrics(), (1, 1));
    let map = config.clusters.load();
    let default = map.get(&"".to_string()).unwrap();
    let groups = default.localities.iter();
    assert_eq!(groups.len(), 1);
    assert!(groups[0].locality.is_some());
}

#[test]
fn default_cluster_constructor_matches_insert_default() {
    let a = ClusterMap::new_with_default_cluster(vec![ep(1, 25999)]);
    let mut b = ClusterMap::new();
    b.insert_default(vec![ep(1, 25999)]);
    assert!(a.same(&b));
    assert_eq!(a.len(), 1);
    assert_eq!(a.num_endpoints(), 1);
}

use quilkin::endpoint::{bytes_eq, Endpoint, EndpointAddress};
use quilkin::locality::{Locality, LocalityEndpoints, LocalitySet};

fn addr(ip: u128, port: u16) -> EndpointAddress {
    EndpointAddress { ip, port }
}

fn ep(ip: u128, port: u16) -> Endpoint {
    Endpoint::new(addr(ip, port))
}

fn locality(region: &str, zone: &str, sub_zone: &str) -> Locality {
    Locality::new(region.to_string(), zone.to_string(), sub_zone.to_string())
}

#[test]
fn endpoint_equality_is_by_value() {
    let a = ep(1, 10);
    let b = ep(1, 10);
    let c = ep(2, 10);
    assert!(a.same(&b));
    assert!(!a.same(&c));
    let with_tokens = Endpoint::with_metadata(addr(1, 10), vec![vec![1u8, 2u8]]);
    assert!(!a.same(&with_tokens));
    assert!(bytes_eq(&vec![1u8, 2u8], &vec![1u8, 2u8]));
    assert!(!bytes_eq(&vec![1u8], &vec![1u8, 2u8]));
}

#[test]
fn new_locality_endpoints_deduplicates() {
    let group = LocalityEndpoints::new(vec![ep(1, 10), ep(1, 10), ep(2, 20)]);
    assert_eq!(group.endpoints.len(), 2);
    assert!(group.locality.is_none());
    assert!(group.endpoints[0].same(&ep(1, 10)));
    assert!(group.endpoints[1].same(&ep(2, 20)));
}

#[test]
fn with_locality_sets_the_key() {
    let group = LocalityEndpoints::new(vec![ep(1, 10)]).with_locality(Some(locality(
        "us-west1",
        "a",
        "",
    )));
    assert!(group.locality.is_some());
    assert!(group.locality.as_ref().unwrap().same(&locality("us-west1", "a", "")));
}

#[test]
fn remove_deletes_by_value() {
    let mut group = LocalityEndpoints::new(vec![ep(1, 10), ep(2, 20)]);
    group.remove(&ep(1, 10));
    assert_eq!(group.endpoints.len(), 1);
    assert!(group.endpoints[0].same(&ep(2, 20)));
    group.remove(&ep(3, 30));
    assert_eq!(group.endpoints.len(), 1);
}

#[test]
fn insert_merges_same_locality() {
    // Two groups under the same locality collapse to one entry whose
    // endpoint set is the union of both.
    let mut set = LocalitySet::empty();
    let a = LocalityEndpoints::new(vec![ep(1, 10), ep(2, 20)])
        .with_locality(Some(locality("r", "z", "s")));
    let b = LocalityEndpoints::new(vec![ep(2, 20), ep(3, 30)])
        .with_locality(Some(locality("r", "z", "s")));
    set.insert(a);
    set.insert(b);
    assert_eq!(set.len(), 1);
    let entry = &set.iter()[0];
    assert_eq!(entry.endpoints.len(), 3);
    assert!(entry.endpoints[0].same(&ep(1, 10)));
    assert!(entry.endpoints[1].same(&ep(2, 20)));
    assert!(entry.endpoints[2].same(&ep(3, 30)));
}

#[test]
fn insert_keeps_distinct_localities_apart() {
    let mut set = LocalitySet::empty();
    set.insert(LocalityEndpoints::new(vec![ep(1, 10)]).with_locality(Some(locality("a", "", ""))));
    set.insert(LocalityEndpoints::new(vec![ep(2, 20)]).with_locality(Some(locality("b", "", ""))));
    set.insert(LocalityEndpoints::new(vec![ep(3, 30)]));
    assert_eq!(set.len(), 3);
}

#[test]
fn locality_set_remove_and_clear() {
    let mut set = LocalitySet::new(vec![
        LocalityEndpoints::new(vec![ep(1, 10)]),
        LocalityEndpoints::new(vec![ep(2, 20)]).with_locality(Some(locality("r", "", ""))),
    ]);
    assert_eq!(set.len(), 2);
    let removed = set.remove(&None);
    assert!(removed.is_some());
    assert_eq!(removed.unwrap().endpoints.len(), 1);
    assert_eq!(set.len(), 1);
    assert!(set.remove(&None).is_none());
    set.clear();
    assert_eq!(set.len(), 0);
}

#[test]
fn locality_equality_is_lexicographic_fields() {
    let a = locality("r", "z", "s");
    assert!(a.same(&locality("r", "z", "s")));
    assert!(!a.same(&locality("r", "z", "")));
    assert!(!a.same(&locality("", "z", "s")));
}

#[test]
fn iter_mut_edits_are_observed() {
    let mut set = LocalitySet::new(vec![LocalityEndpoints::new(vec![ep(1, 10), ep(2, 20)])]);
    for group in set.iter_mut().iter_mut() {
        group.remove(&ep(1, 10));
    }
    let groups = set.iter();
    assert_eq!(groups.len(), 1);
    assert_eq!(groups[0].endpoints.len(), 1);
    assert!(groups[0].endpoints[0].same(&ep(2, 20)));
}

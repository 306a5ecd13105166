use rp::inventory::{
    pool_status, InnerInventory, Pool, PoolLease, PoolStatus, Resource, ResourceRequest,
    ResourceRequestError, DEFAULT_LEASE_TIME, NANOS_PER_MILLI, NANOS_PER_SEC,
};
use rp::session::{RequestSession, Step, Wake};
use std::collections::HashMap;

fn strings(items: &[&str]) -> Vec<String> {
    items.iter().map(|s| s.to_string()).collect()
}

fn resource(attributes: &[&str]) -> Resource {
    Resource {
        attributes: strings(attributes),
        properties: HashMap::new(),
    }
}

fn build_simple_inventory() -> InnerInventory {
    InnerInventory::new(vec![Pool {
        name: "pool1".into(),
        attributes: vec!["attr1".into(), "attr2".into()],
        location: "location1".into(),
        resources: vec![resource(&["RA1", "RA2"]), resource(&["RB1", "RB2"])],
        user: None,
    }])
}

fn build_ok_request() -> ResourceRequest {
    ResourceRequest {
        pool_attributes: Some(vec!["attr1".into()]),
        ..Default::default()
    }
}

fn pool(name: &str, attributes: &[&str], location: &str, resources: Vec<Resource>) -> Pool {
    Pool {
        name: name.into(),
        attributes: strings(attributes),
        location: location.into(),
        resources,
        user: None,
    }
}

fn holder(inventory: &InnerInventory, index: usize) -> Option<String> {
    inventory.pools()[index].user.clone()
}

#[test]
fn lib_test_by_name_positive() {
    let mut inventory = build_simple_inventory();
    let ok_request = ResourceRequest {
        by_name: Some("pool1".into()),
        ..Default::default()
    };
    assert!(inventory.try_acquire(&ok_request, "client_a").is_ok());
}

#[test]
fn lib_test_by_name_negative() {
    let mut inventory = build_simple_inventory();
    let nok_request = ResourceRequest {
        by_name: Some("pool_not_there".into()),
        ..Default::default()
    };
    assert!(matches!(
        inventory.try_acquire(&nok_request, "client_a"),
        Err(ResourceRequestError::Impossible)
    ));
}

#[test]
fn lib_test_ok_pool_attributes() {
    let mut inventory = build_simple_inventory();
    let ok_request = build_ok_request();
    assert!(inventory.try_acquire(&ok_request, "client_a").is_ok());
}

#[test]
fn lib_test_nok_pool_attributes() {
    let mut inventory = build_simple_inventory();
    let ok_request = build_ok_request();
    let nok_request = ResourceRequest {
        pool_attributes: Some(vec!["attr3".into()]),
        ..ok_request.clone()
    };
    assert!(matches!(
        inventory.try_acquire(&nok_request, "client_a"),
        Err(ResourceRequestError::Impossible)
    ));
}

#[test]
fn lib_test_nok_location() {
    let mut inventory = build_simple_inventory();
    let ok_request = build_ok_request();
    let nok_request = ResourceRequest {
        location: Some("abroad".into()),
        ..ok_request.clone()
    };
    assert!(matches!(
        inventory.try_acquire(&nok_request, "client_a"),
        Err(ResourceRequestError::Impossible)
    ));
}

#[test]
fn lib_test_resource_attributes_match() {
    let mut inventory = build_simple_inventory();
    let ok_request = build_ok_request();
    let ra_ok_request = ResourceRequest {
        resource_attributes: Some(vec![vec!["RA1".into()]]),
        ..ok_request.clone()
    };
    assert!(inventory.try_acquire(&ra_ok_request.clone(), "client_a").is_ok());
}

#[test]
fn lib_test_resource_attributes_mismatch() {
    let mut inventory = build_simple_inventory();
    let ok_request = build_ok_request();
    let nok_request = ResourceRequest {
        resource_attributes: Some(vec![vec!["RA3".into()]]),
        ..ok_request.clone()
    };
    let result = inventory.try_acquire(&nok_request, "client_a");
    assert!(
        matches!(result.as_ref(), Err(ResourceRequestError::Impossible)),
        "Unexpected error: {:?}",
        result.as_ref().unwrap_err()
    );
}

#[test]
fn lib_test_concurrent_usage_returns_error() {
    let mut inventory = build_simple_inventory();
    let ok_request = build_ok_request();
    // client_a acquires and holds for a second
    let held = inventory.try_acquire(&ok_request.clone(), "client_a");
    assert!(held.is_ok());
    // client_b asks after 100 ms, without a timeout
    let session = RequestSession::begin(&ok_request, 100 * NANOS_PER_MILLI);
    let outcome = inventory.try_acquire(&ok_request.clone(), "client_b");
    let step = session.after_attempt(outcome, 100 * NANOS_PER_MILLI);
    assert!(matches!(
        step,
        Step::Finished(Err(ResourceRequestError::InUse))
    ));
}

#[test]
fn lib_test_concurrent_timeout() {
    let mut inventory = build_simple_inventory();
    let ok_request = build_ok_request();
    let ok_with_timeout = ResourceRequest {
        timeout: Some(500 * NANOS_PER_MILLI),
        ..ok_request.clone()
    };
    // client_a acquires and holds for a second
    let held = inventory.try_acquire(&ok_request, "client_a");
    assert!(held.is_ok());
    // client_b asks after 100 ms and waits; its timer fires 500 ms later
    let session = RequestSession::begin(&ok_with_timeout, 100 * NANOS_PER_MILLI);
    let outcome = inventory.try_acquire(&ok_with_timeout, "client_b");
    let step = session.after_attempt(outcome, 100 * NANOS_PER_MILLI);
    assert!(matches!(step, Step::Wait { remaining } if remaining == 500 * NANOS_PER_MILLI));
    let step = session.after_wake(Wake::TimerFired, 600 * NANOS_PER_MILLI);
    assert!(matches!(
        step,
        Step::Finished(Err(ResourceRequestError::TimeOut))
    ));
    assert_eq!(holder(&inventory, 0), Some("client_a".to_string()));
}

#[test]
fn lib_test_concurrent_becomes_available() {
    let mut inventory = build_simple_inventory();
    let ok_request = build_ok_request();
    let ok_with_timeout = ResourceRequest {
        timeout: Some(1000 * NANOS_PER_MILLI),
        ..ok_request.clone()
    };
    let lease = inventory.try_acquire(&ok_request, "client_a");
    assert!(lease.is_ok());
    // client_b asks after 100 ms and waits
    let session = RequestSession::begin(&ok_with_timeout, 100 * NANOS_PER_MILLI);
    let outcome = inventory.try_acquire(&ok_with_timeout, "client_b");
    let step = session.after_attempt(outcome, 100 * NANOS_PER_MILLI);
    assert!(matches!(step, Step::Wait { .. }));
    // client_a lets go, which wakes client_b
    assert!(inventory.release(lease.unwrap()));
    let step = session.after_wake(Wake::Notified, 200 * NANOS_PER_MILLI);
    assert!(matches!(step, Step::Retry));
    let outcome = inventory.try_acquire(&ok_with_timeout, "client_b");
    let step = session.after_attempt(outcome, 200 * NANOS_PER_MILLI);
    let result = match step {
        Step::Finished(result) => result,
        other => panic!("unexpected step: {:?}", other),
    };
    assert!(
        result.is_ok(),
        "Unexpected error: {:?}",
        result.unwrap_err()
    );
    assert_eq!(holder(&inventory, 0), Some("client_b".to_string()));
}

#[test]
fn by_name_lease_has_no_pairing_and_names_the_holder() {
    let mut inventory = build_simple_inventory();
    let request = ResourceRequest {
        by_name: Some("pool1".into()),
        ..Default::default()
    };
    let lease: PoolLease = inventory.try_acquire(&request, "client_a").unwrap();
    assert!(lease.pairing().is_none());
    assert_eq!(lease.pool().name, "pool1");
    assert_eq!(lease.pool().user, Some("client_a".to_string()));
    assert_eq!(lease.pool_index(), 0);
    assert_eq!(lease.leasetime(), 1_234_000_000_000);
    assert_eq!(lease.leasetime(), DEFAULT_LEASE_TIME);
    assert_eq!(DEFAULT_LEASE_TIME, 1234 * NANOS_PER_SEC);
    assert_eq!(holder(&inventory, 0), Some("client_a".to_string()));
}

#[test]
fn location_and_attribute_must_both_match() {
    let mut inventory = build_simple_inventory();
    let request = ResourceRequest {
        location: Some("abroad".into()),
        pool_attributes: Some(vec!["attr1".into()]),
        ..Default::default()
    };
    assert_eq!(
        inventory.try_acquire(&request, "client_a").unwrap_err(),
        ResourceRequestError::Impossible
    );
    let at_home = ResourceRequest {
        location: Some("location1".into()),
        pool_attributes: Some(vec!["attr2".into(), "attr1".into()]),
        ..Default::default()
    };
    assert!(inventory.try_acquire(&at_home, "client_a").is_ok());
}

#[test]
fn pairing_lists_each_requested_set_with_its_resource() {
    let mut inventory = build_simple_inventory();
    let request = ResourceRequest {
        resource_attributes: Some(vec![vec!["RA1".into()]]),
        ..Default::default()
    };
    let lease = inventory.try_acquire(&request, "client_a").unwrap();
    let pairing = lease.pairing().as_ref().unwrap();
    assert_eq!(pairing.len(), 1);
    assert_eq!(pairing[0].0, strings(&["RA1"]));
    assert_eq!(pairing[0].1.attributes, strings(&["RA1", "RA2"]));
    // a pairing lease makes nobody the holder
    assert_eq!(holder(&inventory, 0), None);
    assert_eq!(lease.pool().user, None);
}

#[test]
fn pairing_is_served_whether_or_not_the_pool_is_held() {
    let mut inventory = build_simple_inventory();
    let whole = inventory.try_acquire(&build_ok_request(), "client_a").unwrap();
    let request = ResourceRequest {
        resource_attributes: Some(vec![vec!["RA1".into()]]),
        ..Default::default()
    };
    let first = inventory.try_acquire(&request, "client_b");
    let second = inventory.try_acquire(&request, "client_c");
    assert!(first.is_ok());
    assert!(second.is_ok());
    assert_eq!(holder(&inventory, 0), Some("client_a".to_string()));
    assert_eq!(first.unwrap().pool().user, Some("client_a".to_string()));
    assert_eq!(whole.pool_index(), 0);
}

#[test]
fn name_filter_applies_to_pairing_requests_too() {
    let mut inventory = build_simple_inventory();
    let request = ResourceRequest {
        by_name: Some("pool_not_there".into()),
        resource_attributes: Some(vec![vec!["RA1".into()]]),
        ..Default::default()
    };
    assert_eq!(
        inventory.try_acquire(&request, "client_a").unwrap_err(),
        ResourceRequestError::Impossible
    );
}

#[test]
fn empty_list_of_resource_sets_gives_an_empty_pairing() {
    let mut inventory = build_simple_inventory();
    let request = ResourceRequest {
        resource_attributes: Some(vec![]),
        ..Default::default()
    };
    let lease = inventory.try_acquire(&request, "client_a").unwrap();
    assert_eq!(lease.pairing().as_ref().unwrap().len(), 0);
}

#[test]
fn first_leasable_pool_in_inventory_order_is_taken() {
    let mut inventory = InnerInventory::new(vec![
        pool("north", &["bench"], "lab1", vec![]),
        pool("south", &["bench", "fast"], "lab1", vec![]),
        pool("east", &["bench", "fast"], "lab2", vec![]),
    ]);
    let fast = ResourceRequest {
        pool_attributes: Some(strings(&["fast"])),
        ..Default::default()
    };
    let lease = inventory.try_acquire(&fast, "a").unwrap();
    assert_eq!(lease.pool_index(), 1);
    assert_eq!(lease.pool().name, "south");
    let lease = inventory.try_acquire(&fast, "b").unwrap();
    assert_eq!(lease.pool_index(), 2);
    assert_eq!(lease.pool().name, "east");
    assert_eq!(
        inventory.try_acquire(&fast, "c").unwrap_err(),
        ResourceRequestError::InUse
    );
    assert_eq!(holder(&inventory, 0), None);
    assert_eq!(holder(&inventory, 1), Some("a".to_string()));
    assert_eq!(holder(&inventory, 2), Some("b".to_string()));
}

#[test]
fn in_use_dominates_impossible() {
    let mut inventory = InnerInventory::new(vec![
        pool("north", &["bench"], "lab1", vec![]),
        pool("south", &["other"], "lab1", vec![]),
    ]);
    let bench = ResourceRequest {
        pool_attributes: Some(strings(&["bench"])),
        ..Default::default()
    };
    assert!(inventory.try_acquire(&bench, "a").is_ok());
    assert_eq!(
        inventory.try_acquire(&bench, "b").unwrap_err(),
        ResourceRequestError::InUse
    );
    let nothing = ResourceRequest {
        pool_attributes: Some(strings(&["missing"])),
        ..Default::default()
    };
    assert_eq!(
        inventory.try_acquire(&nothing, "b").unwrap_err(),
        ResourceRequestError::Impossible
    );
}

#[test]
fn failed_request_changes_nothing() {
    let mut inventory = build_simple_inventory();
    let nok = ResourceRequest {
        by_name: Some("pool_not_there".into()),
        ..Default::default()
    };
    assert!(inventory.try_acquire(&nok, "client_a").is_err());
    assert_eq!(inventory.pools().len(), 1);
    assert_eq!(holder(&inventory, 0), None);
    assert_eq!(inventory.pools()[0].name, "pool1");
    assert_eq!(inventory.pools()[0].attributes, strings(&["attr1", "attr2"]));
    assert_eq!(inventory.pools()[0].resources.len(), 2);
}

#[test]
fn empty_inventory_makes_every_request_impossible() {
    let mut inventory = InnerInventory::new(vec![]);
    assert_eq!(
        inventory
            .try_acquire(&ResourceRequest::default(), "a")
            .unwrap_err(),
        ResourceRequestError::Impossible
    );
}

#[test]
fn request_without_constraints_takes_the_first_free_pool() {
    let mut inventory = build_simple_inventory();
    let lease = inventory.try_acquire(&ResourceRequest::default(), "a").unwrap();
    assert_eq!(lease.pool().name, "pool1");
}

#[test]
fn release_frees_the_pool_and_the_same_request_succeeds_again() {
    let mut inventory = build_simple_inventory();
    let request = build_ok_request();
    let first = inventory.try_acquire(&request, "client_a").unwrap();
    assert_eq!(holder(&inventory, 0), Some("client_a".to_string()));
    assert!(inventory.release(first));
    assert_eq!(holder(&inventory, 0), None);
    let second = inventory.try_acquire(&request, "client_a").unwrap();
    assert_eq!(second.pool_index(), 0);
    assert_eq!(second.pool().name, "pool1");
    assert_eq!(holder(&inventory, 0), Some("client_a".to_string()));
}

#[test]
fn releasing_a_pairing_lease_frees_nothing() {
    let mut inventory = build_simple_inventory();
    let whole = inventory.try_acquire(&build_ok_request(), "client_a").unwrap();
    let request = ResourceRequest {
        resource_attributes: Some(vec![vec!["RB2".into()]]),
        ..Default::default()
    };
    let paired = inventory.try_acquire(&request, "client_a").unwrap();
    assert!(!inventory.release(paired));
    assert_eq!(holder(&inventory, 0), Some("client_a".to_string()));
    assert!(inventory.release(whole));
    assert_eq!(holder(&inventory, 0), None);
}

#[test]
fn lease_of_another_inventory_is_not_recognised() {
    let mut ours = build_simple_inventory();
    let mut theirs = InnerInventory::new(vec![pool("elsewhere", &["attr1"], "x", vec![])]);
    let held = ours.try_acquire(&build_ok_request(), "client_a").unwrap();
    let foreign = theirs.try_acquire(&build_ok_request(), "client_a").unwrap();
    assert!(!ours.release(foreign));
    assert_eq!(holder(&ours, 0), Some("client_a".to_string()));
    let mut empty = InnerInventory::new(vec![]);
    assert!(!empty.release(held));
}

#[test]
fn stale_lease_does_not_free_a_later_holder() {
    let mut first_life = build_simple_inventory();
    let mut second_life = build_simple_inventory();
    let stale = first_life.try_acquire(&build_ok_request(), "client_a").unwrap();
    let current = second_life.try_acquire(&build_ok_request(), "client_b").unwrap();
    assert!(!second_life.release(stale));
    assert_eq!(holder(&second_life, 0), Some("client_b".to_string()));
    assert!(second_life.release(current));
}

#[test]
fn at_most_one_exclusive_lease_per_pool() {
    let mut inventory = build_simple_inventory();
    let request = build_ok_request();
    let mut granted = 0;
    let mut live = Vec::new();
    for client in ["a", "b", "c", "d"] {
        if let Ok(lease) = inventory.try_acquire(&request, client) {
            granted += 1;
            live.push(lease);
        }
    }
    assert_eq!(granted, 1);
    assert_eq!(live[0].pool().user, Some("a".to_string()));
    assert!(inventory.release(live.pop().unwrap()));
    assert!(inventory.try_acquire(&request, "b").is_ok());
    assert!(inventory.try_acquire(&request, "c").is_err());
}

#[test]
fn clones_keep_every_field() {
    let request = ResourceRequest {
        location: Some("l".into()),
        pool_attributes: Some(strings(&["a", "b"])),
        resource_attributes: Some(vec![strings(&["x"]), strings(&["y", "z"])]),
        timeout: Some(7),
        by_name: Some("n".into()),
    };
    let copy = request.clone();
    assert_eq!(copy.location, request.location);
    assert_eq!(copy.pool_attributes, request.pool_attributes);
    assert_eq!(copy.resource_attributes, request.resource_attributes);
    assert_eq!(copy.timeout, Some(7));
    assert_eq!(copy.by_name, request.by_name);
    let mut properties = HashMap::new();
    properties.insert("serial".to_string(), "42".to_string());
    let source = Pool {
        name: "p".into(),
        attributes: strings(&["a"]),
        location: "l".into(),
        resources: vec![Resource { attributes: strings(&["r"]), properties }],
        user: Some("u".into()),
    };
    let copy = source.clone();
    assert_eq!(copy.name, "p");
    assert_eq!(copy.attributes, strings(&["a"]));
    assert_eq!(copy.location, "l");
    assert_eq!(copy.user, Some("u".to_string()));
    assert_eq!(copy.resources.len(), 1);
    assert_eq!(copy.resources[0].attributes, strings(&["r"]));
    assert_eq!(copy.resources[0].properties.get("serial"), Some(&"42".to_string()));
    let default = ResourceRequest::default();
    assert!(default.location.is_none() && default.pool_attributes.is_none());
    assert!(default.resource_attributes.is_none() && default.timeout.is_none());
    assert!(default.by_name.is_none());
}

#[test]
fn pool_status_follows_filters_pairing_and_holder() {
    let mut free = pool("north", &["bench"], "lab1", vec![resource(&["RA1"])]);
    let bench = ResourceRequest {
        pool_attributes: Some(strings(&["bench"])),
        ..Default::default()
    };
    let other = ResourceRequest {
        pool_attributes: Some(strings(&["other"])),
        ..Default::default()
    };
    let paired = ResourceRequest {
        resource_attributes: Some(vec![strings(&["RA1"])]),
        ..bench.clone()
    };
    let unpairable = ResourceRequest {
        resource_attributes: Some(vec![strings(&["RA1"]), strings(&["RA1"])]),
        ..bench.clone()
    };
    assert_eq!(pool_status(&free, &bench), PoolStatus::CandidateFree);
    assert_eq!(pool_status(&free, &other), PoolStatus::Skipped);
    assert_eq!(pool_status(&free, &paired), PoolStatus::CandidatePaired);
    assert_eq!(pool_status(&free, &unpairable), PoolStatus::Skipped);
    free.user = Some("somebody".into());
    assert_eq!(pool_status(&free, &bench), PoolStatus::CandidateHeld);
    assert_eq!(pool_status(&free, &other), PoolStatus::Skipped);
    assert_eq!(pool_status(&free, &paired), PoolStatus::CandidatePaired);
}

//! A small inventory and a request that it can serve, for trying the
//! service out.

use std::collections::HashMap;
use vstd::prelude::*;
use crate::inventory::{
    InnerInventory,
    Pool,
    PoolView,
    RequestView,
    Resource,
    ResourceRequest,
    ResourceView,
};
use crate::text::strings_view;

verus! {

/// A resource with the two given attributes and no properties.
pub open spec fn simple_resource(first: Seq<char>, second: Seq<char>) -> ResourceView {
    ResourceView { attributes: seq![first, second], properties: Map::empty() }
}

/// The one pool of the simple inventory: `pool1` at `location1`, with the
/// attributes `attr1` and `attr2` and two resources, held by nobody.
pub open spec fn simple_pool() -> PoolView {
    PoolView {
        name: "pool1"@,
        attributes: seq!["attr1"@, "attr2"@],
        location: "location1"@,
        resources: seq![simple_resource("RA1"@, "RA2"@), simple_resource("RB1"@, "RB2"@)],
        user: None,
    }
}

/// A list of the two given strings.
fn pair_of(first: &str, second: &str) -> (list: Vec<String>)
    ensures
        strings_view(list@) == seq![first@, second@],
{
    let mut list: Vec<String> = Vec::new();
    list.push(first.to_owned());
    list.push(second.to_owned());
    list
}

/// The simple inventory: the single pool [`simple_pool`].
pub fn build_simple_inventory() -> (inventory: InnerInventory)
    ensures
        inventory@ == seq![simple_pool()],
{
    let mut resources: Vec<Resource> = Vec::new();
    resources.push(Resource { attributes: pair_of("RA1", "RA2"), properties: HashMap::new() });
    resources.push(Resource { attributes: pair_of("RB1", "RB2"), properties: HashMap::new() });
    let pool = Pool {
        name: "pool1".to_owned(),
        attributes: pair_of("attr1", "attr2"),
        location: "location1".to_owned(),
        resources,
        user: None,
    };
    assert(pool@.resources =~= simple_pool().resources);
    let mut pools: Vec<Pool> = Vec::new();
    pools.push(pool);
    InnerInventory::new(pools)
}

/// A request that the simple inventory can serve: any pool that carries
/// the attribute `attr1`.
pub fn build_ok_request() -> (request: ResourceRequest)
    ensures
        request@ == (RequestView {
            location: None,
            pool_attributes: Some(seq!["attr1"@]),
            resource_attributes: None,
            timeout: None,
            by_name: None,
        }),
{
    let mut wanted: Vec<String> = Vec::new();
    wanted.push("attr1".to_owned());
    assert(strings_view(wanted@) =~= seq!["attr1"@]);
    let mut request = ResourceRequest::default();
    request.pool_attributes = Some(wanted);
    request
}

} // verus!

//! The inventory: the catalogue of pools, the requests made against it and
//! the leases it grants.
//!
//! The inventory is plain data. Whoever shares it between sessions guards it
//! with a lock and calls [`InnerInventory::try_acquire`] and
//! [`InnerInventory::release`] while holding that lock; neither of them
//! waits or suspends.
//!
//! Durations are counted in nanoseconds.

use std::collections::HashMap;
use vstd::prelude::*;
use crate::matcher::{
    opt_pairing_view,
    lemma_pairing_shape,
    pairing_of,
    pool_matches,
    pool_satisfies,
    solve_resource_matches,
};
use crate::text::{
    clone_opt_string,
    clone_string_lists,
    clone_strings,
    opt_string_lists_view,
    opt_string_view,
    opt_strings_view,
    strings_view,
};

verus! {

/// Nanoseconds in one second.
pub const NANOS_PER_SEC: u128 = 1_000_000_000;

/// Nanoseconds in one millisecond.
pub const NANOS_PER_MILLI: u128 = 1_000_000;

/// The time for which every lease is granted: 1234 seconds.
pub const DEFAULT_LEASE_TIME: u128 = 1_234_000_000_000;

/// Mathematical content of a [`Resource`].
pub struct ResourceView {
    pub attributes: Seq<Seq<char>>,
    pub properties: Map<String, String>,
}

/// An individual item inside a pool, tagged with the attributes by which
/// requests pick it.
#[derive(Debug)]
pub struct Resource {
    pub attributes: Vec<String>,
    pub properties: HashMap<String, String>,
}

impl View for Resource {
    type V = ResourceView;

    open spec fn view(&self) -> ResourceView {
        ResourceView { attributes: strings_view(self.attributes@), properties: self.properties@ }
    }
}

impl Clone for Resource {
    fn clone(&self) -> (copy: Resource)
        ensures
            copy@ == self@,
    {
        Resource {
            attributes: clone_strings(&self.attributes),
            properties: self.properties.clone(),
        }
    }
}

/// A list of resources, seen as the sequence of their views.
pub open spec fn resources_view(resources: Seq<Resource>) -> Seq<ResourceView> {
    Seq::new(resources.len(), |i: int| resources[i]@)
}

/// The attribute lists of a sequence of resources, in order.
pub open spec fn resource_attrs(resources: Seq<ResourceView>) -> Seq<Seq<Seq<char>>> {
    Seq::new(resources.len(), |i: int| resources[i].attributes)
}

/// Copies a list of resources.
pub fn clone_resources(resources: &Vec<Resource>) -> (copy: Vec<Resource>)
    ensures
        resources_view(copy@) == resources_view(resources@),
{
    let mut copy: Vec<Resource> = Vec::new();
    let mut i: usize = 0;
    while i < resources.len()
        invariant
            i <= resources.len(),
            copy.len() == i,
            forall|j: int| 0 <= j < i ==> copy@[j]@ == resources@[j]@,
        decreases resources.len() - i,
    {
        copy.push(resources[i].clone());
        i += 1;
    }
    copy
}

/// Mathematical content of a [`Pool`].
pub struct PoolView {
    pub name: Seq<char>,
    pub attributes: Seq<Seq<char>>,
    pub location: Seq<char>,
    pub resources: Seq<ResourceView>,
    pub user: Option<Seq<char>>,
}

/// A named bundle of resources that is leased as one unit.
///
/// `user` names the session that holds the pool, if any. It is the only
/// field that changes once the inventory has been built.
#[derive(Debug)]
pub struct Pool {
    pub name: String,
    pub attributes: Vec<String>,
    pub location: String,
    pub resources: Vec<Resource>,
    pub user: Option<String>,
}

impl View for Pool {
    type V = PoolView;

    open spec fn view(&self) -> PoolView {
        PoolView {
            name: self.name@,
            attributes: strings_view(self.attributes@),
            location: self.location@,
            resources: resources_view(self.resources@),
            user: opt_string_view(self.user),
        }
    }
}

impl Clone for Pool {
    fn clone(&self) -> (copy: Pool)
        ensures
            copy@ == self@,
    {
        Pool {
            name: self.name.clone(),
            attributes: clone_strings(&self.attributes),
            location: self.location.clone(),
            resources: clone_resources(&self.resources),
            user: clone_opt_string(&self.user),
        }
    }
}

/// A list of pools, seen as the sequence of their views.
pub open spec fn pools_view(pools: Seq<Pool>) -> Seq<PoolView> {
    Seq::new(pools.len(), |i: int| pools[i]@)
}

/// Mathematical content of a [`ResourceRequest`].
pub struct RequestView {
    pub location: Option<Seq<char>>,
    pub pool_attributes: Option<Seq<Seq<char>>>,
    pub resource_attributes: Option<Seq<Seq<Seq<char>>>>,
    pub timeout: Option<u128>,
    pub by_name: Option<Seq<char>>,
}

/// What a caller asks for. A field that is `None` puts no constraint.
///
/// `resource_attributes` holds one attribute set per resource that the
/// caller needs. `timeout`, in nanoseconds, is how long the caller is ready
/// to wait for a pool that is in use; without it the caller does not wait.
#[derive(Debug)]
pub struct ResourceRequest {
    pub location: Option<String>,
    pub pool_attributes: Option<Vec<String>>,
    pub resource_attributes: Option<Vec<Vec<String>>>,
    pub timeout: Option<u128>,
    pub by_name: Option<String>,
}

impl View for ResourceRequest {
    type V = RequestView;

    open spec fn view(&self) -> RequestView {
        RequestView {
            location: opt_string_view(self.location),
            pool_attributes: opt_strings_view(self.pool_attributes),
            resource_attributes: opt_string_lists_view(self.resource_attributes),
            timeout: self.timeout,
            by_name: opt_string_view(self.by_name),
        }
    }
}

impl Clone for ResourceRequest {
    fn clone(&self) -> (copy: ResourceRequest)
        ensures
            copy@ == self@,
    {
        ResourceRequest {
            location: clone_opt_string(&self.location),
            pool_attributes: match &self.pool_attributes {
                Some(list) => Some(clone_strings(list)),
                None => None,
            },
            resource_attributes: match &self.resource_attributes {
                Some(lists) => Some(clone_string_lists(lists)),
                None => None,
            },
            timeout: self.timeout,
            by_name: clone_opt_string(&self.by_name),
        }
    }
}

impl Default for ResourceRequest {
    fn default() -> (request: ResourceRequest)
        ensures
            request@ == (RequestView {
                location: None,
                pool_attributes: None,
                resource_attributes: None,
                timeout: None,
                by_name: None,
            }),
    {
        ResourceRequest {
            location: None,
            pool_attributes: None,
            resource_attributes: None,
            timeout: None,
            by_name: None,
        }
    }
}

/// Why a request ended without a lease.
#[derive(Debug, Clone, Copy, PartialEq, Eq, Structural)]
pub enum ResourceRequestError {
    /// No pool of the inventory can ever satisfy the request.
    Impossible,
    /// A pool would do, but it is held.
    InUse,
    /// The caller's timeout ran out while it waited for a pool in use.
    TimeOut,
}

/// Where a pool stands for one request, during one scan of the inventory.
#[derive(Debug, Clone, Copy, PartialEq, Eq, Structural)]
pub enum PoolStatus {
    /// The pool does not pass the request's filters, or the request asks
    /// for resources and the pool cannot pair them all.
    Skipped,
    /// The pool passes the filters and is held.
    CandidateHeld,
    /// The pool passes the filters and nobody holds it.
    CandidateFree,
    /// The request asks for resources and the pool pairs them all.
    CandidatePaired,
}

/// The status of `pool` for `request`.
///
/// A request that asks for resources is served by pairing alone: whether
/// the pool is held plays no part for it.
pub open spec fn status_of(pool: PoolView, request: RequestView) -> PoolStatus {
    if !pool_satisfies(pool, request) {
        PoolStatus::Skipped
    } else {
        match request.resource_attributes {
            Some(specs) => if pairing_of(pool.resources, specs) is Some {
                PoolStatus::CandidatePaired
            } else {
                PoolStatus::Skipped
            },
            None => if pool.user is Some {
                PoolStatus::CandidateHeld
            } else {
                PoolStatus::CandidateFree
            },
        }
    }
}

/// Tells where `pool` stands for `request`.
pub fn pool_status(pool: &Pool, request: &ResourceRequest) -> (status: PoolStatus)
    ensures
        status == status_of(pool@, request@),
{
    if !pool_matches(pool, request) {
        return PoolStatus::Skipped;
    }
    match &request.resource_attributes {
        Some(requested_resources_spec) => {
            if solve_resource_matches(pool, requested_resources_spec).is_some() {
                PoolStatus::CandidatePaired
            } else {
                PoolStatus::Skipped
            }
        },
        None => {
            if pool.user.is_some() {
                PoolStatus::CandidateHeld
            } else {
                PoolStatus::CandidateFree
            }
        },
    }
}

/// The pool can be leased for the request as it stands.
pub open spec fn grantable(pool: PoolView, request: RequestView) -> bool {
    status_of(pool, request) is CandidateFree || status_of(pool, request) is CandidatePaired
}

/// The pool once it has been leased for `request` to `client`: a request
/// for the pool as a whole makes `client` its holder, a request for paired
/// resources leaves the pool as it was.
pub open spec fn after_grant(pool: PoolView, request: RequestView, client: Seq<char>) -> PoolView {
    if request.resource_attributes is Some {
        pool
    } else {
        PoolView { user: Some(client), ..pool }
    }
}

/// Mathematical content of a [`PoolLease`].
pub struct LeaseView {
    pub leasetime: u128,
    pub pool: PoolView,
    pub pairing: Option<Seq<(Seq<Seq<char>>, ResourceView)>>,
    pub pool_index: int,
}

/// The lease that is granted on `pool`, which stands at `index` in the
/// inventory, for `request` to `client`.
pub open spec fn granted_lease(
    pool: PoolView,
    index: int,
    request: RequestView,
    client: Seq<char>,
) -> LeaseView {
    LeaseView {
        leasetime: DEFAULT_LEASE_TIME,
        pool: after_grant(pool, request, client),
        pairing: match request.resource_attributes {
            Some(specs) => pairing_of(pool.resources, specs),
            None => None,
        },
        pool_index: index,
    }
}

/// The token handed out when a request succeeds.
///
/// It carries a copy of the pool as it stood when the lease was granted,
/// the pairing of requested attribute sets with resources where the request
/// asked for resources, and the place of the pool in the inventory. A lease
/// without a pairing holds its pool exclusively until it is given back to
/// [`InnerInventory::release`].
#[derive(Debug)]
pub struct PoolLease {
    leasetime: u128,
    pool: Pool,
    pairing: Option<Vec<(Vec<String>, Resource)>>,
    pool_index: usize,
}

impl View for PoolLease {
    type V = LeaseView;

    closed spec fn view(&self) -> LeaseView {
        LeaseView {
            leasetime: self.leasetime,
            pool: self.pool@,
            pairing: opt_pairing_view(self.pairing),
            pool_index: self.pool_index as int,
        }
    }
}

/// The outcome of a request, seen through the view of the lease.
pub open spec fn outcome_view(outcome: Result<PoolLease, ResourceRequestError>) -> Result<
    LeaseView,
    ResourceRequestError,
> {
    match outcome {
        Ok(lease) => Ok(lease@),
        Err(e) => Err(e),
    }
}

/// Some pool of `pools` passes the filters of `request` and is held.
pub open spec fn some_candidate_held(pools: Seq<PoolView>, request: RequestView) -> bool {
    exists|j: int| 0 <= j < pools.len() && status_of(#[trigger] pools[j], request) is CandidateHeld
}

/// One scan of the inventory `pre` for `request` on behalf of `client`
/// ends with `outcome` and leaves the inventory as `post`.
///
/// The lease goes to the first pool, in the order of the inventory, that
/// can be leased as it stands, and only that pool changes. Where there is
/// none, nothing changes; the failure is `InUse` if some pool passes the
/// filters and is held, and `Impossible` otherwise.
pub open spec fn acquired(
    pre: Seq<PoolView>,
    request: RequestView,
    client: Seq<char>,
    post: Seq<PoolView>,
    outcome: Result<LeaseView, ResourceRequestError>,
) -> bool {
    match outcome {
        Ok(lease) => {
            let i = lease.pool_index;
            &&& 0 <= i < pre.len()
            &&& grantable(pre[i], request)
            &&& forall|j: int| 0 <= j < i ==> !grantable(#[trigger] pre[j], request)
            &&& lease == granted_lease(pre[i], i, request, client)
            &&& post == pre.update(i, after_grant(pre[i], request, client))
        },
        Err(e) => {
            &&& forall|j: int| 0 <= j < pre.len() ==> !grantable(#[trigger] pre[j], request)
            &&& post == pre
            &&& e == if some_candidate_held(pre, request) {
                ResourceRequestError::InUse
            } else {
                ResourceRequestError::Impossible
            }
        },
    }
}

/// The pools without their holders: what an inventory is made of.
pub open spec fn composition(pools: Seq<PoolView>) -> Seq<PoolView> {
    Seq::new(pools.len(), |i: int| PoolView { user: None, ..pools[i] })
}

/// The inventory recognises `lease` as the one that holds its pool: the
/// lease is exclusive, and the pool at its place still has the name and the
/// holder that the lease recorded.
pub open spec fn holds(pools: Seq<PoolView>, lease: LeaseView) -> bool {
    &&& lease.pairing is None
    &&& 0 <= lease.pool_index < pools.len()
    &&& pools[lease.pool_index].name == lease.pool.name
    &&& pools[lease.pool_index].user is Some
    &&& pools[lease.pool_index].user == lease.pool.user
}

/// The inventory after `lease` has been given back: the pool that the lease
/// held has no holder; a lease that held nothing changes nothing.
pub open spec fn released(pools: Seq<PoolView>, lease: LeaseView) -> Seq<PoolView> {
    if holds(pools, lease) {
        pools.update(lease.pool_index, PoolView { user: None, ..pools[lease.pool_index] })
    } else {
        pools
    }
}

impl PoolLease {
    /// The time for which the lease was granted, in nanoseconds.
    pub fn leasetime(&self) -> (t: u128)
        ensures
            t == self@.leasetime,
    {
        self.leasetime
    }

    /// The pool as it stood when the lease was granted.
    pub fn pool(&self) -> (pool: &Pool)
        ensures
            pool@ == self@.pool,
    {
        &self.pool
    }

    /// The requested attribute sets, each with the resource given to it,
    /// where the request asked for resources.
    pub fn pairing(&self) -> (pairing: &Option<Vec<(Vec<String>, Resource)>>)
        ensures
            opt_pairing_view(*pairing) == self@.pairing,
    {
        &self.pairing
    }

    /// The place of the leased pool in the inventory.
    pub fn pool_index(&self) -> (index: usize)
        ensures
            index == self@.pool_index,
    {
        self.pool_index
    }
}

/// The catalogue of pools, in the order in which requests scan them.
#[derive(Debug)]
pub struct InnerInventory {
    pools: Vec<Pool>,
}

impl View for InnerInventory {
    type V = Seq<PoolView>;

    closed spec fn view(&self) -> Seq<PoolView> {
        pools_view(self.pools@)
    }
}

impl InnerInventory {
    /// An inventory of the given pools, in the given order.
    pub fn new(pools: Vec<Pool>) -> (inventory: InnerInventory)
        ensures
            inventory@ == pools_view(pools@),
    {
        InnerInventory { pools }
    }

    /// The pools, in scan order.
    pub fn pools(&self) -> (pools: &Vec<Pool>)
        ensures
            pools_view(pools@) == self@,
    {
        &self.pools
    }

    /// Scans the pools in order and leases the first one that can be leased
    /// for `request` as it stands, on behalf of the session named `client`.
    ///
    /// A pool can be leased if it passes the request's filters and either
    /// the request asks for resources and the pool pairs them all, or the
    /// request asks for none and nobody holds the pool. In the second case
    /// `client` becomes the holder. The lease carries a copy of the pool as
    /// it stands after that.
    ///
    /// Where no pool can be leased the inventory is unchanged, and the
    /// error is `InUse` if some pool passes the filters and is held,
    /// `Impossible` otherwise.
    pub fn try_acquire(&mut self, request: &ResourceRequest, client: &str) -> (outcome: Result<
        PoolLease,
        ResourceRequestError,
    >)
        ensures
            acquired(old(self)@, request@, client@, final(self)@, outcome_view(outcome)),
            // success is owed exactly when some pool can be leased
            outcome is Ok <==> exists|j: int|
                0 <= j < old(self)@.len() && grantable(#[trigger] old(self)@[j], request@),
            // the leased pool passes the filters, and the lease carries it as it now stands
            outcome matches Ok(lease) ==> pool_satisfies(lease@.pool, request@)
                && 0 <= lease@.pool_index < final(self)@.len()
                && final(self)@[lease@.pool_index] == lease@.pool
                && lease@.leasetime == DEFAULT_LEASE_TIME,
            // one pairing entry per requested set, in the order of the request; without
            // requested sets, the pool had no holder and the client is its holder now
            outcome matches Ok(lease) ==> (match request@.resource_attributes {
                Some(specs) => lease@.pairing matches Some(pairing) && pairing.len() == specs.len()
                    && forall|k: int| 0 <= k < specs.len() ==> (#[trigger] pairing[k]).0 == specs[k],
                None => lease@.pairing is None && lease@.pool.user == Some(client@) && old(
                    self,
                )@[lease@.pool_index].user is None,
            }),
            // nothing can ever serve an impossible request
            outcome matches Err(e) ==> (e == ResourceRequestError::Impossible <==> forall|j: int|
                0 <= j < old(self)@.len() ==> !pool_satisfies(#[trigger] old(self)@[j], request@)
                    || (request@.resource_attributes matches Some(specs) && pairing_of(
                    old(self)@[j].resources,
                    specs,
                ) is None)),
            outcome matches Err(e) ==> e != ResourceRequestError::TimeOut,
            // a failed request changes nothing; no request changes what the inventory is made of
            outcome is Err ==> final(self)@ == old(self)@,
            composition(final(self)@) == composition(old(self)@),
    {
        let outcome = self.scan(request, client);
        proof {
            lemma_acquired_facts(old(self)@, request@, client@, self@, outcome_view(outcome));
        }
        outcome
    }

    /// The scan behind [`InnerInventory::try_acquire`].
    fn scan(&mut self, request: &ResourceRequest, client: &str) -> (outcome: Result<
        PoolLease,
        ResourceRequestError,
    >)
        ensures
            acquired(old(self)@, request@, client@, final(self)@, outcome_view(outcome)),
    {
        let mut ultimate_failure = ResourceRequestError::Impossible;
        let mut i: usize = 0;
        while i < self.pools.len()
            invariant
                i <= self.pools.len(),
                self@ == old(self)@,
                forall|j: int| 0 <= j < i ==> !grantable(#[trigger] self@[j], request@),
                ultimate_failure == if exists|j: int|
                    0 <= j < i && status_of(#[trigger] self@[j], request@) is CandidateHeld {
                    ResourceRequestError::InUse
                } else {
                    ResourceRequestError::Impossible
                },
            decreases self.pools.len() - i,
        {
            if pool_matches(&self.pools[i], request) {
                match &request.resource_attributes {
                    Some(requested_resources_spec) => {
                        if let Some(pairing) = solve_resource_matches(
                            &self.pools[i],
                            requested_resources_spec,
                        ) {
                            let lease = PoolLease {
                                leasetime: DEFAULT_LEASE_TIME,
                                pool: self.pools[i].clone(),
                                pairing: Some(pairing),
                                pool_index: i,
                            };
                            assert(self@ =~= old(self)@.update(i as int, old(self)@[i as int]));
                            return Ok(lease);
                        }
                    },
                    None => {
                        if self.pools[i].user.is_none() {
                            self.pools[i].user = Some(client.to_owned());
                            let lease = PoolLease {
                                leasetime: DEFAULT_LEASE_TIME,
                                pool: self.pools[i].clone(),
                                pairing: None,
                                pool_index: i,
                            };
                            assert(self@ =~= old(self)@.update(
                                i as int,
                                after_grant(old(self)@[i as int], request@, client@),
                            ));
                            return Ok(lease);
                        } else {
                            ultimate_failure = ResourceRequestError::InUse;
                        }
                    },
                }
            }
            i += 1;
        }
        Err(ultimate_failure)
    }

    /// Takes `lease` back. If the lease holds its pool, the pool has no
    /// holder afterwards and `true` is returned. A lease with a pairing,
    /// which holds no pool, and a lease that this inventory does not
    /// recognise change nothing.
    pub fn release(&mut self, lease: PoolLease) -> (freed: bool)
        ensures
            freed == holds(old(self)@, lease@),
            final(self)@ == released(old(self)@, lease@),
            composition(final(self)@) == composition(old(self)@),
    {
        let i = lease.pool_index;
        if lease.pairing.is_some() || i >= self.pools.len() {
            return false;
        }
        if !(self.pools[i].name == lease.pool.name) {
            return false;
        }
        let same_holder = match (&self.pools[i].user, &lease.pool.user) {
            (Some(current), Some(recorded)) => *current == *recorded,
            _ => false,
        };
        if !same_holder {
            return false;
        }
        self.pools[i].user = None;
        true
    }
}

/// What follows from one scan of the inventory: the facts that
/// [`InnerInventory::try_acquire`] promises besides the outcome itself.
pub proof fn lemma_acquired_facts(
    pre: Seq<PoolView>,
    request: RequestView,
    client: Seq<char>,
    post: Seq<PoolView>,
    outcome: Result<LeaseView, ResourceRequestError>,
)
    requires
        acquired(pre, request, client, post, outcome),
    ensures
        outcome is Ok <==> exists|j: int| 0 <= j < pre.len() && grantable(#[trigger] pre[j], request),
        outcome matches Ok(lease) ==> pool_satisfies(lease.pool, request) && 0 <= lease.pool_index
            < post.len() && post[lease.pool_index] == lease.pool && lease.leasetime
            == DEFAULT_LEASE_TIME,
        outcome matches Ok(lease) ==> (match request.resource_attributes {
            Some(specs) => lease.pairing matches Some(pairing) && pairing.len() == specs.len()
                && forall|k: int| 0 <= k < specs.len() ==> (#[trigger] pairing[k]).0 == specs[k],
            None => lease.pairing is None && lease.pool.user == Some(client)
                && pre[lease.pool_index].user is None,
        }),
        outcome matches Err(e) ==> (e == ResourceRequestError::Impossible <==> forall|j: int|
            0 <= j < pre.len() ==> !pool_satisfies(#[trigger] pre[j], request) || (
            request.resource_attributes matches Some(specs) && pairing_of(pre[j].resources, specs)
                is None)),
        outcome matches Err(e) ==> e != ResourceRequestError::TimeOut,
        outcome is Err ==> post == pre,
        composition(post) == composition(pre),
{
    if let Ok(lease) = outcome {
        if let Some(specs) = request.resource_attributes {
            lemma_pairing_shape(pre[lease.pool_index].resources, specs);
        }
    }
}

/// The outcome of a scan is determined by the inventory, the request and
/// the client: two scans from the same state end alike.
pub proof fn lemma_acquire_deterministic(
    pre: Seq<PoolView>,
    request: RequestView,
    client: Seq<char>,
    post1: Seq<PoolView>,
    outcome1: Result<LeaseView, ResourceRequestError>,
    post2: Seq<PoolView>,
    outcome2: Result<LeaseView, ResourceRequestError>,
)
    requires
        acquired(pre, request, client, post1, outcome1),
        acquired(pre, request, client, post2, outcome2),
    ensures
        post1 == post2,
        outcome1 == outcome2,
{
}

/// Nobody holds any pool.
pub open spec fn idle(pools: Seq<PoolView>) -> bool {
    forall|i: int| 0 <= i < pools.len() ==> (#[trigger] pools[i]).user is None
}

/// On an idle inventory no request is told to wait: it is served, or it is
/// impossible.
pub proof fn lemma_idle_never_in_use(
    pre: Seq<PoolView>,
    request: RequestView,
    client: Seq<char>,
    post: Seq<PoolView>,
    outcome: Result<LeaseView, ResourceRequestError>,
)
    requires
        idle(pre),
        acquired(pre, request, client, post, outcome),
    ensures
        outcome matches Err(e) ==> e == ResourceRequestError::Impossible,
{
}

/// A request that was served is served again, by the same pool and with
/// the same lease, once its lease has been given back: giving the lease
/// back restores the inventory as it was before the request.
pub proof fn lemma_release_then_acquire_again(
    pre: Seq<PoolView>,
    request: RequestView,
    client: Seq<char>,
    mid: Seq<PoolView>,
    lease: LeaseView,
    post: Seq<PoolView>,
    outcome: Result<LeaseView, ResourceRequestError>,
)
    requires
        acquired(pre, request, client, mid, Ok(lease)),
        acquired(released(mid, lease), request, client, post, outcome),
    ensures
        released(mid, lease) == pre,
        outcome == Ok::<LeaseView, ResourceRequestError>(lease),
        post == mid,
{
    assert(released(mid, lease) =~= pre);
    lemma_acquire_deterministic(pre, request, client, mid, Ok(lease), post, outcome);
}

/// `live` accounts for the holders of `pools`: every lease in it holds its
/// pool, no two of them refer to the same pool, and every pool that has a
/// holder is referred to by one of them.
///
/// `live` stands for the exclusive leases that have been granted and not
/// given back. Leases with a pairing hold no pool and are not listed.
pub open spec fn ledger_consistent(pools: Seq<PoolView>, live: Seq<LeaseView>) -> bool {
    &&& forall|k: int| 0 <= k < live.len() ==> holds(pools, #[trigger] live[k])
    &&& forall|k: int, m: int|
        0 <= k < m < live.len() ==> (#[trigger] live[k]).pool_index != (#[trigger] live[m]).pool_index
    &&& forall|i: int|
        0 <= i < pools.len() && (#[trigger] pools[i]).user is Some ==> referred_to(live, i)
}

/// Some lease of `live` refers to the pool at `index`.
pub open spec fn referred_to(live: Seq<LeaseView>, index: int) -> bool {
    exists|k: int| 0 <= k < live.len() && (#[trigger] live[k]).pool_index == index
}

/// The ledger once a scan has ended with `outcome`: an exclusive lease
/// joins it, anything else leaves it as it was.
pub open spec fn ledger_after_acquire(
    live: Seq<LeaseView>,
    outcome: Result<LeaseView, ResourceRequestError>,
) -> Seq<LeaseView> {
    match outcome {
        Ok(lease) => if lease.pairing is None {
            live.push(lease)
        } else {
            live
        },
        Err(_) => live,
    }
}

/// An idle inventory and an empty ledger agree.
pub proof fn lemma_idle_ledger(pools: Seq<PoolView>)
    requires
        idle(pools),
    ensures
        ledger_consistent(pools, Seq::<LeaseView>::empty()),
{
}

/// At any time at most one live lease refers to a pool, and a pool has a
/// holder exactly while a live lease refers to it.
pub proof fn lemma_one_lease_per_pool(pools: Seq<PoolView>, live: Seq<LeaseView>)
    requires
        ledger_consistent(pools, live),
    ensures
        forall|k: int, m: int|
            0 <= k < live.len() && 0 <= m < live.len() && (#[trigger] live[k]).pool_index == (
            #[trigger] live[m]).pool_index ==> k == m,
        forall|i: int|
            0 <= i < pools.len() ==> ((#[trigger] pools[i]).user is Some <==> referred_to(live, i)),
{
}

/// A scan keeps inventory and ledger in agreement: a pool is leased
/// exclusively only while no live lease refers to it.
pub proof fn lemma_acquire_keeps_ledger(
    pre: Seq<PoolView>,
    live: Seq<LeaseView>,
    request: RequestView,
    client: Seq<char>,
    post: Seq<PoolView>,
    outcome: Result<LeaseView, ResourceRequestError>,
)
    requires
        ledger_consistent(pre, live),
        acquired(pre, request, client, post, outcome),
    ensures
        ledger_consistent(post, ledger_after_acquire(live, outcome)),
        outcome matches Ok(lease) ==> lease.pairing is None ==> !referred_to(live, lease.pool_index),
{
    if let Ok(lease) = outcome {
        let i = lease.pool_index;
        if lease.pairing is None {
            // the pool had no holder, so no live lease referred to it
            let after = live.push(lease);
            assert forall|j: int|
                0 <= j < post.len() && (#[trigger] post[j]).user is Some implies referred_to(
                after,
                j,
            ) by {
                if j == i {
                    assert(after[live.len() as int].pool_index == j);
                } else {
                    let k = choose|k: int|
                        0 <= k < live.len() && (#[trigger] live[k]).pool_index == j;
                    assert(after[k].pool_index == j);
                }
            }
        }
    }
}

/// Giving back a live lease keeps inventory and ledger in agreement: its
/// pool has no holder afterwards, and the lease is live no more.
pub proof fn lemma_release_keeps_ledger(pools: Seq<PoolView>, live: Seq<LeaseView>, k: int)
    requires
        ledger_consistent(pools, live),
        0 <= k < live.len(),
    ensures
        ledger_consistent(released(pools, live[k]), live.remove(k)),
        released(pools, live[k])[live[k].pool_index].user is None,
{
    let post = released(pools, live[k]);
    let after = live.remove(k);
    assert forall|j: int|
        0 <= j < post.len() && (#[trigger] post[j]).user is Some implies referred_to(after, j) by {
        // the lease that referred to pool `j` before still does, one place
        // down if it stood behind the one that was given back
        let m = choose|m: int| 0 <= m < live.len() && (#[trigger] live[m]).pool_index == j;
        let moved = if m < k {
            m
        } else {
            m - 1
        };
        assert(after[moved].pool_index == j);
    }
}

} // verus!

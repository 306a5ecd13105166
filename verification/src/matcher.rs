//! Attribute matching: the predicates that decide whether a candidate
//! carries every attribute that is asked for, and the first-fit search that
//! pairs requested attribute sets with resources.
//!
//! Attribute lists are compared as sets: order and repetition on either side
//! make no difference, and the comparison is case-sensitive.

use vstd::prelude::*;
use crate::inventory::{
    resource_attrs,
    resources_view,
    Pool,
    PoolView,
    RequestView,
    Resource,
    ResourceRequest,
    ResourceView,
};
use crate::text::{clone_strings, string_lists_view, strings_view};

verus! {

/// Every element of `a` occurs somewhere in `b`.
pub open spec fn subset_of(a: Seq<Seq<char>>, b: Seq<Seq<char>>) -> bool {
    forall|i: int| 0 <= i < a.len() ==> b.contains(#[trigger] a[i])
}

/// `subset_of` is inclusion of the sets of elements: neither the order of
/// the entries nor their repetition, on either side, changes the outcome.
pub proof fn lemma_subset_of_is_set_inclusion(a: Seq<Seq<char>>, b: Seq<Seq<char>>)
    ensures
        subset_of(a, b) <==> a.to_set().subset_of(b.to_set()),
{
    if a.to_set().subset_of(b.to_set()) {
        assert forall|i: int| 0 <= i < a.len() implies b.contains(#[trigger] a[i]) by {
            assert(b.to_set().contains(a[i]));
        }
    }
}

/// Whether `needle` occurs in `haystack`.
pub fn contains_attr(haystack: &[String], needle: &String) -> (found: bool)
    ensures
        found == strings_view(haystack@).contains(needle@),
{
    let mut i: usize = 0;
    while i < haystack.len()
        invariant
            i <= haystack.len(),
            forall|j: int| 0 <= j < i ==> strings_view(haystack@)[j] != needle@,
        decreases haystack.len() - i,
    {
        if haystack[i] == *needle {
            assert(strings_view(haystack@)[i as int] == needle@);
            return true;
        }
        i += 1;
    }
    false
}

/// Whether every attribute of `subset` occurs in `superset`.
pub fn matches(subset: &[String], superset: &[String]) -> (ok: bool)
    ensures
        ok == subset_of(strings_view(subset@), strings_view(superset@)),
{
    let mut i: usize = 0;
    while i < subset.len()
        invariant
            i <= subset.len(),
            forall|j: int|
                0 <= j < i ==> strings_view(superset@).contains(
                    #[trigger] strings_view(subset@)[j],
                ),
        decreases subset.len() - i,
    {
        if !contains_attr(superset, &subset[i]) {
            assert(strings_view(subset@)[i as int] == subset@[i as int]@);
            return false;
        }
        i += 1;
    }
    true
}

/// The pool passes the request's filters: its name is the one asked for, its
/// location is the one asked for, and it carries every pool attribute asked
/// for. A filter that the request leaves out is passed.
pub open spec fn pool_satisfies(pool: PoolView, request: RequestView) -> bool {
    &&& request.by_name matches Some(name) ==> name == pool.name
    &&& request.location matches Some(location) ==> location == pool.location
    &&& request.pool_attributes matches Some(wanted) ==> subset_of(wanted, pool.attributes)
}

/// Whether `pool` passes the filters of `request`.
pub fn pool_matches(pool: &Pool, request: &ResourceRequest) -> (ok: bool)
    ensures
        ok == pool_satisfies(pool@, request@),
{
    if let Some(name) = &request.by_name {
        if !(*name == pool.name) {
            return false;
        }
    }
    if let Some(location) = &request.location {
        if !(*location == pool.location) {
            return false;
        }
    }
    if let Some(wanted) = &request.pool_attributes {
        if !matches(wanted.as_slice(), pool.attributes.as_slice()) {
            return false;
        }
    }
    true
}

/// Resource `j` has not been taken yet and carries every attribute of `spec`.
pub open spec fn eligible(
    resources: Seq<Seq<Seq<char>>>,
    spec: Seq<Seq<char>>,
    taken: Set<int>,
    j: int,
) -> bool {
    0 <= j < resources.len() && !taken.contains(j) && subset_of(spec, resources[j])
}

/// The first eligible resource at or after `from`, if there is one.
pub open spec fn first_fit_from(
    resources: Seq<Seq<Seq<char>>>,
    spec: Seq<Seq<char>>,
    taken: Set<int>,
    from: int,
) -> Option<int>
    decreases resources.len() - from,
{
    if from < 0 || from >= resources.len() {
        None
    } else if eligible(resources, spec, taken, from) {
        Some(from)
    } else {
        first_fit_from(resources, spec, taken, from + 1)
    }
}

/// The first eligible resource, if there is one.
pub open spec fn first_fit(
    resources: Seq<Seq<Seq<char>>>,
    spec: Seq<Seq<char>>,
    taken: Set<int>,
) -> Option<int> {
    first_fit_from(resources, spec, taken, 0)
}

/// What `first_fit_from` returns is the least eligible index at or after
/// `from`; it returns nothing exactly when no such index is eligible.
pub proof fn lemma_first_fit_from(
    resources: Seq<Seq<Seq<char>>>,
    spec: Seq<Seq<char>>,
    taken: Set<int>,
    from: int,
)
    requires
        0 <= from,
    ensures
        (match first_fit_from(resources, spec, taken, from) {
            Some(j) => from <= j && eligible(resources, spec, taken, j) && forall|k: int|
                from <= k < j ==> !eligible(resources, spec, taken, k),
            None => forall|k: int| from <= k ==> !eligible(resources, spec, taken, k),
        }),
    decreases resources.len() - from,
{
    if from < resources.len() && !eligible(resources, spec, taken, from) {
        lemma_first_fit_from(resources, spec, taken, from + 1);
    }
}

/// The greedy assignment for the first `n` requested sets: each set, in
/// order, takes the first resource that fits it and that no earlier set
/// took. There is none as soon as one set finds no resource.
pub open spec fn greedy_assignment(
    resources: Seq<Seq<Seq<char>>>,
    specs: Seq<Seq<Seq<char>>>,
    n: nat,
) -> Option<Seq<int>>
    decreases n,
{
    if n == 0 {
        Some(Seq::empty())
    } else {
        match greedy_assignment(resources, specs, (n - 1) as nat) {
            None => None,
            Some(chosen) => match first_fit(resources, specs[n - 1], chosen.to_set()) {
                None => None,
                Some(j) => Some(chosen.push(j)),
            },
        }
    }
}

/// The greedy assignment for all of `specs`: entry `k` is the index of the
/// resource given to `specs[k]`.
pub open spec fn assignment(resources: Seq<Seq<Seq<char>>>, specs: Seq<Seq<Seq<char>>>) -> Option<
    Seq<int>,
> {
    greedy_assignment(resources, specs, specs.len())
}

/// One of the first `k` entries of `chosen` names resource `j`.
pub open spec fn taken_before(chosen: Seq<int>, k: int, j: int) -> bool {
    exists|m: int| 0 <= m < k && #[trigger] chosen[m] == j
}

/// A greedy assignment has one entry per requested set, in the same order;
/// each entry names a resource that carries the requested attributes; no
/// resource is named twice; and each entry is the first resource that fits
/// among those that the earlier entries left.
pub proof fn lemma_greedy_assignment(
    resources: Seq<Seq<Seq<char>>>,
    specs: Seq<Seq<Seq<char>>>,
    n: nat,
)
    requires
        n <= specs.len(),
    ensures
        greedy_assignment(resources, specs, n) matches Some(chosen) ==> chosen.len() == n,
        greedy_assignment(resources, specs, n) matches Some(chosen) ==> forall|k: int|
            0 <= k < n ==> 0 <= #[trigger] chosen[k] < resources.len() && subset_of(
                specs[k],
                resources[chosen[k]],
            ),
        greedy_assignment(resources, specs, n) matches Some(chosen) ==> forall|k: int, m: int|
            0 <= k < m < n ==> chosen[k] != chosen[m],
        greedy_assignment(resources, specs, n) matches Some(chosen) ==> forall|k: int, j: int|
            #![trigger taken_before(chosen, k, j)]
            0 <= k < n && 0 <= j < chosen[k] && subset_of(specs[k], resources[j]) ==> taken_before(
                chosen,
                k,
                j,
            ),
    decreases n,
{
    if n > 0 {
        lemma_greedy_assignment(resources, specs, (n - 1) as nat);
        if let Some(prev) = greedy_assignment(resources, specs, (n - 1) as nat) {
            let taken = prev.to_set();
            lemma_first_fit_from(resources, specs[n - 1], taken, 0);
            if let Some(j) = first_fit(resources, specs[n - 1], taken) {
                let chosen = prev.push(j);
                assert forall|k: int, i: int|
                    #![trigger taken_before(chosen, k, i)]
                    0 <= k < n && 0 <= i < chosen[k] && subset_of(
                        specs[k],
                        resources[i],
                    ) implies taken_before(chosen, k, i) by {
                    if k == n - 1 {
                        assert(!eligible(resources, specs[n - 1], taken, i));
                        let m = choose|m: int| 0 <= m < prev.len() && prev[m] == i;
                        assert(chosen[m] == i);
                    } else {
                        assert(taken_before(prev, k, i));
                        let m = choose|m: int| 0 <= m < k && #[trigger] prev[m] == i;
                        assert(chosen[m] == i);
                    }
                }
            }
        }
    }
}

/// The first `k` requested sets found their resources, and `specs[k]`
/// finds none among those that are left.
pub open spec fn stuck_at(resources: Seq<Seq<Seq<char>>>, specs: Seq<Seq<Seq<char>>>, k: int) -> bool {
    greedy_assignment(resources, specs, k as nat) matches Some(chosen) && first_fit(
        resources,
        specs[k],
        chosen.to_set(),
    ) is None
}

/// There is no greedy assignment exactly when some requested set, in its
/// turn, finds no resource that fits it among those that are left.
pub proof fn lemma_no_assignment(resources: Seq<Seq<Seq<char>>>, specs: Seq<Seq<Seq<char>>>, n: nat)
    requires
        n <= specs.len(),
    ensures
        greedy_assignment(resources, specs, n) is None <==> exists|k: int|
            0 <= k < n && #[trigger] stuck_at(resources, specs, k),
    decreases n,
{
    if n > 0 {
        lemma_no_assignment(resources, specs, (n - 1) as nat);
        if greedy_assignment(resources, specs, n) is None && greedy_assignment(
            resources,
            specs,
            (n - 1) as nat,
        ) is Some {
            assert(stuck_at(resources, specs, n - 1));
        }
    }
}

/// The indices that `used` marks.
pub open spec fn marked(used: Seq<bool>) -> Set<int> {
    Set::new(|j: int| 0 <= j < used.len() && used[j])
}

/// Finds the first resource that is not marked in `used` and carries every
/// attribute of `spec`.
fn find_first_fit(resources: &Vec<Resource>, spec: &Vec<String>, used: &Vec<bool>) -> (found:
    Option<usize>)
    requires
        used.len() == resources.len(),
    ensures
        found matches Some(j) ==> j < resources.len(),
        first_fit(
            resource_attrs(resources_view(resources@)),
            strings_view(spec@),
            marked(used@),
        ) == (match found {
            Some(j) => Some(j as int),
            None => None,
        }),
{
    let ghost attrs = resource_attrs(resources_view(resources@));
    let ghost wanted = strings_view(spec@);
    let ghost taken = marked(used@);
    let mut j: usize = 0;
    while j < resources.len()
        invariant
            j <= resources.len(),
            used.len() == resources.len(),
            attrs == resource_attrs(resources_view(resources@)),
            wanted == strings_view(spec@),
            taken == marked(used@),
            first_fit(attrs, wanted, taken) == first_fit_from(attrs, wanted, taken, j as int),
        decreases resources.len() - j,
    {
        if !used[j] && matches(spec.as_slice(), resources[j].attributes.as_slice()) {
            return Some(j);
        }
        j += 1;
    }
    None
}

/// A pairing, seen as the sequence of its pairs: the requested attribute
/// set and the resource that was given to it.
pub open spec fn pairing_view(pairing: Seq<(Vec<String>, Resource)>) -> Seq<
    (Seq<Seq<char>>, ResourceView),
> {
    Seq::new(pairing.len(), |k: int| (strings_view(pairing[k].0@), pairing[k].1@))
}

/// An optional pairing, seen through [`pairing_view`].
pub open spec fn opt_pairing_view(pairing: Option<Vec<(Vec<String>, Resource)>>) -> Option<
    Seq<(Seq<Seq<char>>, ResourceView)>,
> {
    match pairing {
        Some(pairing) => Some(pairing_view(pairing@)),
        None => None,
    }
}

/// The pairing of `specs` with `resources`: each requested set, in order,
/// with the resource that the greedy assignment gives it; none where the
/// assignment fails.
pub open spec fn pairing_of(resources: Seq<ResourceView>, specs: Seq<Seq<Seq<char>>>) -> Option<
    Seq<(Seq<Seq<char>>, ResourceView)>,
> {
    match assignment(resource_attrs(resources), specs) {
        Some(chosen) => Some(Seq::new(specs.len(), |k: int| (specs[k], resources[chosen[k]]))),
        None => None,
    }
}

/// A pairing has exactly one entry per requested set, in the order of the
/// request; the resource of each entry belongs to the pool and carries the
/// attributes of the entry's set.
pub proof fn lemma_pairing_shape(resources: Seq<ResourceView>, specs: Seq<Seq<Seq<char>>>)
    ensures
        pairing_of(resources, specs) matches Some(pairing) ==> pairing.len() == specs.len(),
        pairing_of(resources, specs) matches Some(pairing) ==> forall|k: int|
            0 <= k < specs.len() ==> (#[trigger] pairing[k]).0 == specs[k],
        pairing_of(resources, specs) matches Some(pairing) ==> forall|k: int|
            0 <= k < specs.len() ==> resources.contains((#[trigger] pairing[k]).1) && subset_of(
                specs[k],
                pairing[k].1.attributes,
            ),
{
    lemma_greedy_assignment(resource_attrs(resources), specs, specs.len());
}

/// Pairs each requested attribute set with a resource of the pool, first
/// fit in the order of the request: a set gets the first resource that
/// carries all its attributes and that no earlier set got. Fails as soon as
/// a set finds no such resource.
pub fn solve_resource_matches(pool: &Pool, requested_resources_spec: &Vec<Vec<String>>) -> (pairing:
    Option<Vec<(Vec<String>, Resource)>>)
    ensures
        opt_pairing_view(pairing) == pairing_of(
            pool@.resources,
            string_lists_view(requested_resources_spec@),
        ),
        // one entry per requested set, in the order of the request, each with a
        // resource of the pool that carries the set
        pairing matches Some(pairs) ==> pairs.len() == requested_resources_spec.len()
            && forall|k: int|
            0 <= k < pairs.len() ==> strings_view((#[trigger] pairs[k]).0@) == strings_view(
                requested_resources_spec[k]@,
            ) && pool@.resources.contains(pairs[k].1@) && subset_of(
                strings_view(pairs[k].0@),
                strings_view(pairs[k].1.attributes@),
            ),
{
    let ghost resources = pool@.resources;
    let ghost attrs = resource_attrs(resources);
    let ghost specs = string_lists_view(requested_resources_spec@);
    let ghost mut chosen: Seq<int> = Seq::empty();
    let mut used: Vec<bool> = vec![false; pool.resources.len()];
    let mut matchlist: Vec<(Vec<String>, Resource)> = Vec::new();
    let mut k: usize = 0;
    while k < requested_resources_spec.len()
        invariant
            k <= requested_resources_spec.len(),
            resources == pool@.resources,
            attrs == resource_attrs(resources_view(pool.resources@)),
            specs == string_lists_view(requested_resources_spec@),
            used.len() == pool.resources.len(),
            greedy_assignment(attrs, specs, k as nat) == Some(chosen),
            marked(used@) == chosen.to_set(),
            chosen.len() == k,
            forall|m: int| 0 <= m < k ==> 0 <= #[trigger] chosen[m] < resources.len(),
            matchlist.len() == k,
            forall|m: int|
                0 <= m < k ==> (#[trigger] pairing_view(matchlist@)[m]) == (
                    specs[m],
                    resources[chosen[m]],
                ),
        decreases requested_resources_spec.len() - k,
    {
        let resource_spec = &requested_resources_spec[k];
        proof {
            lemma_greedy_assignment(attrs, specs, (k + 1) as nat);
        }
        match find_first_fit(&pool.resources, resource_spec, &used) {
            Some(j) => {
                let ghost before = pairing_view(matchlist@);
                used.set(j, true);
                matchlist.push((clone_strings(resource_spec), pool.resources[j].clone()));
                proof {
                    let next = chosen.push(j as int);
                    assert(marked(used@) =~= next.to_set()) by {
                        assert forall|i: int| marked(used@).contains(i) <==> next.to_set().contains(
                            i,
                        ) by {
                            if i == j {
                                assert(next[k as int] == i);
                            } else if chosen.to_set().contains(i) {
                                let m = choose|m: int| 0 <= m < chosen.len() && chosen[m] == i;
                                assert(next[m] == i);
                            }
                        }
                    }
                    assert forall|m: int| 0 <= m < k + 1 implies (#[trigger] pairing_view(
                        matchlist@,
                    )[m]) == (specs[m], resources[next[m]]) by {
                        if m < k {
                            assert(pairing_view(matchlist@)[m] == before[m]);
                        }
                    }
                    chosen = next;
                }
            },
            None => {
                proof {
                    assert(stuck_at(attrs, specs, k as int));
                    lemma_no_assignment(attrs, specs, specs.len());
                }
                return None;
            },
        }
        k += 1;
    }
    proof {
        lemma_pairing_shape(resources, specs);
        assert forall|m: int| 0 <= m < matchlist.len() implies {
            &&& strings_view((#[trigger] matchlist[m]).0@) == specs[m]
            &&& resources.contains(matchlist[m].1@)
            &&& subset_of(strings_view(matchlist[m].0@), strings_view(matchlist[m].1.attributes@))
        } by {
            assert(pairing_view(matchlist@)[m] == pairing_of(resources, specs).unwrap()[m]);
        }
    }
    Some(matchlist)
}

} // verus!

//! What a remote client sends: the query string that carries a request to
//! the server, and the port at which the server is reached.

use vstd::prelude::*;
use crate::inventory::{RequestView, ResourceRequest, NANOS_PER_SEC};
use crate::query::{
    apply_pair,
    apply_pairs,
    empty_query,
    lemma_apply_concat,
    lemma_parse_is_fold,
    pairs_view,
    parse_pairs,
    QueryError,
    QueryView,
};
use crate::text::{
    decimal_digits,
    decimal_of,
    join,
    join_spec,
    lemma_decimal_reads_back,
    lemma_join_then_split,
    opt_string_view,
    strings_view,
};

verus! {

/// The port of a server whose URL names none.
pub const DEFAULT_PORT: u16 = 80;

/// The port to connect to: the one that the URL names, or the default.
pub fn port_or_default(port: Option<u16>) -> (chosen: u16)
    ensures
        chosen == (match port {
            Some(port) => port,
            None => DEFAULT_PORT,
        }),
{
    match port {
        Some(port) => port,
        None => DEFAULT_PORT,
    }
}

/// The pair of `key` and `value`, if there is a value.
pub open spec fn opt_pair(key: Seq<char>, value: Option<Seq<char>>) -> Seq<
    (Seq<char>, Seq<char>),
> {
    match value {
        Some(value) => seq![(key, value)],
        None => Seq::empty(),
    }
}

/// The attributes of a list, written with commas between them.
pub open spec fn comma_joined(list: Option<Seq<Seq<char>>>) -> Option<Seq<char>> {
    match list {
        Some(list) => Some(join_spec(list, ","@)),
        None => None,
    }
}

/// One `resource_attributes` pair per requested set, in the order of the
/// request, each with the attributes of its set written with commas
/// between them.
pub open spec fn set_pairs(sets: Option<Seq<Seq<Seq<char>>>>) -> Seq<(Seq<char>, Seq<char>)> {
    match sets {
        Some(sets) => Seq::new(
            sets.len(),
            |i: int| ("resource_attributes"@, join_spec(sets[i], ","@)),
        ),
        None => Seq::empty(),
    }
}

/// A timeout as the query writes it: its whole seconds, in decimal.
pub open spec fn timeout_text(timeout: Option<u128>) -> Option<Seq<char>> {
    match timeout {
        Some(nanos) => Some(decimal_digits((nanos / NANOS_PER_SEC) as nat)),
        None => None,
    }
}

/// The key-value pairs that carry `request` on behalf of `client_name`, in
/// the order in which they are written: the client's name, the location,
/// the pool attributes, the pool's name, the requested resource sets and
/// the timeout, each only where it is given.
pub open spec fn query_pairs_of(client_name: Option<Seq<char>>, request: RequestView) -> Seq<
    (Seq<char>, Seq<char>),
> {
    opt_pair("client_name"@, client_name) + opt_pair("location"@, request.location) + opt_pair(
        "pool_attributes"@,
        comma_joined(request.pool_attributes),
    ) + opt_pair("by_name"@, request.by_name) + set_pairs(request.resource_attributes) + opt_pair(
        "timeout"@,
        timeout_text(request.timeout),
    )
}

/// A pair as the query string writes it: key, `=`, value.
pub open spec fn pair_text(pair: (Seq<char>, Seq<char>)) -> Seq<char> {
    pair.0 + "="@ + pair.1
}

/// The parts of the query string, one per pair of [`query_pairs_of`].
pub open spec fn query_parts(client_name: Option<Seq<char>>, request: RequestView) -> Seq<
    Seq<char>,
> {
    Seq::new(
        query_pairs_of(client_name, request).len(),
        |i: int| pair_text(query_pairs_of(client_name, request)[i]),
    )
}

/// Adds the pair of `key` and `value` to `pairs`.
fn push_pair(pairs: &mut Vec<(String, String)>, key: &str, value: String)
    ensures
        pairs_view(final(pairs)@) == pairs_view(old(pairs)@).push((key@, value@)),
{
    pairs.push((key.to_owned(), value));
}

/// Adds the pair of `key` and `value` to `pairs`, if there is a value.
fn push_opt_pair(pairs: &mut Vec<(String, String)>, key: &str, value: &Option<String>)
    ensures
        pairs_view(final(pairs)@) == pairs_view(old(pairs)@) + opt_pair(
            key@,
            opt_string_view(*value),
        ),
{
    if let Some(value) = value {
        push_pair(pairs, key, value.clone());
    }
}

/// The key-value pairs that carry `request` on behalf of `client_name`:
/// every field that is given, under the key that the server reads it by.
/// Lists are written with commas, each requested resource set under a key
/// of its own, and the timeout in whole seconds, what is left of a second
/// being dropped.
pub fn request_pairs(client_name: &Option<String>, request: &ResourceRequest) -> (pairs: Vec<
    (String, String),
>)
    ensures
        pairs_view(pairs@) == query_pairs_of(opt_string_view(*client_name), request@),
{
    let mut pairs: Vec<(String, String)> = Vec::new();
    push_opt_pair(&mut pairs, "client_name", client_name);
    push_opt_pair(&mut pairs, "location", &request.location);
    if let Some(attributes) = &request.pool_attributes {
        push_pair(&mut pairs, "pool_attributes", join(attributes, ","));
    }
    push_opt_pair(&mut pairs, "by_name", &request.by_name);
    let ghost head = pairs_view(pairs@);
    if let Some(sets) = &request.resource_attributes {
        let mut i: usize = 0;
        while i < sets.len()
            invariant
                i <= sets.len(),
                request.resource_attributes == Some(*sets),
                pairs_view(pairs@) == head + set_pairs(request@.resource_attributes).subrange(
                    0,
                    i as int,
                ),
            decreases sets.len() - i,
        {
            push_pair(&mut pairs, "resource_attributes", join(&sets[i], ","));
            i += 1;
        }
    }
    if let Some(nanos) = request.timeout {
        push_pair(&mut pairs, "timeout", decimal_of(nanos / NANOS_PER_SEC));
    }
    pairs
}

/// Builds the query string that carries `request` on behalf of
/// `client_name`: the pairs of [`request_pairs`], each written as key, `=`
/// and value, joined by `&`. Values are written as they are.
pub fn build_query(client_name: Option<String>, request: &ResourceRequest) -> (query: String)
    ensures
        query@ == join_spec(query_parts(opt_string_view(client_name), request@), "&"@),
{
    let pairs = request_pairs(&client_name, request);
    let mut parts: Vec<String> = Vec::new();
    let mut i: usize = 0;
    while i < pairs.len()
        invariant
            i <= pairs.len(),
            pairs_view(pairs@) == query_pairs_of(opt_string_view(client_name), request@),
            strings_view(parts@) == query_parts(opt_string_view(client_name), request@).subrange(
                0,
                i as int,
            ),
        decreases pairs.len() - i,
    {
        let mut part = pairs[i].0.clone();
        part.append("=");
        part.append(pairs[i].1.as_str());
        let ghost before = strings_view(parts@);
        let ghost text = part@;
        parts.push(part);
        assert(strings_view(parts@) =~= before.push(text));
        i += 1;
    }
    assert(strings_view(parts@) =~= query_parts(opt_string_view(client_name), request@));
    join(&parts, "&")
}

/// A list that can be written with commas and read back: it has at least
/// one entry, and no entry holds a comma.
pub open spec fn comma_free(list: Seq<Seq<char>>) -> bool {
    list.len() > 0 && forall|k: int| 0 <= k < list.len() ==> !(#[trigger] list[k]).contains(',')
}

/// A request that the pairs of a query can carry whole: its lists are
/// [`comma_free`], it asks for at least one resource set if it asks for
/// any, and its timeout is a whole number of seconds that fits in 64 bits.
pub open spec fn carried_whole(request: RequestView) -> bool {
    &&& request.pool_attributes matches Some(list) ==> comma_free(list)
    &&& request.resource_attributes matches Some(sets) ==> sets.len() > 0 && forall|k: int|
        0 <= k < sets.len() ==> comma_free(#[trigger] sets[k])
    &&& request.timeout matches Some(nanos) ==> nanos % NANOS_PER_SEC == 0 && nanos / NANOS_PER_SEC
        <= u64::MAX
}

/// The six keys are six different strings.
pub proof fn lemma_keys_differ()
    ensures
        "location"@ != "client_name"@,
        "by_name"@ != "client_name"@,
        "by_name"@ != "location"@,
        "pool_attributes"@ != "client_name"@,
        "pool_attributes"@ != "location"@,
        "pool_attributes"@ != "by_name"@,
        "resource_attributes"@ != "client_name"@,
        "resource_attributes"@ != "location"@,
        "resource_attributes"@ != "by_name"@,
        "resource_attributes"@ != "pool_attributes"@,
        "timeout"@ != "client_name"@,
        "timeout"@ != "location"@,
        "timeout"@ != "by_name"@,
        "timeout"@ != "pool_attributes"@,
        "timeout"@ != "resource_attributes"@,
{
    reveal_strlit("client_name");
    reveal_strlit("location");
    reveal_strlit("by_name");
    reveal_strlit("pool_attributes");
    reveal_strlit("resource_attributes");
    reveal_strlit("timeout");
    // all lengths differ, but for `by_name` and `timeout`
    assert("client_name"@.len() == 11);
    assert("location"@.len() == 8);
    assert("by_name"@.len() == 7);
    assert("pool_attributes"@.len() == 15);
    assert("resource_attributes"@.len() == 19);
    assert("timeout"@.len() == 7);
    assert("by_name"@[0] == 'b');
    assert("timeout"@[0] == 't');
}

/// Reading at most one pair: the pair is read into the query, and no pair
/// leaves the query as it was.
pub proof fn lemma_apply_opt_pair(query: QueryView, key: Seq<char>, value: Option<Seq<char>>)
    ensures
        apply_pairs(Ok(query), opt_pair(key, value)) == (match value {
            Some(value) => apply_pair(query, key, value),
            None => Ok(query),
        }),
{
    if value is Some {
        let pairs = opt_pair(key, value);
        assert(apply_pairs(Ok(query), pairs.drop_last()) == Ok::<QueryView, QueryError>(query));
    }
}

/// The query once the first `n` of the requested resource sets have been
/// read into `query`, which asked for none before.
pub open spec fn with_sets(query: QueryView, sets: Seq<Seq<Seq<char>>>, n: int) -> QueryView {
    QueryView {
        request: RequestView {
            resource_attributes: if n == 0 {
                None
            } else {
                Some(sets.subrange(0, n))
            },
            ..query.request
        },
        ..query
    }
}

/// The pairs of the requested resource sets read back as the same sets, in
/// the same order.
pub proof fn lemma_apply_set_pairs(query: QueryView, sets: Seq<Seq<Seq<char>>>, n: nat)
    requires
        query.request.resource_attributes is None,
        n <= sets.len(),
        forall|k: int| 0 <= k < sets.len() ==> comma_free(#[trigger] sets[k]),
    ensures
        apply_pairs(Ok(query), set_pairs(Some(sets)).subrange(0, n as int)) == Ok::<
            QueryView,
            QueryError,
        >(with_sets(query, sets, n as int)),
    decreases n,
{
    let pairs = set_pairs(Some(sets)).subrange(0, n as int);
    if n > 0 {
        lemma_apply_set_pairs(query, sets, (n - 1) as nat);
        lemma_keys_differ();
        reveal_strlit(",");
        assert(","@ =~= seq![',']);
        lemma_join_then_split(sets[n - 1], ',');
        assert(pairs.drop_last() =~= set_pairs(Some(sets)).subrange(0, n - 1));
        let earlier = with_sets(query, sets, n - 1);
        let kept = match earlier.request.resource_attributes {
            Some(sets) => sets,
            None => Seq::empty(),
        };
        assert(kept.push(sets[n - 1]) =~= sets.subrange(0, n as int));
    }
}

/// What a query carries is read back whole: the pairs written for a
/// request and a client's name spell out that request and that name again,
/// provided the request is [`carried_whole`] and there is at least one
/// pair. How pairs stand in the text of a URI, and come out of it, is the
/// URL parser's matter.
pub proof fn lemma_query_reads_back(client_name: Option<Seq<char>>, request: RequestView)
    requires
        carried_whole(request),
        query_pairs_of(client_name, request).len() > 0,
    ensures
        parse_pairs(query_pairs_of(client_name, request)) == Ok::<QueryView, QueryError>(
            QueryView { client_name, request },
        ),
{
    lemma_keys_differ();
    let empty = empty_query();
    let named = QueryView { client_name, ..empty };
    let located = QueryView {
        request: RequestView { location: request.location, ..named.request },
        ..named
    };
    let filtered = QueryView {
        request: RequestView { pool_attributes: request.pool_attributes, ..located.request },
        ..located
    };
    let picked = QueryView {
        request: RequestView { by_name: request.by_name, ..filtered.request },
        ..filtered
    };
    let paired = QueryView {
        request: RequestView { resource_attributes: request.resource_attributes, ..picked.request },
        ..picked
    };
    let whole = QueryView { client_name, request };

    let p1 = opt_pair("client_name"@, client_name);
    let p2 = opt_pair("location"@, request.location);
    let p3 = opt_pair("pool_attributes"@, comma_joined(request.pool_attributes));
    let p4 = opt_pair("by_name"@, request.by_name);
    let p5 = set_pairs(request.resource_attributes);
    let p6 = opt_pair("timeout"@, timeout_text(request.timeout));

    lemma_apply_opt_pair(empty, "client_name"@, client_name);
    assert(apply_pairs(Ok(empty), p1) == Ok::<QueryView, QueryError>(named));

    lemma_apply_opt_pair(named, "location"@, request.location);
    assert(apply_pairs(Ok(named), p2) == Ok::<QueryView, QueryError>(located));

    lemma_apply_opt_pair(located, "pool_attributes"@, comma_joined(request.pool_attributes));
    if let Some(list) = request.pool_attributes {
        reveal_strlit(",");
        assert(","@ =~= seq![',']);
        lemma_join_then_split(list, ',');
    }
    assert(apply_pairs(Ok(located), p3) == Ok::<QueryView, QueryError>(filtered));

    lemma_apply_opt_pair(filtered, "by_name"@, request.by_name);
    assert(apply_pairs(Ok(filtered), p4) == Ok::<QueryView, QueryError>(picked));

    if let Some(sets) = request.resource_attributes {
        lemma_apply_set_pairs(picked, sets, sets.len());
        assert(p5.subrange(0, sets.len() as int) =~= p5);
        assert(sets.subrange(0, sets.len() as int) =~= sets);
    }
    assert(apply_pairs(Ok(picked), p5) == Ok::<QueryView, QueryError>(paired));

    lemma_apply_opt_pair(paired, "timeout"@, timeout_text(request.timeout));
    if let Some(nanos) = request.timeout {
        lemma_decimal_reads_back((nanos / NANOS_PER_SEC) as nat);
    }
    assert(apply_pairs(Ok(paired), p6) == Ok::<QueryView, QueryError>(whole));

    lemma_apply_concat(Ok(empty), p1, p2);
    lemma_apply_concat(Ok(empty), p1 + p2, p3);
    lemma_apply_concat(Ok(empty), p1 + p2 + p3, p4);
    lemma_apply_concat(Ok(empty), p1 + p2 + p3 + p4, p5);
    lemma_apply_concat(Ok(empty), p1 + p2 + p3 + p4 + p5, p6);
    let pairs = query_pairs_of(client_name, request);
    assert(pairs == p1 + p2 + p3 + p4 + p5 + p6);
    lemma_parse_is_fold(pairs, pairs.len());
    assert(pairs.subrange(0, pairs.len() as int) =~= pairs);
}

/// Requests that differ are written differently: two requests that are
/// [`carried_whole`], each with a client's name or none, give the same
/// pairs only if they are the same request under the same name.
pub proof fn lemma_queries_tell_requests_apart(
    first_name: Option<Seq<char>>,
    first: RequestView,
    second_name: Option<Seq<char>>,
    second: RequestView,
)
    requires
        carried_whole(first),
        carried_whole(second),
        query_pairs_of(first_name, first) == query_pairs_of(second_name, second),
        query_pairs_of(first_name, first).len() > 0,
    ensures
        first == second,
        first_name == second_name,
{
    lemma_query_reads_back(first_name, first);
    lemma_query_reads_back(second_name, second);
}

} // verus!

//! Reading a lease request out of the query string of a request URI.
//!
//! The recognised keys are `client_name`, `location`, `by_name`,
//! `pool_attributes`, `resource_attributes` and `timeout`. Attribute lists
//! are separated by commas, `resource_attributes` may occur several times,
//! each occurrence asking for one more resource, and `timeout` is a whole
//! number of seconds.

use vstd::prelude::*;
use crate::inventory::{RequestView, ResourceRequest, NANOS_PER_SEC};
use crate::text::{
    opt_string_view,
    parse_u64,
    parse_u64_spec,
    split_on,
    split_spec,
    string_lists_view,
};

verus! {

/// Why a query string holds no lease request.
#[derive(Debug, Clone, Copy, PartialEq, Eq, Structural)]
pub enum QueryError {
    /// The URI cannot be read as a reference relative to the server.
    InvalidUri,
    /// The query string holds no pair at all.
    NoValue,
    /// A key is none of the recognised ones.
    UnknownKey,
    /// The value of `timeout` is no number of seconds that fits in 64 bits.
    InvalidTimeout,
}

/// Mathematical content of a [`LeaseQuery`].
pub struct QueryView {
    pub client_name: Option<Seq<char>>,
    pub request: RequestView,
}

/// What a query string asks for: the request, and the name by which the
/// requester wants to be known, if it gave one.
#[derive(Debug)]
pub struct LeaseQuery {
    pub client_name: Option<String>,
    pub request: ResourceRequest,
}

impl View for LeaseQuery {
    type V = QueryView;

    open spec fn view(&self) -> QueryView {
        QueryView { client_name: opt_string_view(self.client_name), request: self.request@ }
    }
}

/// The outcome of reading a query, seen through the view of the query.
pub open spec fn query_outcome_view(outcome: Result<LeaseQuery, QueryError>) -> Result<
    QueryView,
    QueryError,
> {
    match outcome {
        Ok(query) => Ok(query@),
        Err(e) => Err(e),
    }
}

/// A list of key-value pairs, seen as pairs of character sequences.
pub open spec fn pairs_view(pairs: Seq<(String, String)>) -> Seq<(Seq<char>, Seq<char>)> {
    Seq::new(pairs.len(), |i: int| (pairs[i].0@, pairs[i].1@))
}

/// An optional list of key-value pairs, seen through [`pairs_view`].
pub open spec fn opt_pairs_view(pairs: Option<Vec<(String, String)>>) -> Option<
    Seq<(Seq<char>, Seq<char>)>,
> {
    match pairs {
        Some(pairs) => Some(pairs_view(pairs@)),
        None => None,
    }
}

/// The query that asks for nothing and names nobody.
pub open spec fn empty_query() -> QueryView {
    QueryView {
        client_name: None,
        request: RequestView {
            location: None,
            pool_attributes: None,
            resource_attributes: None,
            timeout: None,
            by_name: None,
        },
    }
}

/// The query once the pair `key`, `value` has been read into it.
///
/// A single-valued key replaces what an earlier pair set;
/// `resource_attributes` adds one attribute set to those already asked for.
pub open spec fn apply_pair(query: QueryView, key: Seq<char>, value: Seq<char>) -> Result<
    QueryView,
    QueryError,
> {
    let request = query.request;
    if key == "client_name"@ {
        Ok(QueryView { client_name: Some(value), ..query })
    } else if key == "location"@ {
        Ok(QueryView { request: RequestView { location: Some(value), ..request }, ..query })
    } else if key == "by_name"@ {
        Ok(QueryView { request: RequestView { by_name: Some(value), ..request }, ..query })
    } else if key == "pool_attributes"@ {
        Ok(
            QueryView {
                request: RequestView { pool_attributes: Some(split_spec(value, ',')), ..request },
                ..query
            },
        )
    } else if key == "resource_attributes"@ {
        let earlier = match request.resource_attributes {
            Some(sets) => sets,
            None => Seq::empty(),
        };
        Ok(
            QueryView {
                request: RequestView {
                    resource_attributes: Some(earlier.push(split_spec(value, ','))),
                    ..request
                },
                ..query
            },
        )
    } else if key == "timeout"@ {
        match parse_u64_spec(value) {
            Some(seconds) => Ok(
                QueryView {
                    request: RequestView {
                        timeout: Some((seconds * NANOS_PER_SEC) as u128),
                        ..request
                    },
                    ..query
                },
            ),
            None => Err(QueryError::InvalidTimeout),
        }
    } else {
        Err(QueryError::UnknownKey)
    }
}

/// The query read from the first `n` pairs, in order; the error of the
/// first pair that cannot be read, if there is one.
pub open spec fn parse_prefix(pairs: Seq<(Seq<char>, Seq<char>)>, n: nat) -> Result<
    QueryView,
    QueryError,
>
    decreases n,
{
    if n == 0 {
        Ok(empty_query())
    } else {
        match parse_prefix(pairs, (n - 1) as nat) {
            Ok(query) => apply_pair(query, pairs[n - 1].0, pairs[n - 1].1),
            Err(e) => Err(e),
        }
    }
}

/// The query that `pairs` spell out. No pair at all is an error of its own.
pub open spec fn parse_pairs(pairs: Seq<(Seq<char>, Seq<char>)>) -> Result<QueryView, QueryError> {
    if pairs.len() == 0 {
        Err(QueryError::NoValue)
    } else {
        parse_prefix(pairs, pairs.len())
    }
}

/// Once a pair cannot be read, no later pair mends it.
pub proof fn lemma_first_error_stays(pairs: Seq<(Seq<char>, Seq<char>)>, k: nat, n: nat)
    requires
        k <= n,
        parse_prefix(pairs, k) is Err,
    ensures
        parse_prefix(pairs, n) == parse_prefix(pairs, k),
    decreases n,
{
    if k < n {
        lemma_first_error_stays(pairs, k, (n - 1) as nat);
    }
}

/// What reading `pairs`, in order, makes of `start`: each pair is read into
/// the query that the pairs before it left, and an error stays.
pub open spec fn apply_pairs(
    start: Result<QueryView, QueryError>,
    pairs: Seq<(Seq<char>, Seq<char>)>,
) -> Result<QueryView, QueryError>
    decreases pairs.len(),
{
    if pairs.len() == 0 {
        start
    } else {
        match apply_pairs(start, pairs.drop_last()) {
            Ok(query) => apply_pair(query, pairs.last().0, pairs.last().1),
            Err(e) => Err(e),
        }
    }
}

/// Reading a list of pairs is reading its first part and then the rest.
pub proof fn lemma_apply_concat(
    start: Result<QueryView, QueryError>,
    first: Seq<(Seq<char>, Seq<char>)>,
    rest: Seq<(Seq<char>, Seq<char>)>,
)
    ensures
        apply_pairs(start, first + rest) == apply_pairs(apply_pairs(start, first), rest),
    decreases rest.len(),
{
    if rest.len() == 0 {
        assert(first + rest =~= first);
    } else {
        lemma_apply_concat(start, first, rest.drop_last());
        assert((first + rest).drop_last() =~= first + rest.drop_last());
    }
}

/// The query read from the first `n` pairs is what reading them makes of
/// the empty query.
pub proof fn lemma_parse_is_fold(pairs: Seq<(Seq<char>, Seq<char>)>, n: nat)
    requires
        n <= pairs.len(),
    ensures
        parse_prefix(pairs, n) == apply_pairs(Ok(empty_query()), pairs.subrange(0, n as int)),
    decreases n,
{
    if n > 0 {
        lemma_parse_is_fold(pairs, (n - 1) as nat);
        assert(pairs.subrange(0, n as int).drop_last() =~= pairs.subrange(0, n - 1));
    }
}

/// Reads one pair into `query`.
fn read_pair(query: &mut LeaseQuery, key: &String, value: &String) -> (outcome: Result<
    (),
    QueryError,
>)
    ensures
        apply_pair(old(query)@, key@, value@) == (match outcome {
            Ok(_) => Ok::<QueryView, QueryError>(final(query)@),
            Err(e) => Err::<QueryView, QueryError>(e),
        }),
{
    let ghost before = query@;
    if *key == "client_name".to_owned() {
        query.client_name = Some(value.clone());
    } else if *key == "location".to_owned() {
        query.request.location = Some(value.clone());
    } else if *key == "by_name".to_owned() {
        query.request.by_name = Some(value.clone());
    } else if *key == "pool_attributes".to_owned() {
        query.request.pool_attributes = Some(split_on(value.as_str(), ','));
    } else if *key == "resource_attributes".to_owned() {
        let attributes = split_on(value.as_str(), ',');
        let mut sets = match query.request.resource_attributes.take() {
            Some(sets) => sets,
            None => Vec::new(),
        };
        let ghost earlier = string_lists_view(sets@);
        assert(earlier =~= match before.request.resource_attributes {
            Some(sets) => sets,
            None => Seq::empty(),
        });
        sets.push(attributes);
        assert(string_lists_view(sets@) =~= earlier.push(split_spec(value@, ',')));
        query.request.resource_attributes = Some(sets);
    } else if *key == "timeout".to_owned() {
        match parse_u64(value.as_str()) {
            Some(seconds) => {
                let seconds: u128 = seconds as u128;
                query.request.timeout = Some(seconds * NANOS_PER_SEC);
            },
            None => {
                return Err(QueryError::InvalidTimeout);
            },
        }
    } else {
        return Err(QueryError::UnknownKey);
    }
    Ok(())
}

/// Reads a lease request out of the decoded key-value pairs of a query
/// string, in their order. The first pair that cannot be read decides the
/// error.
pub fn request_from_pairs(pairs: &Vec<(String, String)>) -> (outcome: Result<
    LeaseQuery,
    QueryError,
>)
    ensures
        query_outcome_view(outcome) == parse_pairs(pairs_view(pairs@)),
{
    if pairs.len() == 0 {
        return Err(QueryError::NoValue);
    }
    let mut query = LeaseQuery { client_name: None, request: ResourceRequest::default() };
    let mut i: usize = 0;
    while i < pairs.len()
        invariant
            i <= pairs.len(),
            parse_prefix(pairs_view(pairs@), i as nat) == Ok::<QueryView, QueryError>(query@),
        decreases pairs.len() - i,
    {
        match read_pair(&mut query, &pairs[i].0, &pairs[i].1) {
            Ok(_) => {},
            Err(e) => {
                proof {
                    lemma_first_error_stays(
                        pairs_view(pairs@),
                        (i + 1) as nat,
                        pairs.len() as nat,
                    );
                }
                return Err(e);
            },
        }
        i += 1;
    }
    Ok(query)
}

/// The key-value pairs of the query string of `reference`, a URI reference
/// resolved against the URL `base`: what `url::Url::parse` of `base`, then
/// `url::Url::join` with `reference`, then `url::Url::query_pairs` yield,
/// each pair percent-decoded; none where `base` or `reference` is refused.
pub uninterp spec fn uri_query_pairs(base: Seq<char>, reference: Seq<char>) -> Option<
    Seq<(Seq<char>, Seq<char>)>,
>;

/// Resolves `reference` against `base` and decodes the pairs of its query
/// string, with `url::Url::parse`, `url::Url::join` and
/// `url::Url::query_pairs`.
///
/// The contract claims only that the result is a function of the two
/// strings, which it names [`uri_query_pairs`].
#[verifier::external_body]
fn query_pairs(base: &str, reference: &str) -> (pairs: Option<Vec<(String, String)>>)
    ensures
        opt_pairs_view(pairs) == uri_query_pairs(base@, reference@),
{
    let url = url::Url::parse(base).ok()?.join(reference).ok()?;
    Some(url.query_pairs().into_owned().collect())
}

/// The URL against which request URIs are resolved.
pub const BASE_URL: &'static str = "http://localhost";

/// What follows once the pairs of a URI have been decoded: a URI that was
/// refused is invalid, the pairs of any other are read in order.
pub fn request_from_decoded(pairs: Option<Vec<(String, String)>>) -> (outcome: Result<
    LeaseQuery,
    QueryError,
>)
    ensures
        query_outcome_view(outcome) == (match opt_pairs_view(pairs) {
            Some(pairs) => parse_pairs(pairs),
            None => Err(QueryError::InvalidUri),
        }),
{
    match pairs {
        Some(pairs) => request_from_pairs(&pairs),
        None => Err(QueryError::InvalidUri),
    }
}

/// Reads a lease request out of the URI of an HTTP request, whatever its
/// path.
pub fn request_from_uri(uri: &str) -> (outcome: Result<LeaseQuery, QueryError>)
    ensures
        query_outcome_view(outcome) == (match uri_query_pairs(BASE_URL@, uri@) {
            Some(pairs) => parse_pairs(pairs),
            None => Err(QueryError::InvalidUri),
        }),
{
    request_from_decoded(query_pairs(BASE_URL, uri))
}

} // verus!

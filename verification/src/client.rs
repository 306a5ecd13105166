//! The client of a remote server: who it is and where its requests go.

pub mod http;

use vstd::prelude::*;
use crate::client::http::{build_query, query_parts};
use crate::inventory::ResourceRequest;
use crate::text::{join_spec, opt_string_view};

verus! {

/// Makes clients that all speak to the server at one URL.
#[derive(Debug)]
pub struct RemoteRespoClientFactory {
    url: String,
}

/// A client of the server at `url`, known to it as `name`.
#[derive(Debug)]
pub struct RemoteRespoClient {
    name: String,
    url: String,
}

/// The name under which a client presents itself: user and host, joined by
/// `@`, with `user` and `host` standing in for what is not known.
pub open spec fn client_name_spec(user: Option<Seq<char>>, host: Option<Seq<char>>) -> Seq<char> {
    (match user {
        Some(user) => user,
        None => "user"@,
    }) + "@"@ + (match host {
        Some(host) => host,
        None => "host"@,
    })
}

/// Composes the name under which a client presents itself from the user's
/// name and the host's name, where they are known.
pub fn compose_client_name(user: Option<String>, host: Option<String>) -> (name: String)
    ensures
        name@ == client_name_spec(opt_string_view(user), opt_string_view(host)),
{
    let mut name = match user {
        Some(user) => user,
        None => "user".to_owned(),
    };
    name.append("@");
    match host {
        Some(host) => name.append(host.as_str()),
        None => name.append("host"),
    }
    name
}

impl RemoteRespoClientFactory {
    /// The URL of the server.
    pub closed spec fn url_view(&self) -> Seq<char> {
        self.url@
    }

    /// A factory of clients of the server at `url`.
    pub fn new(url: String) -> (factory: RemoteRespoClientFactory)
        ensures
            factory.url_view() == url@,
    {
        RemoteRespoClientFactory { url }
    }

    /// A client of the factory's server, known as `name`.
    pub fn create(&mut self, name: String) -> (client: RemoteRespoClient)
        ensures
            client.name_view() == name@,
            client.url_view() == old(self).url_view(),
            final(self).url_view() == old(self).url_view(),
    {
        RemoteRespoClient { name, url: self.url.clone() }
    }

    /// The URL of the server.
    pub fn url(&self) -> (url: &String)
        ensures
            url@ == self.url_view(),
    {
        &self.url
    }
}

impl RemoteRespoClient {
    /// The name by which the server knows the client.
    pub closed spec fn name_view(&self) -> Seq<char> {
        self.name@
    }

    /// The URL of the server.
    pub closed spec fn url_view(&self) -> Seq<char> {
        self.url@
    }

    /// The name by which the server knows the client.
    pub fn name(&self) -> (name: &String)
        ensures
            name@ == self.name_view(),
    {
        &self.name
    }

    /// The URL of the server.
    pub fn url(&self) -> (url: &String)
        ensures
            url@ == self.url_view(),
    {
        &self.url
    }

    /// The URL to fetch for `request`: the server's URL, `?`, and the query
    /// string that carries the request under the client's name.
    pub fn request_url(&self, request: &ResourceRequest) -> (target: String)
        ensures
            target@ == self.url_view() + "?"@ + join_spec(
                query_parts(Some(self.name_view()), request@),
                "&"@,
            ),
    {
        let query = build_query(Some(self.name.clone()), request);
        let mut target = self.url.clone();
        target.append("?");
        target.append(query.as_str());
        target
    }
}

} // verus!

//! The context that a host keeps: the Redis client that all calls share.

use vstd::prelude::*;

use crate::error::Error;

verus! {

/// The handle by which connections to a Redis server are made.
#[verifier::external_type_specification]
#[verifier::external_body]
pub struct ExClient(redis::Client);

/// What `redis::Client::open` makes of a URL: a client, or its error.
pub uninterp spec fn opened_client(url: Seq<char>) -> Result<redis::Client, redis::RedisError>;

/// `redis::Client::open` of a URL. It parses the URL and connects to nothing, so on one
/// platform equal URLs give equal clients, or equal errors. Which URLs are accepted,
/// and the kind and wording of an error, are left to the name.
#[verifier::external_body]
fn open_client(url: &str) -> (client: Result<redis::Client, redis::RedisError>)
    ensures
        client == opened_client(url@),
{
    redis::Client::open(url)
}

/// Holds the Redis client handle shared across all operations.
pub struct WasiKeyValueRedisCtx {
    client: redis::Client,
}

impl View for WasiKeyValueRedisCtx {
    type V = redis::Client;

    /// The client of the context.
    closed spec fn view(&self) -> redis::Client {
        self.client
    }
}

impl WasiKeyValueRedisCtx {
    /// Gives the client, to connect with.
    pub fn client(&self) -> (client: &redis::Client)
        ensures
            *client == self@,
    {
        &self.client
    }
}

/// Builder for [`WasiKeyValueRedisCtx`].
pub struct WasiKeyValueRedisCtxBuilder {
    client: Option<redis::Client>,
}

impl View for WasiKeyValueRedisCtxBuilder {
    type V = Option<redis::Client>;

    /// The client that has been configured, if any.
    closed spec fn view(&self) -> Option<redis::Client> {
        self.client
    }
}

impl Default for WasiKeyValueRedisCtxBuilder {
    fn default() -> (builder: Self)
        ensures
            builder@ is None,
    {
        WasiKeyValueRedisCtxBuilder { client: None }
    }
}

impl WasiKeyValueRedisCtxBuilder {
    /// Makes a builder with nothing configured.
    pub fn new() -> (builder: Self)
        ensures
            builder@ is None,
    {
        WasiKeyValueRedisCtxBuilder::default()
    }

    /// Configures the Redis URL (e.g. `"redis://127.0.0.1:6379"`). A URL that the client
    /// refuses is answered with the client's own error.
    pub fn url(self, url: &str) -> (builder: Result<Self, redis::RedisError>)
        ensures
            match opened_client(url@) {
                Ok(client) => builder matches Ok(builder) && builder@ == Some(client),
                Err(err) => builder == Err::<Self, redis::RedisError>(err),
            },
    {
        match open_client(url) {
            Ok(client) => Ok(self.client(client)),
            Err(err) => Err(err),
        }
    }

    /// Uses an already-constructed [`redis::Client`].
    pub fn client(self, client: redis::Client) -> (builder: Self)
        ensures
            builder@ == Some(client),
    {
        WasiKeyValueRedisCtxBuilder { client: Some(client) }
    }

    /// Makes the context of the configured client.
    pub fn build(self) -> (ctx: Result<WasiKeyValueRedisCtx, Error>)
        ensures
            match self@ {
                Some(client) => ctx matches Ok(ctx) && ctx@ == client,
                None => ctx matches Err(error) && error.says(
                    "no Redis URL configured; call url() or client()"@,
                ),
            },
    {
        match self.client {
            Some(client) => Ok(WasiKeyValueRedisCtx { client }),
            None => Err(
                Error::Other("no Redis URL configured; call url() or client()".to_owned()),
            ),
        }
    }
}

} // verus!

//! What a call that fails is answered.

use vstd::prelude::*;
use vstd::string::to_string_from_display_ensures;
use wasmtime::component::ResourceTableError;

use crate::table::{table_error_message, table_error_text};

verus! {

/// The error of a connection or of a command, as the Redis client gives it.
#[verifier::external_type_specification]
#[verifier::external_body]
pub struct ExRedisError(redis::RedisError);

/// Why a call failed.
#[derive(Debug)]
pub enum Error {
    NoSuchStore,
    AccessDenied,
    Other(String),
}

/// The `error` variant of `wasi:keyvalue/store`, as a guest sees it.
#[derive(Debug)]
pub enum StoreError {
    NoSuchStore,
    AccessDenied,
    Other(String),
}

impl Error {
    /// The error is `Other` with this text.
    pub open spec fn says(self, text: Seq<char>) -> bool {
        self matches Error::Other(t) && t@ == text
    }

    /// The error is `Other` with a text that `err` displays as.
    pub open spec fn reports(self, err: redis::RedisError) -> bool {
        self matches Error::Other(t) && to_string_from_display_ensures(&err, t)
    }
}

impl From<ResourceTableError> for Error {
    fn from(err: ResourceTableError) -> (error: Self)
        ensures
            error.says(table_error_message(err)),
    {
        Error::Other(table_error_text(&err))
    }
}

impl vstd::std_specs::convert::FromSpecImpl<ResourceTableError> for Error {
    /// The text is fixed and the `String` that holds it is not, so `from` states
    /// its result in a clause of its own.
    open spec fn obeys_from_spec() -> bool {
        false
    }

    open spec fn from_spec(err: ResourceTableError) -> Self {
        arbitrary()
    }
}

impl From<redis::RedisError> for Error {
    fn from(err: redis::RedisError) -> (error: Self)
        ensures
            error.reports(err),
    {
        Error::Other(err.to_string())
    }
}

impl vstd::std_specs::convert::FromSpecImpl<redis::RedisError> for Error {
    /// The text is fixed and the `String` that holds it is not, so `from` states
    /// its result in a clause of its own.
    open spec fn obeys_from_spec() -> bool {
        false
    }

    open spec fn from_spec(err: redis::RedisError) -> Self {
        arbitrary()
    }
}

/// Law: an error says one text at most, and one that says a text, or reports a failure of
/// the client, is of the variant that carries a text.
pub proof fn law_error_says_one_text(
    error: Error,
    text: Seq<char>,
    other: Seq<char>,
    err: redis::RedisError,
)
    requires
        error.says(text),
    ensures
        error.says(other) <==> other == text,
        error is Other,
        error->0@ == text,
        error.reports(err) <==> to_string_from_display_ensures(&err, error->0),
{
}

/// Law: only an error that carries a text says one or reports a failure.
pub proof fn law_other_variants_say_nothing(
    error: Error,
    text: Seq<char>,
    err: redis::RedisError,
)
    requires
        !(error is Other),
    ensures
        !error.says(text),
        !error.reports(err),
{
}

} // verus!

//! The course of a call between the host and the server.
//!
//! A call that has found its bucket is a [`Call`]. Once the caller has tried to
//! connect, [`Call::connected`] tells what the call asks of the connection: a
//! command, or, for a batch, an [`Exchange`]. The reply to the command goes to
//! [`reply`], or to the function that reads the replies of that call.

use vstd::prelude::*;

use crate::error::Error;

verus! {

/// A call that has found its bucket and waits for a connection.
pub struct Call<E> {
    next: E,
}

impl<E> View for Call<E> {
    type V = E;

    /// What the call asks of the connection.
    closed spec fn view(&self) -> E {
        self.next
    }
}

/// What a batch asks of the connection: an exchange with the server, after which the
/// call goes on from `S`, or nothing, for the answer is known.
pub enum Exchange<S, T> {
    Query(redis::Cmd, S),
    Answer(T),
}

/// `answer` is what a call returns that passes the outcome of an exchange on: the
/// value, or the client's error as text.
pub open spec fn passes_on<T>(
    outcome: Result<T, redis::RedisError>,
    answer: Result<T, Error>,
) -> bool {
    match outcome {
        Ok(value) => answer == Ok::<T, Error>(value),
        Err(err) => answer matches Err(error) && error.reports(err),
    }
}

/// Ends a call whose answer is the reply itself.
pub fn reply<T>(outcome: Result<T, redis::RedisError>) -> (answer: Result<T, Error>)
    ensures
        passes_on(outcome, answer),
{
    match outcome {
        Ok(value) => Ok(value),
        Err(err) => Err(Error::from(err)),
    }
}

impl<E> Call<E> {
    /// Makes the call that asks `next` of its connection.
    pub(crate) fn new(next: E) -> (call: Call<E>)
        ensures
            call@ == next,
    {
        Call { next }
    }

    /// Takes the outcome of connecting. The call ends where there is no connection;
    /// else the connection comes back with what the call asks of it.
    pub fn connected<C>(self, connection: Result<C, redis::RedisError>) -> (next: Result<
        (C, E),
        Error,
    >)
        ensures
            match connection {
                Ok(connection) => next == Ok::<(C, E), Error>((connection, self@)),
                Err(err) => next matches Err(error) && error.reports(err),
            },
    {
        match reply(connection) {
            Ok(connection) => Ok((connection, self.next)),
            Err(error) => Err(error),
        }
    }
}

/// Law: a value comes through as it is, and a failure never as a value.
pub proof fn law_outcome_comes_through<T>(
    outcome: Result<T, redis::RedisError>,
    answer: Result<T, Error>,
)
    requires
        passes_on(outcome, answer),
    ensures
        outcome is Ok <==> answer is Ok,
        outcome is Ok ==> answer->Ok_0 == outcome->Ok_0,
        outcome is Err ==> answer->Err_0.reports(outcome->Err_0),
{
}

} // verus!

//! The server's part in a connection: what it answers to each request.

use crate::common::{request_of, GetResponse, RemoveResponse, Request, SetResponse};
use crate::engines::KvsEngine;
use crate::errors::KvsError;
use crate::json::{json_prefix, next_frame, Frame, Prefix};
use crate::thread_pool::ThreadPool;
use vstd::prelude::*;

verus! {

/// The answer to a request, of the kind that the request calls for.
#[derive(Debug)]
pub enum Response {
    Get(GetResponse),
    Put(SetResponse),
    Remove(RemoveResponse),
}

impl Response {
    /// Whether this is the answer to `request` from `engine`: of the kind
    /// that the request calls for, and the report of a result that the
    /// engine's operation of that name returns for the request's key and
    /// value.
    pub open spec fn answers<E: KvsEngine>(self, engine: &E, request: Request) -> bool {
        match request {
            Request::Get { key } => self matches Response::Get(answer) && exists|
                result: Result<Option<String>, KvsError>,
            | call_ensures(E::get, (engine, key), result) && answer.reports(result),
            Request::Put { key, value } => self matches Response::Put(answer) && exists|
                result: Result<(), KvsError>,
            | call_ensures(E::set, (engine, key, value), result) && answer.reports(result),
            Request::Remove { key } => self matches Response::Remove(answer) && exists|
                result: Result<(), KvsError>,
            | call_ensures(E::remove, (engine, key), result) && answer.reports(result),
        }
    }
}

impl Response {
    /// The text of the answer on the wire.
    pub open spec fn encoding(self) -> Seq<char> {
        match self {
            Response::Get(answer) => answer.encoding(),
            Response::Put(answer) => answer.encoding(),
            Response::Remove(answer) => answer.encoding(),
        }
    }

    /// The text of the answer on the wire.
    pub fn encode(&self) -> (text: Result<String, KvsError>)
        ensures
            text matches Ok(written) && written@ == self.encoding(),
    {
        match self {
            Response::Get(answer) => answer.encode(),
            Response::Put(answer) => answer.encode(),
            Response::Remove(answer) => answer.encode(),
        }
    }
}

/// What the server does with the bytes that a connection has brought so
/// far.
#[derive(Debug)]
pub enum Step {
    /// A request was served. `text` is the answer to send, and the request
    /// took the first `consumed` bytes.
    Answer { text: String, consumed: usize },
    /// Nothing but white space has come: no request is pending.
    Idle,
    /// A request has come in part. If the client closes the connection
    /// now, serving it fails with the error.
    Partial(KvsError),
    /// The connection fails with the error.
    Fail(KvsError),
}

impl Step {
    /// Whether serving stops with a codec error.
    pub open spec fn fails(self) -> bool {
        self matches Step::Fail(e) && e is SerdeError
    }

    /// Whether this is the step that `bytes` call for on a connection
    /// that is served from `engine`: the first request in them is answered
    /// from the engine, by the text of the answer; bytes that are no request
    /// fail the connection.
    pub open spec fn serves<E: KvsEngine>(self, engine: &E, bytes: Seq<u8>) -> bool {
        match json_prefix(bytes) {
            Prefix::Value(json, n) => if 0 < n <= bytes.len() {
                match request_of(json) {
                    Some(request) => self matches Step::Answer { text, consumed } && consumed == n
                        && exists|response: Response|
                        response.answers(engine, request) && text@ == response.encoding(),
                    None => self.fails(),
                }
            } else {
                self.fails()
            },
            Prefix::End => self is Idle,
            Prefix::Truncated => self matches Step::Partial(e) && e is SerdeError,
            Prefix::Invalid => self.fails(),
        }
    }
}

/// A server: an engine, and a pool of threads to serve connections on.
pub struct KvsServer<E, P> where E: KvsEngine, P: ThreadPool {
    engine: E,
    pool: P,
}

impl<E, P> KvsServer<E, P> where E: KvsEngine, P: ThreadPool {
    /// The engine that the server answers from.
    pub closed spec fn spec_engine(&self) -> E {
        self.engine
    }

    /// The pool that the server hands connections to.
    pub closed spec fn spec_pool(&self) -> P {
        self.pool
    }

    /// A server that answers from `engine` and serves on `pool`.
    pub fn new(engine: E, pool: P) -> (server: Self)
        ensures
            server.spec_engine() == engine,
            server.spec_pool() == pool,
    {
        Self { engine, pool }
    }

    /// The engine that the server answers from.
    pub fn engine(&self) -> (engine: &E)
        ensures
            *engine == self.spec_engine(),
    {
        &self.engine
    }

    /// The pool that the server hands connections to.
    pub fn pool(&self) -> (pool: &P)
        ensures
            *pool == self.spec_pool(),
    {
        &self.pool
    }

    /// Answers one request from `engine`: the request is handed to the
    /// engine's operation of that name, with its key and value as they
    /// are, and the answer reports what the engine returned, an error by its
    /// message.
    pub fn serve(engine: &E, request: Request) -> (response: Response)
        ensures
            response.answers(engine, request),
    {
        match request {
            Request::Get { key } => {
                let ghost asked = key;
                let result = engine.get(key);
                let ghost returned = result;
                let answer = GetResponse::from_result(result);
                assert(call_ensures(E::get, (engine, asked), returned) && answer.reports(returned));
                Response::Get(answer)
            },
            Request::Put { key, value } => {
                let ghost asked = (key, value);
                let result = engine.set(key, value);
                let ghost returned = result;
                let answer = SetResponse::from_result(result);
                assert(call_ensures(E::set, (engine, asked.0, asked.1), returned) && answer.reports(
                    returned,
                ));
                Response::Put(answer)
            },
            Request::Remove { key } => {
                let ghost asked = key;
                let result = engine.remove(key);
                let ghost returned = result;
                let answer = RemoveResponse::from_result(result);
                assert(call_ensures(E::remove, (engine, asked), returned) && answer.reports(returned));
                Response::Remove(answer)
            },
        }
    }

    /// Serves the first request among the bytes that a connection has
    /// brought so far, if a whole request has come.
    ///
    /// The requests of a connection come one after the other, as JSON
    /// values without separators, and each gets one answer: a whole request
    /// at the start of the bytes is always answered.
    pub fn serve_next(engine: &E, bytes: &[u8]) -> (step: Step)
        ensures
            step.serves(engine, bytes@),
    {
        match next_frame(bytes) {
            Frame::Value { json, consumed } => {
                let request = match Request::from_json(&json) {
                    Ok(request) => request,
                    Err(e) => {
                        return Step::Fail(e);
                    },
                };
                let ghost asked = request;
                let response = Self::serve(engine, request);
                match response.encode() {
                    Ok(text) => {
                        assert(response.answers(engine, asked) && text@ == response.encoding());
                        Step::Answer { text, consumed }
                    },
                    Err(e) => Step::Fail(e),
                }
            },
            Frame::Nothing => Step::Idle,
            Frame::Partial(e) => Step::Partial(e),
            Frame::Broken(e) => Step::Fail(e),
        }
    }
}

} // verus!

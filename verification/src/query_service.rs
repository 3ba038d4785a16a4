//! The query service's decisions: which request is answered, and what a
//! refused request is told.

use vstd::prelude::*;
use vstd::string::*;

verus! {

/// A request for the embedding of a text query.
#[derive(Clone, Debug, PartialEq, Eq)]
pub struct CreateEmbeddingRequest {
    query: String,
}

/// The answer of the liveness check.
#[derive(Clone, Debug, PartialEq, Eq)]
pub struct HealthResponse {
    pub status: String,
}

/// The query of a request was empty.
#[derive(Clone, Copy, Debug, PartialEq, Eq)]
pub struct InvalidQueryError();

/// The service failed while it worked on a request.
#[derive(Clone, Debug, PartialEq, Eq)]
pub struct ServerError {
    pub message: String,
}

/// What is known of a refused request. More than one may hold at once.
#[derive(Clone, Debug, PartialEq, Eq)]
pub struct Rejection {
    /// No route matched the path.
    pub not_found: bool,
    /// The body could not be read as a form.
    pub invalid_body: bool,
    /// A route matched the path, but not the method.
    pub method_not_allowed: bool,
    /// The query was refused as invalid.
    pub invalid_query: bool,
    /// The service failed.
    pub server_error: Option<ServerError>,
}

/// What a refused request is told.
#[derive(Clone, Debug, PartialEq, Eq)]
pub struct ErrorReply {
    /// The HTTP status.
    pub code: u16,
    pub message: String,
}

/// The status for a refused request: the first that applies of not found,
/// unreadable body, wrong method, invalid query, server failure; a server
/// failure too for what is none of them.
pub open spec fn rejection_code(r: Rejection) -> int {
    if r.not_found {
        404
    } else if r.invalid_body {
        400
    } else if r.method_not_allowed {
        405
    } else if r.invalid_query {
        400
    } else {
        500
    }
}

/// The message for a refused request, chosen as the status is.
pub open spec fn rejection_message(r: Rejection) -> Seq<char> {
    if r.not_found {
        "Not Found"@
    } else if r.invalid_body {
        "Invalid Body"@
    } else if r.method_not_allowed {
        "Method Not Allowed"@
    } else if r.invalid_query {
        "The query must not be empty or very large."@
    } else {
        match r.server_error {
            Some(e) => e.message@,
            None => "Internal Server Error"@,
        }
    }
}

impl CreateEmbeddingRequest {
    /// The text to embed.
    pub closed spec fn query_text(&self) -> Seq<char> {
        self.query@
    }

    /// A request for the embedding of `query`.
    pub fn new(query: String) -> (request: CreateEmbeddingRequest)
        ensures
            request.query_text() == query@,
    {
        CreateEmbeddingRequest { query }
    }

    /// The text to embed.
    pub fn query(&self) -> (query: &str)
        ensures
            query@ == self.query_text(),
    {
        self.query.as_str()
    }
}

/// Answers the liveness check: the service is healthy.
pub fn health_handler() -> (response: HealthResponse)
    ensures
        response.status@ == "healthy"@,
{
    HealthResponse { status: String::from_str("healthy") }
}

/// Decides whether the embedding of the request's query is computed: it is,
/// of `body.query()`, unless the query is empty.
pub fn create_embedding_handler(body: &CreateEmbeddingRequest) -> (decision: Result<
    (),
    InvalidQueryError,
>)
    ensures
        decision is Err <==> body.query_text().len() == 0,
{
    if body.query.as_str().is_empty() {
        Err(InvalidQueryError())
    } else {
        Ok(())
    }
}

/// The error for a query whose embedding could not be computed.
pub fn embedding_failed() -> (error: ServerError)
    ensures
        error.message@ == "embedding calcuation failed"@,
{
    ServerError { message: String::from_str("embedding calcuation failed") }
}

/// The status and the message for a refused request.
pub fn handle_rejection(err: &Rejection) -> (reply: ErrorReply)
    ensures
        reply.code == rejection_code(*err),
        reply.message@ == rejection_message(*err),
{
    if err.not_found {
        ErrorReply { code: 404, message: String::from_str("Not Found") }
    } else if err.invalid_body {
        ErrorReply { code: 400, message: String::from_str("Invalid Body") }
    } else if err.method_not_allowed {
        ErrorReply { code: 405, message: String::from_str("Method Not Allowed") }
    } else if err.invalid_query {
        ErrorReply {
            code: 400,
            message: String::from_str("The query must not be empty or very large."),
        }
    } else {
        match &err.server_error {
            Some(e) => ErrorReply { code: 500, message: e.message.clone() },
            None => ErrorReply { code: 500, message: String::from_str("Internal Server Error") },
        }
    }
}

} // verus!

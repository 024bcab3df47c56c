//! What every plugin shares: the pipeline step it runs at, its category,
//! the response it may produce, and the per-request state it works on.
use pingora_limits::inflight::Guard;
use vstd::prelude::*;
use vstd::utf8::encode_utf8;

verus! {

/// The stage of request processing at which a plugin runs.
#[derive(PartialEq, Eq, Structural, Debug, Clone, Copy)]
pub enum ProxyPluginStep {
    RequestFilter,
    ProxyUpstreamFilter,
}

/// The kind of a plugin, for diagnostics and ordering.
#[derive(PartialEq, Eq, Structural, Debug, Clone, Copy)]
pub enum ProxyPluginCategory {
    Limit,
    Directory,
}

/// The plugin contract: where in the pipeline it runs, and what it is.
pub trait ProxyPlugin {
    fn step(&self) -> ProxyPluginStep;

    fn category(&self) -> ProxyPluginCategory;
}

pub const STATUS_OK: u16 = 200;

pub const STATUS_BAD_REQUEST: u16 = 400;

pub const STATUS_NOT_FOUND: u16 = 404;

pub const STATUS_TOO_MANY_REQUESTS: u16 = 429;

pub const STATUS_INTERNAL_ERROR: u16 = 500;

/// A buffered response: status, cache directives, headers and body.
pub struct HttpResponse {
    pub status: u16,
    pub max_age: Option<u32>,
    pub cache_private: Option<bool>,
    pub headers: Vec<(String, String)>,
    pub body: Vec<u8>,
}

/// What a plugin's handler decides for a request.
pub enum HandleOutcome {
    /// Let the pipeline go on; no response.
    Continue,
    /// End the pipeline with this response.
    Respond(HttpResponse),
    /// The response was already written to the client; write nothing more.
    AlreadyWritten,
}

/// A response with the given status and text body, and nothing else.
pub fn text_response(status: u16, body: &str) -> (r: HttpResponse)
    ensures
        r.status == status,
        r.body@ == encode_utf8(body@),
        r.headers@.len() == 0,
        r.max_age is None,
        r.cache_private is None,
{
    HttpResponse {
        status,
        max_age: None,
        cache_private: None,
        headers: Vec::new(),
        body: body.as_bytes_vec(),
    }
}

/// What the plugins read of a request, as plain values.
pub struct RequestView {
    /// The URI path, as sent.
    pub path: String,
    /// The raw query string, without the `?`.
    pub query: String,
    /// Header names (lower case, as the HTTP layer keeps them) and values.
    pub headers: Vec<(String, String)>,
    /// The client's address, forwarded-for conventions applied.
    pub client_ip: String,
}

/// State threaded through the pipeline for one request.
pub struct State {
    /// The client's address, once resolved.
    pub client_ip: Option<String>,
    /// The admission that the limiter granted this request, released when the
    /// state is dropped.
    pub guard: Option<Guard>,
    pub status: Option<u16>,
    pub response_body_size: usize,
}

impl State {
    pub fn new() -> (r: State)
        ensures
            r.client_ip is None,
            r.guard is None,
            r.status is None,
            r.response_body_size == 0,
    {
        State { client_ip: None, guard: None, status: None, response_body_size: 0 }
    }
}

} // verus!

use vstd::prelude::*;
use std::collections::HashMap;
use crate::handler::Handler;

verus! {

/// Errors of a proving run, by the stage that failed.
#[derive(Clone, Debug)]
pub enum TlsnError {
    InitializationFailed(String),
    ConnectionFailed(String),
    SetupFailed(String),
    RequestFailed(String),
    ProofFailed(String),
    InvalidConfig(String),
    Timeout,
}

/// An HTTP header name and value.
#[derive(Clone, Debug)]
pub struct HttpHeader {
    pub name: String,
    pub value: String,
}

/// An HTTP request to prove.
#[derive(Clone, Debug)]
pub struct HttpRequest {
    pub url: String,
    pub method: String,
    pub headers: Vec<HttpHeader>,
    pub body: Option<String>,
}

/// The HTTP response of the proven request.
#[derive(Clone, Debug)]
pub struct HttpResponse {
    pub status: u16,
    pub headers: Vec<HttpHeader>,
    pub body: String,
}

/// The raw bytes sent and received in one TLS session.
#[derive(Clone, Debug)]
pub struct Transcript {
    pub sent: Vec<u8>,
    pub recv: Vec<u8>,
}

/// Options of one proving run.
#[derive(Clone, Debug)]
pub struct ProverOptions {
    pub verifier_url: String,
    pub max_sent_data: u32,
    pub max_recv_data: u32,
    pub handlers: Vec<Handler>,
}

/// The outcome of one proving run.
#[derive(Clone, Debug)]
pub struct ProofResult {
    pub response: HttpResponse,
    pub transcript: Transcript,
    pub handlers_received: u32,
}

/// Options of a fetch made through the prover.
#[derive(Clone, Debug)]
pub struct RequestOptions {
    pub method: String,
    pub headers: HashMap<String, String>,
    pub body: String,
    pub max_transcript_size: usize,
    pub notary_url: String,
    pub websocket_proxy_url: String,
}

/// Adapts an async byte stream to an HTTP client's I/O traits.
pub struct HyperIo<T>(pub T);

impl<T> HyperIo<T> {
    /// Wraps `inner`.
    pub fn new(inner: T) -> (r: Self)
        ensures
            r.0 == inner,
    {
        HyperIo(inner)
    }
}

} // verus!

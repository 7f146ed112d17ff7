//! Selective-disclosure reveal engine for attested TLS transcripts.
//!
//! The library parses raw HTTP transcripts into structural spans
//! ([`message`]), resolves declarative disclosure handlers to byte ranges
//! ([`resolve`], with JSON paths in [`json`] and chunked bodies in
//! [`chunked`]), assembles the reveal configuration exchanged between prover
//! and verifier ([`disclosure`]), checks every revealed range against the
//! authenticated offsets ([`validate`]), and renders redacted transcripts and
//! revealed values ([`redact`]). Session pairing decisions are kept as a pure
//! registry ([`session`]) and state machine ([`protocol`]).

pub mod chunked;
pub mod config;
pub mod disclosure;
pub mod extract;
pub mod handler;
pub mod json;
pub mod message;
pub mod protocol;
pub mod redact;
pub mod relay;
pub mod resolve;
pub mod secrets;
pub mod session;
pub mod types;
pub mod validate;

pub use chunked::decode_chunked_body;
pub use config::{Config, WebhookConfig};
pub use disclosure::{build_reveal_config, ConfigError};
pub use extract::{extract_value_from_transcript, find_header_range, ExtractError};
pub use handler::{
    Handler, HandlerAction, HandlerParams, HandlerPart, HandlerResult, HandlerTag, HandlerType,
    RangeWithHandler, RevealConfig,
};
pub use message::{find_crlf, find_separator, parse_http_parts, HeaderLine, ParsedMessage, TranscriptSpan};
pub use protocol::{
    SessionAction, SessionEvent, SessionMachine, SessionPhase, REVEAL_CONFIG_TIMEOUT_SECS,
    SOCKET_TIMEOUT_SECS, VERIFICATION_TIMEOUT_SECS,
};
pub use redact::{
    bytes_to_redacted_string, complete_verification, process_ranges, project, RedactedTranscript,
};
pub use relay::{split_host_port, DEFAULT_TLS_PORT};
pub use resolve::{resolve, ByteRange};
pub use secrets::find_ranges;
pub use session::SessionRegistry;
pub use types::{
    HttpHeader, HttpRequest, HttpResponse, HyperIo, ProofResult, ProverOptions, RequestOptions,
    TlsnError, Transcript,
};
pub use validate::{validate_ranges_against_auth_set, verify_reveal_config};

//! Settings defaults and the output shape of formatted records.
use crate::backoff::Backoff;
use crate::metadata::str_eq;
use crate::render::string_texts;
use vstd::prelude::*;

verus! {

/// Which parts of a response a record carries.
#[derive(Debug, Clone, Copy, PartialEq, Eq, Structural)]
pub enum OutputParts {
    /// The record body only.
    Body,
    /// Status, headers and body.
    Full,
}

/// How a record is encoded.
#[derive(Debug, Clone, Copy, PartialEq, Eq, Structural)]
pub enum OutputType {
    /// Plain text.
    Text,
    /// A JSON object.
    Json,
}

/// The user agent sent when none is configured.
pub fn default_user_agent() -> (r: String)
    ensures
        r@ == "fluvio/http-source 0.5.0"@,
{
    String::from_str("fluvio/http-source 0.5.0")
}

/// The HTTP method used when none is configured.
pub fn default_http_method() -> (r: String)
    ensures
        r@ == "GET"@,
{
    String::from_str("GET")
}

/// Seconds between polls when no interval is configured.
pub const DEFAULT_INTERVAL_SECS: u64 = 10;

/// The polling interval used when none is configured, in seconds.
pub fn default_interval() -> (r: u64)
    ensures
        r == DEFAULT_INTERVAL_SECS,
{
    DEFAULT_INTERVAL_SECS
}

/// The record delimiter used when none is configured: a newline.
pub fn default_delimiter() -> (r: String)
    ensures
        r@ == "\n"@,
{
    String::from_str("\n")
}

/// The ping interval, in milliseconds, when none is configured.
pub const DEFAULT_PING_INTERVAL_MS: u64 = 10_000;

/// The configured ping interval, or the default of ten seconds.
pub fn ping_interval_ms(configured: Option<u64>) -> (r: u64)
    ensures
        r == match configured {
            Some(ms) => ms,
            None => DEFAULT_PING_INTERVAL_MS,
        },
{
    match configured {
        Some(ms) => ms,
        None => DEFAULT_PING_INTERVAL_MS,
    }
}

/// The subscription messages to send after each handshake: the deprecated single message
/// first, when set, then the configured list in order.
pub fn subscription_messages(single: Option<String>, list: Option<Vec<String>>) -> (r: Vec<String>)
    ensures
        string_texts(r@) == (match single {
            Some(m) => seq![m@],
            None => seq![],
        }) + (match list {
            Some(l) => string_texts(l@),
            None => seq![],
        }),
{
    let mut messages: Vec<String> = match list {
        Some(l) => l,
        None => Vec::new(),
    };
    if let Some(message) = single {
        let ghost before = messages@;
        messages.insert(0, message);
        assert(string_texts(messages@) =~= seq![message@] + string_texts(before));
    }
    messages
}

/// A reconnection policy: base and maximum delay in milliseconds, and an optional limit on
/// attempts.
#[derive(Debug, Clone, Copy, PartialEq, Eq, Structural)]
pub struct ReconnectPolicy {
    pub base_delay_ms: u64,
    pub max_delay_ms: u64,
    pub max_retries: Option<u32>,
}

/// The backoff for a configured policy, or the default that retries forever.
pub fn backoff_for(policy: Option<ReconnectPolicy>) -> (r: Backoff)
    ensures
        r.attempt() == 0,
        policy matches Some(p) ==> r.base() == p.base_delay_ms && r.max() == p.max_delay_ms
            && r.max_retries() == p.max_retries,
        policy is None ==> r.base() == crate::backoff::DEFAULT_BASE_DELAY_MS && r.max()
            == crate::backoff::DEFAULT_MAX_DELAY_MS && r.max_retries() is None,
{
    match policy {
        Some(p) => Backoff::with_policy(p.base_delay_ms, p.max_delay_ms, p.max_retries),
        None => Backoff::new(),
    }
}

/// Whether `h` holds `'='` first at `i`.
pub open spec fn first_equals_at(h: Seq<char>, i: int) -> bool {
    &&& 0 <= i < h.len()
    &&& h[i] == '='
    &&& forall|j: int| 0 <= j < i ==> h[j] != '='
}

/// Splits a configured header `Name=Value` at its first `'='`; `None` without one.
pub fn split_header(h: &str) -> (r: Option<(String, String)>)
    ensures
        r matches Some((name, value)) ==> exists|i: int|
            #[trigger] first_equals_at(h@, i) && name@ == h@.subrange(0, i) && value@ == h@.subrange(
                i + 1,
                h@.len() as int,
            ),
        r is None ==> forall|j: int| 0 <= j < h@.len() ==> h@[j] != '=',
{
    let n = h.unicode_len();
    let mut i: usize = 0;
    while i < n
        invariant
            n == h@.len(),
            i <= n,
            forall|j: int| 0 <= j < i ==> h@[j] != '=',
        decreases n - i,
    {
        if h.get_char(i) == '=' {
            let name = String::from_str(h.substring_char(0, i));
            let value = String::from_str(h.substring_char(i + 1, n));
            assert(first_equals_at(h@, i as int));
            return Some((name, value));
        }
        i = i + 1;
    }
    None
}

/// The kind of source an endpoint is read with.
#[derive(Debug, Clone, Copy, PartialEq, Eq, Structural)]
pub enum SourceKind {
    /// A WebSocket session (`ws` or `wss` endpoint).
    WebSocket,
    /// One streamed HTTP response split into records.
    Streaming,
    /// One request per interval, one record per response.
    Polling,
}

/// A setting that makes the connector unable to start.
#[derive(Debug, Clone, Copy, PartialEq, Eq, Structural)]
pub enum ConfigError {
    /// The endpoint is not an absolute URL.
    InvalidEndpoint,
}

/// The scheme of the URL `s`, lower case, or `None` when `s` is not an absolute URL.
pub uninterp spec fn url_scheme_of(s: Seq<char>) -> Option<Seq<char>>;

/// Relies on `url::Url::parse` and `Url::scheme`: the scheme of `s` when it parses as an
/// absolute URL.
#[verifier::external_body]
fn parse_scheme(s: &str) -> (r: Option<String>)
    ensures
        r matches Some(sc) ==> url_scheme_of(s@) == Some(sc@),
        r is None ==> url_scheme_of(s@) is None,
{
    url::Url::parse(s).ok().map(|u| u.scheme().to_string())
}

/// The source for an endpoint with URL scheme `scheme`: a WebSocket session for `ws` and
/// `wss`, else a streamed or polled HTTP request as `stream` says.
pub fn source_for_scheme(scheme: &str, stream: bool) -> (r: SourceKind)
    ensures
        r == if scheme@ == "ws"@ || scheme@ == "wss"@ {
            SourceKind::WebSocket
        } else if stream {
            SourceKind::Streaming
        } else {
            SourceKind::Polling
        },
{
    if str_eq(scheme, "ws") || str_eq(scheme, "wss") {
        SourceKind::WebSocket
    } else if stream {
        SourceKind::Streaming
    } else {
        SourceKind::Polling
    }
}

/// The source for `endpoint`: a WebSocket session for `ws`/`wss`, else a streamed or polled
/// HTTP request as `stream` says; an error when the endpoint does not parse.
pub fn select_source(endpoint: &str, stream: bool) -> (r: Result<SourceKind, ConfigError>)
    ensures
        url_scheme_of(endpoint@) is None ==> r == Err::<SourceKind, ConfigError>(
            ConfigError::InvalidEndpoint,
        ),
        url_scheme_of(endpoint@) matches Some(sc) ==> r == Ok::<SourceKind, ConfigError>(
            if sc == "ws"@ || sc == "wss"@ {
                SourceKind::WebSocket
            } else if stream {
                SourceKind::Streaming
            } else {
                SourceKind::Polling
            },
        ),
{
    match parse_scheme(endpoint) {
        None => Err(ConfigError::InvalidEndpoint),
        Some(scheme) => Ok(source_for_scheme(scheme.as_str(), stream)),
    }
}

} // verus!

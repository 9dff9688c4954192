//! Error types of the ingestor, and the classifier that tells a provider's
//! "log response too large" rejection of `eth_getLogs` apart from every other failure.

use vstd::prelude::*;

use crate::text::{ascii_lowercase, contains_chars, has_substring, lowercase_chars, chars_of};

verus! {

/// The standard library's I/O error, carried through unchanged.
#[verifier::external_type_specification]
#[verifier::external_body]
pub struct ExIoError(std::io::Error);

/// serde_json's error, carried through unchanged.
#[verifier::external_type_specification]
#[verifier::external_body]
pub struct ExJsonError(serde_json::Error);

/// A JSON-RPC error object returned by the node.
#[derive(Debug)]
pub struct ErrorPayload {
    pub code: i64,
    pub message: String,
    pub data: Option<String>,
}

/// An HTTP-level failure of the transport: status code and response body.
#[derive(Debug)]
pub struct HttpError {
    pub status: u16,
    pub body: String,
}

/// Failures of the transport underneath the JSON-RPC layer.
#[derive(Debug)]
pub enum TransportErrorKind {
    MissingBatchResponse(String),
    BackendGone,
    PubsubUnavailable,
    HttpError(HttpError),
    Custom(String),
}

/// A failed RPC call, as reported by the provider.
#[derive(Debug)]
pub enum RpcError {
    ErrorResp(ErrorPayload),
    NullResp,
    UnsupportedFeature(String),
    LocalUsageError(String),
    SerError(String),
    DeserError { err: String, text: String },
    Transport(TransportErrorKind),
}

/// The provider error carried by [`ChainError::Provider`].
pub type TransportError = RpcError;

/// Main error type of the ingestor.
#[derive(Debug)]
pub enum NoxError {
    Chain(ChainError),
    State(StateError),
    /// No persisted state and `initial_block == 0`.
    NoInitialBlock,
}

/// Chain/RPC related errors.
#[derive(Debug)]
pub enum ChainError {
    InvalidEndpoint(String),
    Provider(TransportError),
    MissingBlock(u64),
    MissingBlockReceipts(u64),
    MissingTransactionReceipt([u8; 32]),
    TransactionLogsTooLarge([u8; 32]),
    NoMatchingLogsInBlock(u64),
}

/// State persistence errors.
#[derive(Debug)]
pub enum StateError {
    Io(std::io::Error),
    Serialization(serde_json::Error),
    ChainIdMismatch { expected: u32, actual: u32 },
    Nats(NatsError),
}

/// NATS related errors.
#[derive(Debug)]
pub enum NatsError {
    Tls(String),
    Connection(String),
    Disconnected,
    Publish(String),
    StreamSetup(String),
    BufferFull { capacity: usize },
}

/// Number of plain substring markers of a "range/response too large" rejection.
pub const LOG_RANGE_MARKER_COUNT: usize = 21;

/// The lowercase substrings seen in real-world `eth_getLogs` "range/response too large"
/// rejections across RPC providers. Wording is not standardized, so they are matched
/// against a lowercased message rather than any error code.
pub open spec fn log_range_marker(i: int) -> Seq<char> {
    if i == 0 {
        "try with this block range"@
    } else if i == 1 {
        "block range is too wide"@
    } else if i == 2 {
        "this block range should work"@
    } else if i == 3 {
        "range too large"@
    } else if i == 4 {
        "exceeds the range"@
    } else if i == 5 {
        "max block range"@
    } else if i == 6 {
        "max range"@
    } else if i == 7 {
        "logs over more"@
    } else if i == 8 {
        "response size should not"@
    } else if i == 9 {
        "returned more than"@
    } else if i == 10 {
        "exceeds max results"@
    } else if i == 11 {
        "range is too large"@
    } else if i == 12 {
        "too large, max is"@
    } else if i == 13 {
        "response too large"@
    } else if i == 14 {
        "query exceeds limit"@
    } else if i == 15 {
        "limit the query to"@
    } else if i == 16 {
        "maximum block range"@
    } else if i == 17 {
        "range limit exceeded"@
    } else if i == 18 {
        "too many results"@
    } else if i == 19 {
        "try paginating"@
    } else {
        "eth_getlogs is limited"@
    }
}

fn log_range_marker_at(i: usize) -> (m: &'static str)
    requires
        i < LOG_RANGE_MARKER_COUNT,
    ensures
        m@ == log_range_marker(i as int),
{
    match i {
        0 => "try with this block range",
        1 => "block range is too wide",
        2 => "this block range should work",
        3 => "range too large",
        4 => "exceeds the range",
        5 => "max block range",
        6 => "max range",
        7 => "logs over more",
        8 => "response size should not",
        9 => "returned more than",
        10 => "exceeds max results",
        11 => "range is too large",
        12 => "too large, max is",
        13 => "response too large",
        14 => "query exceeds limit",
        15 => "limit the query to",
        16 => "maximum block range",
        17 => "range limit exceeded",
        18 => "too many results",
        19 => "try paginating",
        _ => "eth_getlogs is limited",
    }
}

/// A message names a too-large log response: after ASCII lower-casing it holds one of
/// the markers, or holds both "maximum" and "blocks distance" ("maximum" alone is far
/// too generic to count).
pub open spec fn has_log_range_marker(text: Seq<char>) -> bool {
    let lower = ascii_lowercase(text);
    ||| exists|i: int|
        0 <= i < LOG_RANGE_MARKER_COUNT && has_substring(lower, #[trigger] log_range_marker(i))
    ||| has_substring(lower, "maximum"@) && has_substring(lower, "blocks distance"@)
}

/// Whether `text` holds one of the "range/response too large" markers
/// (see [`has_log_range_marker`]).
pub fn contains_log_range_marker(text: &str) -> (r: bool)
    ensures
        r == has_log_range_marker(text@),
{
    let lower = lowercase_chars(text);
    let mut i: usize = 0;
    while i < LOG_RANGE_MARKER_COUNT
        invariant
            lower@ == ascii_lowercase(text@),
            i <= LOG_RANGE_MARKER_COUNT,
            forall|k: int| 0 <= k < i ==> !has_substring(lower@, #[trigger] log_range_marker(k)),
        decreases LOG_RANGE_MARKER_COUNT - i,
    {
        let marker = chars_of(log_range_marker_at(i));
        if contains_chars(&lower, &marker) {
            return true;
        }
        i = i + 1;
    }
    let maximum = chars_of("maximum");
    let distance = chars_of("blocks distance");
    contains_chars(&lower, &maximum) && contains_chars(&lower, &distance)
}

/// The classification made by [`ChainError::is_log_response_too_large`].
pub open spec fn log_response_too_large(e: ChainError) -> bool {
    match e {
        ChainError::Provider(RpcError::ErrorResp(payload)) => has_log_range_marker(payload.message@),
        ChainError::Provider(RpcError::Transport(TransportErrorKind::HttpError(http))) => {
            http.status != 429 && (http.status == 413 || has_log_range_marker(http.body@))
        },
        _ => false,
    }
}

/// The classification of a JSON-RPC error response depends on its message alone: two
/// responses with the same message are classified alike, whatever their error codes and
/// data.
pub proof fn lemma_error_code_plays_no_part(p1: ErrorPayload, p2: ErrorPayload)
    requires
        p1.message@ == p2.message@,
    ensures
        log_response_too_large(ChainError::Provider(RpcError::ErrorResp(p1))) == log_response_too_large(
            ChainError::Provider(RpcError::ErrorResp(p2)),
        ),
{
}

/// Whether a lowercased message holds one of the substrings that providers use to say that
/// a log query's range or response is too large.
pub open spec fn names_too_large_response(lower: Seq<char>) -> bool {
    ||| has_substring(lower, "try with this block range"@) ||| has_substring(lower, "block range is too wide"@) ||| has_substring(lower, "this block range should work"@) ||| has_substring(lower, "range too large"@) ||| has_substring(lower, "exceeds the range"@) ||| has_substring(lower, "max block range"@) ||| has_substring(lower, "max range"@) ||| has_substring(lower, "logs over more"@) ||| has_substring(lower, "response size should not"@) ||| has_substring(lower, "returned more than"@) ||| has_substring(lower, "exceeds max results"@) ||| has_substring(lower, "range is too large"@) ||| has_substring(lower, "too large, max is"@) ||| has_substring(lower, "response too large"@) ||| has_substring(lower, "query exceeds limit"@) ||| has_substring(lower, "limit the query to"@) ||| has_substring(lower, "maximum block range"@) ||| has_substring(lower, "range limit exceeded"@) ||| has_substring(lower, "too many results"@) ||| has_substring(lower, "try paginating"@) ||| has_substring(lower, "eth_getlogs is limited"@)
    ||| has_substring(lower, "maximum"@) && has_substring(lower, "blocks distance"@)
}

/// A JSON-RPC error response is a too-large log response exactly when its message, ASCII
/// lowercased, holds one of the providers' wordings: "try with this block range",
/// "this block range should work", "returned more than", "too many results", and the
/// others of [`names_too_large_response`], or both "maximum" and "blocks distance".
pub proof fn lemma_error_response_wordings(p: ErrorPayload)
    ensures
        log_response_too_large(ChainError::Provider(RpcError::ErrorResp(p))) == names_too_large_response(
            ascii_lowercase(p.message@),
        ),
{
    lemma_marker_wordings(p.message@);
}

/// An HTTP error other than 429 and 413 is a too-large log response exactly when its body,
/// ASCII lowercased, holds one of the providers' wordings (see
/// [`names_too_large_response`]).
pub proof fn lemma_http_body_wordings(http: HttpError)
    requires
        http.status != 429,
        http.status != 413,
    ensures
        log_response_too_large(ChainError::Provider(RpcError::Transport(TransportErrorKind::HttpError(http))))
            == names_too_large_response(ascii_lowercase(http.body@)),
{
    lemma_marker_wordings(http.body@);
}

proof fn lemma_marker_wordings(text: Seq<char>)
    ensures
        has_log_range_marker(text) == names_too_large_response(ascii_lowercase(text)),
{
    let lower = ascii_lowercase(text);
    if names_too_large_response(lower) {
        if has_substring(lower, "try with this block range"@) {
            assert(log_range_marker(0) == "try with this block range"@);
        }
        if has_substring(lower, "block range is too wide"@) {
            assert(log_range_marker(1) == "block range is too wide"@);
        }
        if has_substring(lower, "this block range should work"@) {
            assert(log_range_marker(2) == "this block range should work"@);
        }
        if has_substring(lower, "range too large"@) {
            assert(log_range_marker(3) == "range too large"@);
        }
        if has_substring(lower, "exceeds the range"@) {
            assert(log_range_marker(4) == "exceeds the range"@);
        }
        if has_substring(lower, "max block range"@) {
            assert(log_range_marker(5) == "max block range"@);
        }
        if has_substring(lower, "max range"@) {
            assert(log_range_marker(6) == "max range"@);
        }
        if has_substring(lower, "logs over more"@) {
            assert(log_range_marker(7) == "logs over more"@);
        }
        if has_substring(lower, "response size should not"@) {
            assert(log_range_marker(8) == "response size should not"@);
        }
        if has_substring(lower, "returned more than"@) {
            assert(log_range_marker(9) == "returned more than"@);
        }
        if has_substring(lower, "exceeds max results"@) {
            assert(log_range_marker(10) == "exceeds max results"@);
        }
        if has_substring(lower, "range is too large"@) {
            assert(log_range_marker(11) == "range is too large"@);
        }
        if has_substring(lower, "too large, max is"@) {
            assert(log_range_marker(12) == "too large, max is"@);
        }
        if has_substring(lower, "response too large"@) {
            assert(log_range_marker(13) == "response too large"@);
        }
        if has_substring(lower, "query exceeds limit"@) {
            assert(log_range_marker(14) == "query exceeds limit"@);
        }
        if has_substring(lower, "limit the query to"@) {
            assert(log_range_marker(15) == "limit the query to"@);
        }
        if has_substring(lower, "maximum block range"@) {
            assert(log_range_marker(16) == "maximum block range"@);
        }
        if has_substring(lower, "range limit exceeded"@) {
            assert(log_range_marker(17) == "range limit exceeded"@);
        }
        if has_substring(lower, "too many results"@) {
            assert(log_range_marker(18) == "too many results"@);
        }
        if has_substring(lower, "try paginating"@) {
            assert(log_range_marker(19) == "try paginating"@);
        }
        if has_substring(lower, "eth_getlogs is limited"@) {
            assert(log_range_marker(20) == "eth_getlogs is limited"@);
        }
    }
    if exists|i: int| 0 <= i < LOG_RANGE_MARKER_COUNT && has_substring(lower, #[trigger] log_range_marker(i)) {
        let i = choose|i: int| 0 <= i < LOG_RANGE_MARKER_COUNT && has_substring(lower, #[trigger] log_range_marker(i));
        if i == 0 {
            assert(has_substring(lower, "try with this block range"@));
        }
        if i == 1 {
            assert(has_substring(lower, "block range is too wide"@));
        }
        if i == 2 {
            assert(has_substring(lower, "this block range should work"@));
        }
        if i == 3 {
            assert(has_substring(lower, "range too large"@));
        }
        if i == 4 {
            assert(has_substring(lower, "exceeds the range"@));
        }
        if i == 5 {
            assert(has_substring(lower, "max block range"@));
        }
        if i == 6 {
            assert(has_substring(lower, "max range"@));
        }
        if i == 7 {
            assert(has_substring(lower, "logs over more"@));
        }
        if i == 8 {
            assert(has_substring(lower, "response size should not"@));
        }
        if i == 9 {
            assert(has_substring(lower, "returned more than"@));
        }
        if i == 10 {
            assert(has_substring(lower, "exceeds max results"@));
        }
        if i == 11 {
            assert(has_substring(lower, "range is too large"@));
        }
        if i == 12 {
            assert(has_substring(lower, "too large, max is"@));
        }
        if i == 13 {
            assert(has_substring(lower, "response too large"@));
        }
        if i == 14 {
            assert(has_substring(lower, "query exceeds limit"@));
        }
        if i == 15 {
            assert(has_substring(lower, "limit the query to"@));
        }
        if i == 16 {
            assert(has_substring(lower, "maximum block range"@));
        }
        if i == 17 {
            assert(has_substring(lower, "range limit exceeded"@));
        }
        if i == 18 {
            assert(has_substring(lower, "too many results"@));
        }
        if i == 19 {
            assert(has_substring(lower, "try paginating"@));
        }
        if i == 20 {
            assert(has_substring(lower, "eth_getlogs is limited"@));
        }
    }
}

/// An HTTP 429 is a rate limit, never a too-large log response, whatever its body says.
pub proof fn lemma_rate_limit_never_too_large(body: String)
    ensures
        !log_response_too_large(
            ChainError::Provider(RpcError::Transport(TransportErrorKind::HttpError(HttpError { status: 429, body }))),
        ),
{
}

/// An HTTP 413 is always a too-large log response, whatever its body says.
pub proof fn lemma_payload_too_large_always(body: String)
    ensures
        log_response_too_large(
            ChainError::Provider(RpcError::Transport(TransportErrorKind::HttpError(HttpError { status: 413, body }))),
        ),
{
}

/// Only a JSON-RPC error response or an HTTP error of the provider can be a too-large
/// log response; the error code of a JSON-RPC error plays no part.
pub proof fn lemma_too_large_only_from_provider(e: ChainError)
    requires
        log_response_too_large(e),
    ensures
        e matches ChainError::Provider(p) && (p is ErrorResp || p matches RpcError::Transport(
            TransportErrorKind::HttpError(_),
        )),
{
}

/// The marker check ignores ASCII case: a message and its lowercase form are classified
/// alike.
pub proof fn lemma_marker_check_ignores_case(text: Seq<char>)
    ensures
        has_log_range_marker(text) == has_log_range_marker(ascii_lowercase(text)),
{
    assert(ascii_lowercase(ascii_lowercase(text)) =~= ascii_lowercase(text));
}

/// The marker check ignores ASCII case: two messages that differ only in the case of
/// their ASCII letters (such as an uppercase and a lowercase form) are classified alike.
pub proof fn lemma_marker_check_same_letters(a: Seq<char>, b: Seq<char>)
    requires
        ascii_lowercase(a) == ascii_lowercase(b),
    ensures
        has_log_range_marker(a) == has_log_range_marker(b),
{
}

/// A substring keeps its place when text is added before and after it.
proof fn lemma_substring_in_context(pre: Seq<char>, hay: Seq<char>, post: Seq<char>, needle: Seq<char>)
    requires
        has_substring(hay, needle),
    ensures
        has_substring(pre + hay + post, needle),
{
    let i = choose|i: int|
        0 <= i && i + needle.len() <= hay.len() && #[trigger] hay.subrange(i, i + needle.len()) == needle;
    let whole = pre + hay + post;
    let j = i + pre.len();
    assert(whole.subrange(j, j + needle.len()) =~= hay.subrange(i, i + needle.len()));
}

/// A message that names a too-large log response still does with any text around it.
pub proof fn lemma_marker_survives_context(pre: Seq<char>, text: Seq<char>, post: Seq<char>)
    requires
        has_log_range_marker(text),
    ensures
        has_log_range_marker(pre + text + post),
{
    let lower = ascii_lowercase(text);
    assert(ascii_lowercase(pre + text + post) =~= ascii_lowercase(pre) + lower + ascii_lowercase(post));
    if exists|i: int| 0 <= i < LOG_RANGE_MARKER_COUNT && has_substring(lower, #[trigger] log_range_marker(i)) {
        let i = choose|i: int| 0 <= i < LOG_RANGE_MARKER_COUNT && has_substring(lower, #[trigger] log_range_marker(i));
        lemma_substring_in_context(ascii_lowercase(pre), lower, ascii_lowercase(post), log_range_marker(i));
    } else {
        lemma_substring_in_context(ascii_lowercase(pre), lower, ascii_lowercase(post), "maximum"@);
        lemma_substring_in_context(ascii_lowercase(pre), lower, ascii_lowercase(post), "blocks distance"@);
    }
}

impl ChainError {
    /// True if the provider rejected `eth_getLogs` because the requested range would return
    /// too many logs, rather than a transient or network failure. It never keys off JSON-RPC
    /// error codes (providers reuse them for unrelated rejections); an HTTP 429 is a rate
    /// limit and never counts, an HTTP 413 always does.
    pub fn is_log_response_too_large(&self) -> (r: bool)
        ensures
            r == log_response_too_large(*self),
    {
        match self {
            ChainError::Provider(RpcError::ErrorResp(payload)) => contains_log_range_marker(
                payload.message.as_str(),
            ),
            ChainError::Provider(RpcError::Transport(TransportErrorKind::HttpError(http))) => {
                if http.status == 429 {
                    return false;
                }
                http.status == 413 || contains_log_range_marker(http.body.as_str())
            },
            _ => false,
        }
    }
}

} // verus!

use nox_ingestor::error::{ChainError, ErrorPayload, HttpError, RpcError, TransportErrorKind};

fn error_resp(code: i64, message: &str) -> ChainError {
    ChainError::Provider(RpcError::ErrorResp(ErrorPayload {
        code,
        message: message.to_string(),
        data: None,
    }))
}

fn http_error(status: u16, body: &str) -> ChainError {
    ChainError::Provider(RpcError::Transport(TransportErrorKind::HttpError(HttpError {
        status,
        body: body.to_string(),
    })))
}

#[test]
fn detects_infura_style_too_many_results() {
    let err = error_resp(
        -32005,
        "query returned more than 10000 results. Try with this block range [0x1, 0x100].",
    );
    assert!(err.is_log_response_too_large());
}

#[test]
fn does_not_flag_infura_rate_limit_sharing_the_same_error_code() {
    let err = error_resp(-32005, "exceeded project rate limit");
    assert!(!err.is_log_response_too_large());
}

#[test]
fn detects_alchemy_style_log_response_size_exceeded() {
    let err = error_resp(
        -32000,
        "Log response size exceeded. this block range should work: [0x1, 0x64]",
    );
    assert!(err.is_log_response_too_large());
}

#[test]
fn detects_http_413() {
    assert!(http_error(413, "").is_log_response_too_large());
}

#[test]
fn detects_marker_in_http_body_on_non_413_status() {
    assert!(http_error(400, "block range is too large").is_log_response_too_large());
}

#[test]
fn does_not_flag_unrelated_errors() {
    assert!(!error_resp(-32601, "method not found").is_log_response_too_large());
    assert!(
        !ChainError::Provider(RpcError::Transport(TransportErrorKind::BackendGone))
            .is_log_response_too_large()
    );
}

#[test]
fn detects_compound_maximum_blocks_distance_marker() {
    let err = error_resp(-32000, "the maximum blocks distance allowed is 5000");
    assert!(err.is_log_response_too_large());
}

#[test]
fn does_not_flag_maximum_or_blocks_distance_alone() {
    assert!(!error_resp(-32000, "maximum fee per gas exceeded").is_log_response_too_large());
    assert!(!error_resp(-32000, "blocks distance mismatch").is_log_response_too_large());
}

#[test]
fn http_429_is_never_treated_as_too_large_even_with_a_marker_in_the_body() {
    assert!(!http_error(429, "too many results, please slow down").is_log_response_too_large());
}

#[test]
fn marker_match_ignores_ascii_case() {
    assert!(nox_ingestor::error::contains_log_range_marker("RESPONSE TOO LARGE"));
    assert!(nox_ingestor::error::contains_log_range_marker("Try Paginating the request"));
    assert!(!nox_ingestor::error::contains_log_range_marker(""));
}

#[test]
fn every_marker_is_recognised() {
    let markers = [
        "try with this block range",
        "block range is too wide",
        "this block range should work",
        "range too large",
        "exceeds the range",
        "max block range",
        "max range",
        "logs over more",
        "response size should not",
        "returned more than",
        "exceeds max results",
        "range is too large",
        "too large, max is",
        "response too large",
        "query exceeds limit",
        "limit the query to",
        "maximum block range",
        "range limit exceeded",
        "too many results",
        "try paginating",
        "eth_getlogs is limited",
    ];
    for m in markers {
        assert!(error_resp(-32000, &format!("prefix {m} suffix")).is_log_response_too_large(), "{m}");
    }
}

#[test]
fn http_body_marker_is_ignored_only_on_429() {
    assert!(http_error(500, "Too Many Results").is_log_response_too_large());
    assert!(!http_error(500, "internal error").is_log_response_too_large());
}

#[test]
fn other_chain_errors_are_never_too_large() {
    assert!(!ChainError::MissingBlock(5).is_log_response_too_large());
    assert!(!ChainError::InvalidEndpoint("range too large".to_string()).is_log_response_too_large());
    assert!(!ChainError::Provider(RpcError::NullResp).is_log_response_too_large());
}

#[test]
fn marker_check_ignores_case_and_surrounding_text() {
    let contains_log_range_marker = nox_ingestor::error::contains_log_range_marker;
    assert!(contains_log_range_marker("query RETURNED More Than 10000 results"));
    assert!(contains_log_range_marker("error: Returned More Than 10000 results, narrow the range"));
    assert!(contains_log_range_marker("MAXIMUM allowed is 5000 BLOCKS DISTANCE"));
    assert!(!contains_log_range_marker("MAXIMUM allowed"));
}

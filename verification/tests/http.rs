use swegrep::error::FastContextError;
use swegrep::http::{
    classify_reqwest_error, classify_status, decode_unary_response, needs_invalid_certs,
    next_attempt, streaming_headers, unary_headers, unary_payload, Delivery, DeliveryStep, Retry,
};
use swegrep::json::Json;
use swegrep::protobuf::{gzip_compress, gzip_decompress};

#[test]
fn decode_unary_response_decompresses_gzip() {
    let data = gzip_compress(b"proto-response").unwrap();
    assert_eq!(data[..2], [0x1f, 0x8b]);
    assert_eq!(decode_unary_response(&data, Some("gzip")), b"proto-response");
    assert_eq!(decode_unary_response(&data, None), b"proto-response");
}

#[test]
fn packed_bodies_read_back_whatever_their_encoding_is_said_to_be() {
    for body in [&b""[..], &b"proto-request"[..], &b"\x1f\x8b"[..]] {
        let packed = unary_payload(body, true);
        assert_eq!(decode_unary_response(&packed, None), body);
        assert_eq!(decode_unary_response(&packed, Some("gzip")), body);
        assert_eq!(decode_unary_response(&packed, Some("identity")), body);
    }
}

#[test]
fn replies_that_cannot_be_unpacked_stay_as_they_are() {
    assert_eq!(decode_unary_response(b"plain", Some("GZIP")), b"plain");
    assert_eq!(decode_unary_response(b"plain", Some("identity")), b"plain");
    assert_eq!(decode_unary_response(b"\x1f\x8bno", None), b"\x1f\x8bno");
    assert_eq!(decode_unary_response(b"\x1f", None), b"\x1f");
}

#[test]
fn statuses_have_their_codes() {
    for (status, code) in [
        (413, "PAYLOAD_TOO_LARGE"),
        (429, "RATE_LIMITED"),
        (401, "AUTH_ERROR"),
        (403, "AUTH_ERROR"),
        (404, "SERVER_ERROR"),
        (500, "SERVER_ERROR"),
    ] {
        let error = classify_status(status, "the body");
        assert_eq!(error.code, code);
        assert_eq!(error.message, format!("HTTP {status}"));
        assert_eq!(error.details.text_at("body"), Some("the body"));
        assert_eq!(error.details.get("status").unwrap().as_u64(), Some(status as u64));
    }
}

#[test]
fn errors_without_a_reply_are_timeouts_or_network_errors() {
    assert_eq!(classify_reqwest_error("gone", false).code, "NETWORK_ERROR");
    assert_eq!(classify_reqwest_error("gone", true).code, "TIMEOUT");
    assert_eq!(classify_reqwest_error("Operation TimeOut", false).code, "TIMEOUT");
    assert_eq!(classify_reqwest_error("gone", false).message, "gone");
}

fn network(message: &str) -> FastContextError {
    FastContextError::new(message, "NETWORK_ERROR", Json::Null)
}

#[test]
fn certificate_errors_are_tried_again_without_certificates() {
    assert!(needs_invalid_certs(&network("invalid CERTificate")));
    assert!(!needs_invalid_certs(&network("refused")));
    assert!(!needs_invalid_certs(&FastContextError::new("cert", "TIMEOUT", Json::Null)));
}

#[test]
fn refused_requests_are_not_sent_again() {
    assert_eq!(next_attempt(0, 2, &classify_status(401, "")), Retry::GiveUp);
    assert_eq!(next_attempt(0, 2, &classify_status(404, "")), Retry::GiveUp);
    assert_eq!(next_attempt(0, 2, &classify_status(429, "")), Retry::After(1));
    assert_eq!(next_attempt(1, 2, &classify_status(500, "")), Retry::After(2));
    assert_eq!(next_attempt(2, 2, &classify_status(500, "")), Retry::GiveUp);
    assert_eq!(next_attempt(0, 2, &network("gone")), Retry::After(1));
}

#[test]
fn delivery_goes_on_until_a_reply_or_the_last_attempt() {
    let mut delivery = Delivery::new(1);
    match delivery.on_reply(Err(network("bad cert"))) {
        DeliveryStep::Send => assert!(delivery.allow_invalid_certs),
        other => panic!("expected another send, got {other:?}"),
    }
    match delivery.on_reply(Err(network("bad cert"))) {
        DeliveryStep::SendAfter(1) => assert!(!delivery.allow_invalid_certs),
        other => panic!("expected a wait, got {other:?}"),
    }
    match delivery.on_reply(Err(classify_status(503, "busy"))) {
        DeliveryStep::Done(Err(error)) => assert_eq!(error.message, "HTTP 503"),
        other => panic!("expected the end, got {other:?}"),
    }
    match Delivery::new(0).on_reply(Ok(vec![1, 2])) {
        DeliveryStep::Done(Ok(data)) => assert_eq!(data, vec![1, 2]),
        other => panic!("expected the data, got {other:?}"),
    }
}

#[test]
fn headers_name_the_protocol() {
    let headers = unary_headers(true);
    assert_eq!(headers.len(), 5);
    assert_eq!(headers[4], ("Content-Encoding".to_string(), "gzip".to_string()));
    assert_eq!(unary_headers(false).len(), 4);
    let headers = streaming_headers(30_000, "1.2", "t", "s");
    assert_eq!(headers[4], ("Connect-Timeout-Ms".to_string(), "30000".to_string()));
    assert_eq!(headers[8], ("Sentry-Trace".to_string(), "t-s-0".to_string()));
    assert_eq!(
        headers[7].1,
        "sentry-release=language-server-windsurf@1.2,sentry-environment=stable,sentry-sampled=false,sentry-trace_id=t,sentry-public_key=b813f73488da69eedec534dba1029111"
    );
}

#[test]
fn payloads_are_packed_where_wanted() {
    assert_eq!(unary_payload(b"abc", false), b"abc");
    let packed = unary_payload(b"abc", true);
    assert_ne!(packed, b"abc");
    assert_eq!(gzip_decompress(&packed).unwrap(), b"abc");
}

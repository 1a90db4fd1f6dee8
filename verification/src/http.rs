//! Requests over HTTP: what they carry, what is made of their replies, and
//! when they are sent again.
use crate::bytes;
use crate::error::{FastContextError, Fault};
use crate::json::{self, Json, Tree};
use crate::protobuf;
use crate::text;
use vstd::prelude::*;

verus! {

/// The code for a status that is no success.
pub open spec fn status_code(status: u16) -> Seq<char> {
    if status == 413 {
        "PAYLOAD_TOO_LARGE"@
    } else if status == 429 {
        "RATE_LIMITED"@
    } else if status == 401 || status == 403 {
        "AUTH_ERROR"@
    } else {
        "SERVER_ERROR"@
    }
}

/// The error for a status that is no success.
pub open spec fn status_fault(status: u16, body: Seq<char>) -> Fault {
    Fault {
        message: "HTTP "@ + text::decimal(status as nat),
        code: status_code(status),
        details: Tree::Object(
            json::object_of(
                seq![("status"@, Tree::Integer(status as int)), ("body"@, Tree::Text(body))],
            ),
        ),
    }
}

/// The error for a status that is no success.
pub fn classify_status(status: u16, body: &str) -> (r: FastContextError)
    ensures
        r@ == status_fault(status, body@),
        json::proper(r@.details),
{
    let code = if status == 413 {
        "PAYLOAD_TOO_LARGE"
    } else if status == 429 {
        "RATE_LIMITED"
    } else if status == 401 || status == 403 {
        "AUTH_ERROR"
    } else {
        "SERVER_ERROR"
    };
    let digits = text::decimal_u64(status as u64);
    let mut message = text::copied("HTTP ");
    message.append(&digits);
    let mut pairs: Vec<(String, Json)> = Vec::new();
    pairs.push(json::pair("status", Json::Integer(status as i128)));
    pairs.push(json::pair("body", json::text_value(body)));
    assert(json::entry_trees(pairs@) =~= seq![
        ("status"@, Tree::Integer(status as int)),
        ("body"@, Tree::Text(body@)),
    ]);
    FastContextError::new(&message, code, json::object(pairs))
}

/// The error for a request that got no reply.
pub open spec fn transport_fault(message: Seq<char>, timed_out: bool) -> Fault {
    Fault {
        message,
        code: if timed_out || text::contains(text::lowercase(message), "timeout"@) {
            "TIMEOUT"@
        } else {
            "NETWORK_ERROR"@
        },
        details: Tree::Null,
    }
}

/// The error for a request that got no reply, as its message and its kind tell.
pub fn classify_reqwest_error(message: &str, timed_out: bool) -> (r: FastContextError)
    ensures
        r@ == transport_fault(message@, timed_out),
{
    let lower = text::to_lowercase(message);
    let code = if timed_out || text::contains_text(&lower, "timeout") {
        "TIMEOUT"
    } else {
        "NETWORK_ERROR"
    };
    FastContextError::new(message, code, Json::Null)
}

/// Whether a request failed over a certificate.
pub open spec fn is_certificate_fault(fault: Fault) -> bool {
    fault.code == "NETWORK_ERROR"@ && text::contains(text::lowercase(fault.message), "cert"@)
}

/// Whether a request failed over a certificate. It is then sent once more
/// without a look at certificates.
pub fn needs_invalid_certs(error: &FastContextError) -> (r: bool)
    ensures
        r == is_certificate_fault(error@),
{
    let lower = text::to_lowercase(&error.message);
    text::same(&error.code, "NETWORK_ERROR") && text::contains_text(&lower, "cert")
}

/// Whether the body of a reply is unpacked.
pub open spec fn is_packed(data: Seq<u8>, encoding: Option<Seq<char>>) -> bool {
    protobuf::has_gzip_mark(data) || match encoding {
        Some(encoding) => text::contains(text::lowercase(encoding), "gzip"@),
        None => false,
    }
}

/// The body of a reply, unpacked where it is a gzip stream.
pub open spec fn plain_body(data: Seq<u8>, encoding: Option<Seq<char>>) -> Seq<u8> {
    if is_packed(data, encoding) {
        match protobuf::gunzip_output(data) {
            Some(plain) => plain,
            None => data,
        }
    } else {
        data
    }
}

/// A body that was packed comes back as it was, whatever its encoding is said to be.
pub proof fn law_packed_body_reads_back(
    packed: Seq<u8>,
    body: Seq<u8>,
    encoding: Option<Seq<char>>,
)
    requires
        protobuf::has_gzip_mark(packed),
        protobuf::gunzip_output(packed) == Some(body),
    ensures
        plain_body(packed, encoding) == body,
{
}

/// The body of a reply, unpacked where it is a gzip stream: where its encoding
/// says so or it starts as one. What cannot be unpacked stays as it is.
pub fn decode_unary_response(data: &[u8], content_encoding: Option<&str>) -> (r: Vec<u8>)
    ensures
        r@ == plain_body(data@, text::opt_str_view(content_encoding)),
{
    let said = match content_encoding {
        Some(encoding) => {
            let lower = text::to_lowercase(encoding);
            text::contains_text(&lower, "gzip")
        },
        None => false,
    };
    if said || (data.len() >= 2 && data[0] == 0x1f && data[1] == 0x8b) {
        return match protobuf::gzip_decompress(data) {
            Ok(plain) => plain,
            Err(_) => bytes::copied(data),
        };
    }
    bytes::copied(data)
}

/// What headers say.
pub open spec fn headers_view(headers: Seq<(String, String)>) -> Seq<(Seq<char>, Seq<char>)> {
    Seq::new(headers.len(), |i: int| (headers[i].0@, headers[i].1@))
}

/// A header.
fn header(name: &str, value: &str) -> (r: (String, String))
    ensures
        r.0@ == name@,
        r.1@ == value@,
{
    (text::copied(name), text::copied(value))
}

/// The headers of a request with one reply.
pub open spec fn unary_header_list(compress: bool) -> Seq<(Seq<char>, Seq<char>)> {
    let always = seq![
        ("Content-Type"@, "application/proto"@),
        ("Connect-Protocol-Version"@, "1"@),
        ("User-Agent"@, "connect-go/1.18.1 (go1.25.5)"@),
        ("Accept-Encoding"@, "gzip"@),
    ];
    if compress {
        always.push(("Content-Encoding"@, "gzip"@))
    } else {
        always
    }
}

/// The headers of a request with one reply.
pub fn unary_headers(compress: bool) -> (r: Vec<(String, String)>)
    ensures
        headers_view(r@) == unary_header_list(compress),
{
    let mut out: Vec<(String, String)> = Vec::new();
    out.push(header("Content-Type", "application/proto"));
    out.push(header("Connect-Protocol-Version", "1"));
    out.push(header("User-Agent", "connect-go/1.18.1 (go1.25.5)"));
    out.push(header("Accept-Encoding", "gzip"));
    if compress {
        out.push(header("Content-Encoding", "gzip"));
    }
    assert(headers_view(out@) =~= unary_header_list(compress));
    out
}

/// The body of a request with one reply.
pub open spec fn unary_body(body: Seq<u8>, compress: bool) -> Seq<u8> {
    if compress {
        protobuf::gzip_output(body)
    } else {
        body
    }
}

/// The body of a request with one reply, packed where it is to be. A packed one
/// can be unpacked, and is read back as the body of a reply is.
pub fn unary_payload(body: &[u8], compress: bool) -> (r: Vec<u8>)
    ensures
        r@ == unary_body(body@, compress),
        compress ==> protobuf::gunzip_output(r@) == Some(body@),
        compress ==> forall|encoding: Option<Seq<char>>|
            #[trigger] plain_body(r@, encoding) == body@,
{
    if compress {
        match protobuf::gzip_compress(body) {
            Ok(packed) => packed,
            Err(_) => bytes::copied(body),
        }
    } else {
        bytes::copied(body)
    }
}

/// The headers of a request whose reply comes in frames.
pub open spec fn streaming_header_list(
    timeout_ms: nat,
    ls_version: Seq<char>,
    trace_id: Seq<char>,
    span_id: Seq<char>,
) -> Seq<(Seq<char>, Seq<char>)> {
    seq![
        ("Content-Type"@, "application/connect+proto"@),
        ("Connect-Protocol-Version"@, "1"@),
        ("Connect-Accept-Encoding"@, "gzip"@),
        ("Connect-Content-Encoding"@, "gzip"@),
        ("Connect-Timeout-Ms"@, text::decimal(timeout_ms)),
        ("User-Agent"@, "connect-go/1.18.1 (go1.25.5)"@),
        ("Accept-Encoding"@, "identity"@),
        (
            "Baggage"@,
            "sentry-release=language-server-windsurf@"@ + ls_version
                + ",sentry-environment=stable,sentry-sampled=false,sentry-trace_id="@ + trace_id
                + ",sentry-public_key=b813f73488da69eedec534dba1029111"@,
        ),
        ("Sentry-Trace"@, trace_id + "-"@ + span_id + "-0"@),
    ]
}

/// The headers of a request whose reply comes in frames, with the names that
/// its trace and its span are given.
pub fn streaming_headers(timeout_ms: u64, ls_version: &str, trace_id: &str, span_id: &str) -> (r: Vec<
    (String, String),
>)
    ensures
        headers_view(r@) == streaming_header_list(
            timeout_ms as nat,
            ls_version@,
            trace_id@,
            span_id@,
        ),
{
    let digits = text::decimal_u64(timeout_ms);
    let mut baggage = text::copied("sentry-release=language-server-windsurf@");
    baggage.append(ls_version);
    baggage.append(",sentry-environment=stable,sentry-sampled=false,sentry-trace_id=");
    baggage.append(trace_id);
    baggage.append(",sentry-public_key=b813f73488da69eedec534dba1029111");
    let mut trace = text::copied(trace_id);
    trace.append("-");
    trace.append(span_id);
    trace.append("-0");
    let mut out: Vec<(String, String)> = Vec::new();
    out.push(header("Content-Type", "application/connect+proto"));
    out.push(header("Connect-Protocol-Version", "1"));
    out.push(header("Connect-Accept-Encoding", "gzip"));
    out.push(header("Connect-Content-Encoding", "gzip"));
    out.push(header("Connect-Timeout-Ms", &digits));
    out.push(header("User-Agent", "connect-go/1.18.1 (go1.25.5)"));
    out.push(header("Accept-Encoding", "identity"));
    out.push(header("Baggage", &baggage));
    out.push(header("Sentry-Trace", &trace));
    assert(headers_view(out@) =~= streaming_header_list(
        timeout_ms as nat,
        ls_version@,
        trace_id@,
        span_id@,
    ));
    out
}

/// What is done after a request that failed: to give up, or to wait for some
/// seconds and send it again.
#[derive(Debug, Clone, Copy, PartialEq, Eq, Structural)]
pub enum Retry {
    GiveUp,
    After(u64),
}

/// Whether an error is the client's own: it stays however often the request is
/// sent. Too many requests are not.
pub open spec fn is_client_fault(fault: Fault) -> bool {
    fault.code == "AUTH_ERROR"@ || match fault.details.get("status"@) {
        Some(status) => match status.as_u64() {
            Some(n) => 400 <= n < 500 && n != 429,
            None => false,
        },
        None => false,
    }
}

/// What is done after the given attempt, counted from zero, has failed.
pub open spec fn retry_after(attempt: u32, max_retries: u32, fault: Fault) -> Retry {
    if is_client_fault(fault) || attempt >= max_retries {
        Retry::GiveUp
    } else {
        Retry::After((attempt + 1) as u64)
    }
}

/// What is done after the given attempt, counted from zero, has failed.
pub fn next_attempt(attempt: u32, max_retries: u32, error: &FastContextError) -> (r: Retry)
    ensures
        r == retry_after(attempt, max_retries, error@),
{
    if text::same(&error.code, "AUTH_ERROR") {
        return Retry::GiveUp;
    }
    let refused = match error.details.get("status") {
        Some(status) => match status.as_u64() {
            Some(n) => 400 <= n && n < 500 && n != 429,
            None => false,
        },
        None => false,
    };
    if refused || attempt >= max_retries {
        Retry::GiveUp
    } else {
        Retry::After(attempt as u64 + 1)
    }
}

/// A request is refused for good by every status of the client's own but that
/// for too many requests, and sent again after any other as long as attempts are
/// left.
pub proof fn law_refused_requests_are_not_sent_again(
    status: u16,
    body: Seq<char>,
    attempt: u32,
    max_retries: u32,
)
    ensures
        retry_after(attempt, max_retries, status_fault(status, body)) == (if (400 <= status < 500
            && status != 429) || attempt >= max_retries {
            Retry::GiveUp
        } else {
            Retry::After((attempt + 1) as u64)
        }),
{
    let fault = status_fault(status, body);
    let one = seq![("status"@, Tree::Integer(status as int))];
    let pairs = seq![("status"@, Tree::Integer(status as int)), ("body"@, Tree::Text(body))];
    reveal_strlit("status");
    reveal_strlit("body");
    reveal_strlit("AUTH_ERROR");
    reveal_strlit("PAYLOAD_TOO_LARGE");
    reveal_strlit("RATE_LIMITED");
    reveal_strlit("SERVER_ERROR");
    assert("status"@[0] != "body"@[0]);
    assert("AUTH_ERROR"@.len() != "PAYLOAD_TOO_LARGE"@.len());
    assert("AUTH_ERROR"@.len() != "RATE_LIMITED"@.len());
    assert("AUTH_ERROR"@.len() != "SERVER_ERROR"@.len());
    assert(pairs.drop_last() =~= one);
    assert(one.drop_last() =~= seq![]);
    json::law_insert_then_lookup(seq![], "status"@, Tree::Integer(status as int), "status"@);
    json::law_insert_then_lookup(json::object_of(one), "body"@, Tree::Text(body), "status"@);
    assert(json::object_of(pairs) == json::inserted(
        json::object_of(one),
        "body"@,
        Tree::Text(body),
    ));
    assert(json::object_of(one) == json::inserted(
        json::object_of(one.drop_last()),
        "status"@,
        Tree::Integer(status as int),
    ));
    assert(fault.details.get("status"@) == Some(Tree::Integer(status as int)));
}

/// How far the sending of a request has come: the attempt, counted from zero,
/// how many may follow the first, and whether certificates are looked at.
#[derive(Debug, Clone, Copy, PartialEq, Eq, Structural)]
pub struct Delivery {
    pub attempt: u32,
    pub max_retries: u32,
    pub allow_invalid_certs: bool,
}

/// What is done next with a request: to send it, after some seconds or at
/// once, or to hand out what came of it.
#[derive(Debug)]
pub enum DeliveryStep {
    Send,
    SendAfter(u64),
    Done(Result<Vec<u8>, FastContextError>),
}

/// What is done next with a request.
#[verifier::ext_equal]
pub enum NextStep {
    Send,
    SendAfter(u64),
    Done(Result<Seq<u8>, Fault>),
}

/// What a result says.
pub open spec fn reply_view(reply: Result<Vec<u8>, FastContextError>) -> Result<Seq<u8>, Fault> {
    match reply {
        Ok(data) => Ok(data@),
        Err(error) => Err(error@),
    }
}

impl View for DeliveryStep {
    type V = NextStep;

    open spec fn view(&self) -> NextStep {
        match self {
            DeliveryStep::Send => NextStep::Send,
            DeliveryStep::SendAfter(seconds) => NextStep::SendAfter(*seconds),
            DeliveryStep::Done(reply) => NextStep::Done(reply_view(*reply)),
        }
    }
}

/// What is made of the reply to an attempt. A failure over a certificate is
/// tried once more within the attempt, without a look at certificates.
pub open spec fn after_attempt(d: Delivery, reply: Result<Seq<u8>, Fault>) -> (Delivery, NextStep) {
    match reply {
        Ok(data) => (d, NextStep::Done(Ok(data))),
        Err(fault) => if !d.allow_invalid_certs && is_certificate_fault(fault) {
            (Delivery { allow_invalid_certs: true, ..d }, NextStep::Send)
        } else {
            match retry_after(d.attempt, d.max_retries, fault) {
                Retry::GiveUp => (d, NextStep::Done(Err(fault))),
                Retry::After(seconds) => (
                    Delivery {
                        attempt: (d.attempt + 1) as u32,
                        allow_invalid_certs: false,
                        ..d
                    },
                    NextStep::SendAfter(seconds),
                ),
            }
        },
    }
}

impl Delivery {
    /// A request that is to be sent, and sent again up to `max_retries` times.
    pub fn new(max_retries: u32) -> (r: Delivery)
        ensures
            r == (Delivery { attempt: 0, max_retries, allow_invalid_certs: false }),
    {
        Delivery { attempt: 0, max_retries, allow_invalid_certs: false }
    }

    /// What is made of the reply to an attempt.
    pub fn on_reply(&mut self, reply: Result<Vec<u8>, FastContextError>) -> (r: DeliveryStep)
        ensures
            (*final(self), r@) == after_attempt(*old(self), reply_view(reply)),
    {
        match reply {
            Ok(data) => DeliveryStep::Done(Ok(data)),
            Err(error) => {
                if !self.allow_invalid_certs && needs_invalid_certs(&error) {
                    self.allow_invalid_certs = true;
                    return DeliveryStep::Send;
                }
                match next_attempt(self.attempt, self.max_retries, &error) {
                    Retry::GiveUp => DeliveryStep::Done(Err(error)),
                    Retry::After(seconds) => {
                        self.attempt = self.attempt + 1;
                        self.allow_invalid_certs = false;
                        DeliveryStep::SendAfter(seconds)
                    },
                }
            },
        }
    }
}

/// How often a request can still be sent.
pub open spec fn sends_left(d: Delivery) -> int {
    2 * (d.max_retries - d.attempt) + if d.allow_invalid_certs {
        0int
    } else {
        1
    }
}

/// A request is sent at most twice for every attempt: as long as it is to be
/// sent again fewer sends are left.
pub proof fn law_delivery_ends(d: Delivery, reply: Result<Seq<u8>, Fault>)
    requires
        d.attempt <= d.max_retries,
    ensures
        ({
            let (next, step) = after_attempt(d, reply);
            &&& next.attempt <= next.max_retries
            &&& !(step is Done) ==> 0 <= sends_left(next) < sends_left(d)
        }),
{
}

/// The last reply is handed out: data as it came, and the error of an attempt
/// after which the request is not sent again.
pub proof fn law_delivery_hands_out_replies(d: Delivery, reply: Result<Seq<u8>, Fault>)
    ensures
        after_attempt(d, reply).1 matches NextStep::Done(handed) ==> handed == reply,
        reply is Ok ==> after_attempt(d, reply).1 is Done,
{
}

/// A refused request is told by what it was refused for, with its status and its body.
pub proof fn law_refusals_are_told_apart(status: u16, body: Seq<char>)
    ensures
        ({
            let fault = status_fault(status, body);
            &&& fault.code == "PAYLOAD_TOO_LARGE"@ <==> status == 413
            &&& fault.code == "RATE_LIMITED"@ <==> status == 429
            &&& fault.code == "AUTH_ERROR"@ <==> status == 401 || status == 403
            &&& fault.code == "SERVER_ERROR"@ <==> status != 413 && status != 429 && status != 401
                && status != 403
            &&& fault.details.get("status"@) == Some(Tree::Integer(status as int))
            &&& fault.details.get("body"@) == Some(Tree::Text(body))
            &&& fault.message == "HTTP "@ + text::decimal(status as nat)
        }),
{
    reveal_strlit("PAYLOAD_TOO_LARGE");
    reveal_strlit("RATE_LIMITED");
    reveal_strlit("AUTH_ERROR");
    reveal_strlit("SERVER_ERROR");
    assert("PAYLOAD_TOO_LARGE"@[0] == 'P' && "RATE_LIMITED"@[0] == 'R' && "AUTH_ERROR"@[0] == 'A'
        && "SERVER_ERROR"@[0] == 'S');
    let pairs = seq![("status"@, Tree::Integer(status as int)), ("body"@, Tree::Text(body))];
    reveal_strlit("status");
    reveal_strlit("body");
    assert("status"@[0] != "body"@[0]);
    json::law_object_holds_its_pairs(pairs, "status"@);
    json::law_object_holds_its_pairs(pairs, "body"@);
    assert(pairs[0].0 == "status"@ && pairs[1].0 == "body"@);
}

/// A request that got no reply took too long, where the system or the message says so; else
/// the network failed. The message is kept.
pub proof fn law_lost_requests_are_told_apart(message: Seq<char>, timed_out: bool)
    ensures
        ({
            let fault = transport_fault(message, timed_out);
            &&& fault.message == message
            &&& fault.code == "TIMEOUT"@ <==> timed_out || text::contains(
                text::lowercase(message),
                "timeout"@,
            )
            &&& fault.code == "TIMEOUT"@ || fault.code == "NETWORK_ERROR"@
        }),
{
    reveal_strlit("TIMEOUT");
    reveal_strlit("NETWORK_ERROR");
    assert("TIMEOUT"@[0] != "NETWORK_ERROR"@[0]);
}

/// A request that failed over a certificate is sent at once, and only once more, without a
/// look at certificates; the attempts are not used up by it.
pub proof fn law_certificates_are_waived_once(d: Delivery, fault: Fault)
    requires
        fault.code == "NETWORK_ERROR"@,
        text::contains(text::lowercase(fault.message), "cert"@),
    ensures
        !d.allow_invalid_certs ==> after_attempt(d, Err(fault)).1 is Send && after_attempt(
            d,
            Err(fault),
        ).0 == (Delivery { allow_invalid_certs: true, ..d }),
        d.allow_invalid_certs ==> !(after_attempt(d, Err(fault)).1 is Send),
{
}

/// A request that failed otherwise is sent again after a time that grows with the attempts,
/// with a look at certificates again, as long as there are attempts left and it was not
/// refused.
pub proof fn law_failed_requests_are_sent_again(d: Delivery, fault: Fault)
    requires
        d.attempt < d.max_retries,
        fault.code != "AUTH_ERROR"@,
        fault.details.get("status"@) is None,
        d.allow_invalid_certs || fault.code != "NETWORK_ERROR"@ || !text::contains(
            text::lowercase(fault.message),
            "cert"@,
        ),
    ensures
        after_attempt(d, Err(fault)).1 == NextStep::SendAfter((d.attempt + 1) as u64),
        after_attempt(d, Err(fault)).0 == (Delivery {
            attempt: (d.attempt + 1) as u32,
            allow_invalid_certs: false,
            ..d
        }),
{
}

/// A body that is neither marked as packed nor said to be is taken as it is, and so is one
/// that cannot be unpacked.
pub proof fn law_other_bodies_are_kept(data: Seq<u8>, encoding: Option<Seq<char>>)
    requires
        protobuf::gunzip_output(data) is None || !(data.len() >= 2 && data[0] == 0x1f && data[1]
            == 0x8b) && (encoding matches Some(name) ==> !text::contains(
            text::lowercase(name),
            "gzip"@,
        )),
    ensures
        plain_body(data, encoding) == data,
{
}

/// A body that is said to be packed is unpacked, also without the mark.
pub proof fn law_bodies_said_to_be_packed_are_unpacked(
    data: Seq<u8>,
    encoding: Seq<char>,
    body: Seq<u8>,
)
    requires
        protobuf::gunzip_output(data) == Some(body),
        text::contains(text::lowercase(encoding), "gzip"@),
    ensures
        plain_body(data, Some(encoding)) == body,
{
}

/// A packed request says so, and one that is not does not; both take a packed reply.
pub proof fn law_packed_requests_say_so(i: int)
    ensures
        unary_header_list(true) == unary_header_list(false).push(("Content-Encoding"@, "gzip"@)),
        unary_header_list(false).contains(("Accept-Encoding"@, "gzip"@)),
        0 <= i < unary_header_list(false).len() ==> unary_header_list(false)[i].0
            != "Content-Encoding"@,
{
    let list = unary_header_list(false);
    assert(list[3] == ("Accept-Encoding"@, "gzip"@));
    reveal_strlit("Content-Encoding");
    reveal_strlit("Content-Type");
    reveal_strlit("Connect-Protocol-Version");
    reveal_strlit("User-Agent");
    reveal_strlit("Accept-Encoding");
    assert("Content-Encoding"@.len() == 16 && "Content-Type"@.len() == 12);
    assert("Connect-Protocol-Version"@.len() == 24 && "User-Agent"@.len() == 10);
    assert("Accept-Encoding"@.len() == 15);
    if 0 <= i < list.len() {
        assert(i == 0 || i == 1 || i == 2 || i == 3);
    }
}

/// A request whose reply comes in frames tells how long it waits, and carries the trace it
/// belongs to.
pub proof fn law_streaming_requests_carry_their_trace(
    timeout_ms: nat,
    ls_version: Seq<char>,
    trace_id: Seq<char>,
    span_id: Seq<char>,
)
    ensures
        ({
            let headers = streaming_header_list(timeout_ms, ls_version, trace_id, span_id);
            &&& headers.contains(("Connect-Timeout-Ms"@, text::decimal(timeout_ms)))
            &&& headers.contains(("Sentry-Trace"@, trace_id + "-"@ + span_id + "-0"@))
            &&& headers.contains(("Connect-Content-Encoding"@, "gzip"@))
            &&& headers.contains(("Connect-Accept-Encoding"@, "gzip"@))
        }),
{
    let headers = streaming_header_list(timeout_ms, ls_version, trace_id, span_id);
    assert(headers[4] == ("Connect-Timeout-Ms"@, text::decimal(timeout_ms)));
    assert(headers[8] == ("Sentry-Trace"@, trace_id + "-"@ + span_id + "-0"@));
    assert(headers[3] == ("Connect-Content-Encoding"@, "gzip"@));
    assert(headers[2] == ("Connect-Accept-Encoding"@, "gzip"@));
}

/// A body is packed where it is to be, and else sent as it is.
pub proof fn law_bodies_are_packed_on_demand(body: Seq<u8>)
    ensures
        unary_body(body, false) == body,
        unary_body(body, true) == protobuf::gzip_output(body),
{
}

} // verus!

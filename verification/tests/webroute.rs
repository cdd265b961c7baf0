use webroute::bytesutil::{i64_dec, u64_dec};
use webroute::handler::{Handler, HandlerError};
use webroute::response::{
    write_response, Body, ChannelState, ContentType, ResponseDescriptor, StreamChannel,
    WriteOutcome, STATUS_BAD_REQUEST, STATUS_METHOD_NOT_ALLOWED, STATUS_NOT_FOUND, STATUS_OK,
    STATUS_SERVER_ERROR,
};
use webroute::router::{split_path, Method, RegisterError, Resolution, Router, Segment};
use webroute::serve::handle_request;
use webroute::session::{SessionHandle, SessionStore};

fn bv(s: &str) -> Vec<u8> {
    s.as_bytes().to_vec()
}

fn lit(s: &str) -> Segment {
    Segment::Literal(bv(s))
}

fn param(s: &str) -> Segment {
    Segment::Param(bv(s))
}

fn buffered(status: u16, text: &str) -> Handler {
    Handler::Buffered { status, content_type: ContentType::Html, body: bv(text) }
}

fn demo_router() -> Router {
    let mut r = Router::new(bv("<html>not found</html>"));
    r.register(Method::Get, vec![lit("demo-static-page")], buffered(STATUS_OK, "Demo static page"))
        .unwrap();
    r.register(
        Method::Get,
        vec![lit("demo-session-counter")],
        Handler::SessionCounter { key: bv("counter"), prefix: bv("session counter:") },
    )
    .unwrap();
    r.register(
        Method::Get,
        vec![lit("demo-path-parameters"), param("x"), param("y"), param("z")],
        Handler::Parametric {
            prefix: bv("Demo path parameters: "),
            names: vec![bv("x"), bv("y"), bv("z")],
        },
    )
    .unwrap();
    r.register(
        Method::Get,
        vec![lit("demo-streaming-body")],
        Handler::Streaming { prefix: bv("Demo streaming body"), names: vec![] },
    )
    .unwrap();
    r.register(
        Method::Get,
        vec![lit("demo-streaming-body-with-path-parameters"), param("x"), param("y"), param("z")],
        Handler::Streaming {
            prefix: bv("Demo streaming body with path parameters: "),
            names: vec![bv("x"), bv("y"), bv("z")],
        },
    )
    .unwrap();
    r
}

fn buffered_bytes(body: Body) -> Vec<u8> {
    match body {
        Body::Buffered(b) => b,
        Body::Streaming(_) => panic!("expected a buffered body"),
    }
}

#[test]
fn split_path_plain() {
    let segs = split_path(&bv("/demo-path-parameters/a/b/c"));
    assert_eq!(segs, vec![bv("demo-path-parameters"), bv("a"), bv("b"), bv("c")]);
}

#[test]
fn split_path_empty_segments() {
    assert_eq!(split_path(&bv("/a//b/")), vec![bv("a"), bv(""), bv("b"), bv("")]);
    assert_eq!(split_path(&bv("")), vec![bv("")]);
    assert_eq!(split_path(&bv("/")), vec![bv("")]);
}

#[test]
fn resolve_literal_route() {
    let r = demo_router();
    match r.resolve(Method::Get, &bv("/demo-static-page")) {
        Resolution::Found { index, params } => {
            assert_eq!(index, 0);
            assert!(params.is_empty());
        },
        Resolution::NoMatch => panic!("expected a match"),
    }
}

#[test]
fn resolve_captures_parameters() {
    let r = demo_router();
    match r.resolve(Method::Get, &bv("/demo-path-parameters/a/b/c")) {
        Resolution::Found { index, params } => {
            assert_eq!(index, 2);
            assert_eq!(
                params,
                vec![(bv("x"), bv("a")), (bv("y"), bv("b")), (bv("z"), bv("c"))]
            );
        },
        Resolution::NoMatch => panic!("expected a match"),
    }
}

#[test]
fn resolve_earliest_registered_wins() {
    let mut r = Router::new(bv("nf"));
    r.register(Method::Get, vec![lit("a"), param("x")], buffered(STATUS_OK, "first"))
        .unwrap();
    r.register(Method::Get, vec![lit("a"), lit("b")], buffered(STATUS_OK, "second"))
        .unwrap();
    match r.resolve(Method::Get, &bv("/a/b")) {
        Resolution::Found { index, params } => {
            assert_eq!(index, 0);
            assert_eq!(params, vec![(bv("x"), bv("b"))]);
        },
        Resolution::NoMatch => panic!("expected a match"),
    }
}

#[test]
fn resolve_rejects_method_and_length_mismatch() {
    let r = demo_router();
    assert!(matches!(
        r.resolve(Method::Post, &bv("/demo-static-page")),
        Resolution::NoMatch
    ));
    assert!(matches!(
        r.resolve(Method::Get, &bv("/demo-path-parameters/a/b")),
        Resolution::NoMatch
    ));
    assert!(matches!(
        r.resolve(Method::Get, &bv("/demo-path-parameters/a/b/c/d")),
        Resolution::NoMatch
    ));
}

#[test]
fn register_refuses_exact_duplicate() {
    let mut r = Router::new(bv("nf"));
    r.register(Method::Get, vec![lit("a"), param("x")], buffered(STATUS_OK, "one"))
        .unwrap();
    let dup = r.register(Method::Get, vec![lit("a"), param("x")], buffered(STATUS_OK, "two"));
    assert_eq!(dup, Err(RegisterError::Conflict));
    // The same pattern under another method, or another shape, is no conflict.
    r.register(Method::Post, vec![lit("a"), param("x")], buffered(STATUS_OK, "three"))
        .unwrap();
    r.register(Method::Get, vec![lit("a"), lit("x")], buffered(STATUS_OK, "four"))
        .unwrap();
}

#[test]
fn path_parameter_scenario() {
    let r = demo_router();
    let mut store = SessionStore::new();
    let out = handle_request(&r, &mut store, Method::Get, &bv("/demo-path-parameters/a/b/c"), None);
    assert_eq!(out.response.status, STATUS_OK);
    assert!(out.set_cookie.is_none());
    assert_eq!(buffered_bytes(out.response.body), bv("Demo path parameters: a, b, c"));
}

#[test]
fn session_counter_scenario() {
    let r = demo_router();
    let mut store = SessionStore::new();
    let first = handle_request(&r, &mut store, Method::Get, &bv("/demo-session-counter"), None);
    assert_eq!(first.response.status, STATUS_OK);
    let cookie = first.set_cookie.expect("a dirty session re-issues its cookie");
    assert_eq!(buffered_bytes(first.response.body), bv("session counter:1"));

    let second = handle_request(
        &r,
        &mut store,
        Method::Get,
        &bv("/demo-session-counter"),
        Some(cookie),
    );
    assert_eq!(second.set_cookie, Some(cookie));
    assert_eq!(buffered_bytes(second.response.body), bv("session counter:2"));
}

#[test]
fn fresh_clients_get_distinct_ids() {
    let r = demo_router();
    let mut store = SessionStore::new();
    let a = handle_request(&r, &mut store, Method::Get, &bv("/demo-session-counter"), None);
    let b = handle_request(&r, &mut store, Method::Get, &bv("/demo-session-counter"), None);
    let id_a = a.set_cookie.unwrap();
    let id_b = b.set_cookie.unwrap();
    assert_ne!(id_a, id_b);
}

#[test]
fn unknown_cookie_starts_a_fresh_session() {
    let r = demo_router();
    let mut store = SessionStore::new();
    let bogus: u64 = 999;
    let out = handle_request(
        &r,
        &mut store,
        Method::Get,
        &bv("/demo-session-counter"),
        Some(bogus),
    );
    let issued = out.set_cookie.unwrap();
    assert_ne!(issued, bogus);
    assert_eq!(buffered_bytes(out.response.body), bv("session counter:1"));
}

#[test]
fn unmatched_get_falls_back_to_not_found() {
    let r = demo_router();
    let mut store = SessionStore::new();
    let out = handle_request(&r, &mut store, Method::Get, &bv("/invalid"), None);
    assert_eq!(out.response.status, STATUS_NOT_FOUND);
    assert!(out.set_cookie.is_none());
    assert_eq!(buffered_bytes(out.response.body), bv("<html>not found</html>"));
}

#[test]
fn unmatched_non_get_is_method_not_allowed() {
    let r = demo_router();
    let mut store = SessionStore::new();
    let post = handle_request(&r, &mut store, Method::Post, &bv("/invalid"), None);
    assert_eq!(post.response.status, STATUS_METHOD_NOT_ALLOWED);
    assert_eq!(buffered_bytes(post.response.body), bv(""));
    let put = handle_request(&r, &mut store, Method::Put, &bv("/demo-static-page"), None);
    assert_eq!(put.response.status, STATUS_METHOD_NOT_ALLOWED);
}

#[test]
fn missing_parameter_is_a_server_error() {
    let mut r = Router::new(bv("nf"));
    r.register(
        Method::Get,
        vec![lit("p"), param("x")],
        Handler::Parametric { prefix: bv("p: "), names: vec![bv("y")] },
    )
    .unwrap();
    let mut store = SessionStore::new();
    let out = handle_request(&r, &mut store, Method::Get, &bv("/p/value"), None);
    assert_eq!(out.response.status, STATUS_SERVER_ERROR);
    assert_eq!(buffered_bytes(out.response.body), bv(""));
}

#[test]
fn streaming_equals_buffered_content() {
    let r = demo_router();
    let mut store = SessionStore::new();
    let path = bv("/demo-streaming-body-with-path-parameters/a/b/c");
    let out = handle_request(&r, &mut store, Method::Get, &path, None);
    assert_eq!(out.response.status, STATUS_OK);
    let written = write_response(out.response);
    match written {
        WriteOutcome::Complete { status, content_type, body } => {
            assert_eq!(status, STATUS_OK);
            assert_eq!(content_type, ContentType::Plain);
            assert_eq!(body, bv("Demo streaming body with path parameters: a, b, c"));
        },
        WriteOutcome::Aborted { .. } => panic!("expected a complete response"),
    }
}

#[test]
fn streaming_body_single_chunk() {
    let r = demo_router();
    let mut store = SessionStore::new();
    let out = handle_request(&r, &mut store, Method::Get, &bv("/demo-streaming-body"), None);
    match out.response.body {
        Body::Streaming(c) => {
            assert_eq!(c.state, ChannelState::Closed);
            assert_eq!(c.chunks, vec![bv("Demo streaming body")]);
        },
        Body::Buffered(_) => panic!("expected a streaming body"),
    }
}

#[test]
fn failed_stream_before_bytes_is_client_error() {
    let mut c = StreamChannel::new();
    c.fail();
    let desc = ResponseDescriptor {
        status: STATUS_OK,
        content_type: ContentType::Plain,
        body: Body::Streaming(c),
    };
    match write_response(desc) {
        WriteOutcome::Complete { status, body, .. } => {
            assert_eq!(status, STATUS_BAD_REQUEST);
            assert!(body.is_empty());
        },
        WriteOutcome::Aborted { .. } => panic!("nothing was in flight yet"),
    }
}

#[test]
fn failed_stream_after_bytes_aborts() {
    let mut c = StreamChannel::new();
    c.send(bv("chunk one"));
    c.send(bv(" and two"));
    c.fail();
    let desc = ResponseDescriptor {
        status: STATUS_OK,
        content_type: ContentType::Plain,
        body: Body::Streaming(c),
    };
    match write_response(desc) {
        WriteOutcome::Complete { .. } => panic!("headers cannot be taken back"),
        WriteOutcome::Aborted { sent } => assert_eq!(sent, bv("chunk one and two")),
    }
}

#[test]
fn session_store_get_set_finalize() {
    let mut store = SessionStore::new();
    let mut h = store.load(None);
    assert_eq!(h.get(&bv("counter")), None);
    h.set(&bv("counter"), 41);
    h.set(&bv("other"), -7);
    assert_eq!(h.get(&bv("counter")), Some(41));
    let cookie = store.finalize(h).expect("dirty handle issues a cookie");

    let h2 = store.load(Some(cookie));
    assert_eq!(h2.get(&bv("counter")), Some(41));
    assert_eq!(h2.get(&bv("other")), Some(-7));
    // A clean handle leaves the store alone and issues no cookie.
    assert_eq!(store.finalize(h2), None);
}

#[test]
fn counter_saturates_at_the_maximum() {
    let r = demo_router();
    let mut store = SessionStore::new();
    let mut h = store.load(None);
    h.set(&bv("counter"), i64::MAX);
    let cookie = store.finalize(h).unwrap();
    let out = handle_request(
        &r,
        &mut store,
        Method::Get,
        &bv("/demo-session-counter"),
        Some(cookie),
    );
    let expected = format!("session counter:{}", i64::MAX);
    assert_eq!(buffered_bytes(out.response.body), bv(&expected));
}

#[test]
fn decimal_rendering() {
    assert_eq!(u64_dec(0), bv("0"));
    assert_eq!(u64_dec(1234567890), bv("1234567890"));
    assert_eq!(i64_dec(-42), bv("-42"));
    assert_eq!(i64_dec(i64::MIN), bv("-9223372036854775808"));
    assert_eq!(i64_dec(i64::MAX), bv("9223372036854775807"));
}

#[test]
fn handle_without_session_route_sets_no_cookie() {
    let r = demo_router();
    let mut store = SessionStore::new();
    let out = handle_request(&r, &mut store, Method::Get, &bv("/demo-static-page"), None);
    assert_eq!(out.response.status, STATUS_OK);
    assert!(out.set_cookie.is_none());
    assert_eq!(buffered_bytes(out.response.body), bv("Demo static page"));
}

#[test]
fn parametric_handler_reports_capture_order_mismatch() {
    let mut r = Router::new(bv("nf"));
    r.register(
        Method::Get,
        vec![param("a"), param("b")],
        Handler::Parametric { prefix: bv("got: "), names: vec![bv("b"), bv("a")] },
    )
    .unwrap();
    let mut store = SessionStore::new();
    let out = handle_request(&r, &mut store, Method::Get, &bv("/1/2"), None);
    assert_eq!(out.response.status, STATUS_SERVER_ERROR);
}

#[test]
fn root_route_matches_the_bare_path() {
    let mut r = Router::new(bv("nf"));
    // The root path splits into one empty segment; a redirect page stands
    // behind it, as a buffered response with its own status.
    r.register(
        Method::Get,
        vec![lit("")],
        Handler::Buffered { status: 302, content_type: ContentType::Html, body: bv("") },
    )
    .unwrap();
    let mut store = SessionStore::new();
    let out = handle_request(&r, &mut store, Method::Get, &bv("/"), None);
    assert_eq!(out.response.status, 302);
    let miss = handle_request(&r, &mut store, Method::Get, &bv("/a"), None);
    assert_eq!(miss.response.status, STATUS_NOT_FOUND);
}

#[test]
fn empty_streaming_body_sends_no_chunks() {
    let mut r = Router::new(bv("nf"));
    r.register(
        Method::Get,
        vec![lit("s")],
        Handler::Streaming { prefix: bv(""), names: vec![] },
    )
    .unwrap();
    let mut store = SessionStore::new();
    let out = handle_request(&r, &mut store, Method::Get, &bv("/s"), None);
    match &out.response.body {
        Body::Streaming(c) => {
            assert_eq!(c.state, ChannelState::Closed);
            assert!(c.chunks.is_empty());
        },
        Body::Buffered(_) => panic!("expected a streaming body"),
    }
    match write_response(out.response) {
        WriteOutcome::Complete { status, body, .. } => {
            assert_eq!(status, STATUS_OK);
            assert!(body.is_empty());
        },
        WriteOutcome::Aborted { .. } => panic!("expected a complete response"),
    }
}

#[test]
fn closed_stream_with_chunks_completes_in_order() {
    let mut c = StreamChannel::new();
    c.send(bv("one "));
    c.send(bv("two "));
    c.send(bv("three"));
    c.close();
    let desc = ResponseDescriptor {
        status: STATUS_OK,
        content_type: ContentType::Plain,
        body: Body::Streaming(c),
    };
    match write_response(desc) {
        WriteOutcome::Complete { status, body, .. } => {
            assert_eq!(status, STATUS_OK);
            assert_eq!(body, bv("one two three"));
        },
        WriteOutcome::Aborted { .. } => panic!("expected a complete response"),
    }
}

#[test]
fn handler_error_is_missing_parameter() {
    assert_eq!(HandlerError::MissingParameter, HandlerError::MissingParameter);
    let mut h = SessionHandle { id: 1, data: vec![], dirty: false };
    let params: Vec<(Vec<u8>, Vec<u8>)> = vec![];
    let handler = Handler::Parametric { prefix: bv("p"), names: vec![bv("x")] };
    let r = webroute::handler::run_handler(&handler, &params, &mut h);
    assert_eq!(r.err(), Some(HandlerError::MissingParameter));
}

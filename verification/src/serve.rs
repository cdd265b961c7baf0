//! The request pipeline: resolve the route, open the session the cookie
//! names, run the handler, persist the session and re-issue its cookie if it
//! was dirtied. An unmatched GET path is answered with the router's
//! not-found fallback; any other method on an unmatched path is refused as
//! method-not-allowed; a handler programming error becomes a bare server
//! error.

use vstd::prelude::*;
use crate::bytesutil::{dec_int, views_of};
use crate::handler::{
    capture_values, joined_body, params_fit, run_handler, stream_chunks_of, Handler,
};
use crate::response::{
    Body, ChannelState, ContentType, ResponseDescriptor, STATUS_METHOD_NOT_ALLOWED,
    STATUS_NOT_FOUND, STATUS_OK, STATUS_SERVER_ERROR,
};
use crate::router::{captures_of, first_match, path_segs, Method, Resolution, Router};
use crate::session::{
    bag_lookup, bump, cookie_known, copy_bytes, counter_of, load_bag, load_id, store_lookup,
    SessionStore,
};
verus! {

/// What one request leaves behind: the response descriptor for the writer,
/// and the cookie to set, if the session was dirtied.
pub struct RequestOutcome {
    pub response: ResponseDescriptor,
    pub set_cookie: Option<u64>,
}

/// The store after a request that did not dirty its session: the sessions
/// are untouched, and `next_id` advanced only if a fresh id was handed out.
pub open spec fn store_read_only(
    pre: SessionStore,
    post: SessionStore,
    cookie: Option<u64>,
) -> bool {
    &&& post.sessions@ == pre.sessions@
    &&& post.next_id == if cookie_known(pre, cookie) {
        pre.next_id
    } else {
        (pre.next_id + 1) as u64
    }
}

/// The counter a request with this cookie would read: the stored value
/// under `key` for the session `sid`, zero when absent.
pub open spec fn counter_val(s: SessionStore, sid: u64, key: Seq<u8>) -> i64 {
    counter_of(load_bag(s, Some(sid)), key)
}

/// No lost updates: `stores` are the store states seen by a sequence of
/// requests that all carry the same session id and each invoke the counter
/// handler. The store serializes access per session id, so each request
/// performs one atomic bump — which is exactly what `handle_request`
/// guarantees of each consecutive pair. The final counter then equals the
/// initial one plus the number of requests; starting fresh, it equals the
/// number of requests.
pub proof fn lemma_no_lost_updates(stores: Seq<SessionStore>, sid: u64, key: Seq<u8>)
    requires
        stores.len() >= 1,
        forall|i: int|
            0 <= i < stores.len() - 1 ==> counter_val(#[trigger] stores[i + 1], sid, key) == bump(
                counter_val(stores[i], sid, key),
            ),
        counter_val(stores[0], sid, key) + stores.len() - 1 <= i64::MAX,
    ensures
        counter_val(stores.last(), sid, key) == counter_val(stores[0], sid, key) + stores.len()
            - 1,
    decreases stores.len(),
{
    if stores.len() > 1 {
        let front = stores.drop_last();
        assert forall|i: int| 0 <= i < front.len() - 1 implies counter_val(
            #[trigger] front[i + 1],
            sid,
            key,
        ) == bump(counter_val(front[i], sid, key)) by {
            assert(front[i + 1] == stores[i + 1]);
            assert(front[i] == stores[i]);
        }
        lemma_no_lost_updates(front, sid, key);
        assert(front.last() == stores[stores.len() - 2]);
        let n = stores.len() as int;
        assert(counter_val(stores[(n - 2) + 1], sid, key) == bump(
            counter_val(stores[n - 2], sid, key),
        ));
        assert(stores.last() == stores[n - 1]);
    }
}

/// Runs one request through the router, the session store and the matched
/// handler.
pub fn handle_request(
    router: &Router,
    store: &mut SessionStore,
    method: Method,
    path: &Vec<u8>,
    cookie: Option<u64>,
) -> (r: RequestOutcome)
    requires
        old(store).wf(),
        old(store).next_id < u64::MAX,
    ensures
        final(store).wf(),
        ({
            let segs = path_segs(path@);
            match first_match(router.routes@, method, segs) {
                None => {
                    &&& *final(store) == *old(store)
                    &&& r.set_cookie is None
                    &&& if method == Method::Get {
                        &&& r.response.status == STATUS_NOT_FOUND
                        &&& r.response.content_type == ContentType::Html
                        &&& match r.response.body {
                            Body::Buffered(b) => b@ == router.fallback@,
                            Body::Streaming(_) => false,
                        }
                    } else {
                        &&& r.response.status == STATUS_METHOD_NOT_ALLOWED
                        &&& match r.response.body {
                            Body::Buffered(b) => b@.len() == 0,
                            Body::Streaming(_) => false,
                        }
                    }
                },
                Some(i) => {
                    let caps = captures_of(router.routes@[i].pattern@, segs);
                    match router.routes@[i].handler {
                        Handler::Buffered { status, content_type, body } => {
                            &&& store_read_only(*old(store), *final(store), cookie)
                            &&& r.set_cookie is None
                            &&& r.response.status == status
                            &&& r.response.content_type == content_type
                            &&& match r.response.body {
                                Body::Buffered(b) => b@ == body@,
                                Body::Streaming(_) => false,
                            }
                        },
                        Handler::Parametric { prefix, names } => {
                            &&& store_read_only(*old(store), *final(store), cookie)
                            &&& r.set_cookie is None
                            &&& if params_fit(caps, views_of(names@)) {
                                &&& r.response.status == STATUS_OK
                                &&& r.response.content_type == ContentType::Plain
                                &&& match r.response.body {
                                    Body::Buffered(b) => b@ == joined_body(
                                        prefix@,
                                        capture_values(caps),
                                    ),
                                    Body::Streaming(_) => false,
                                }
                            } else {
                                &&& r.response.status == STATUS_SERVER_ERROR
                                &&& match r.response.body {
                                    Body::Buffered(b) => b@.len() == 0,
                                    Body::Streaming(_) => false,
                                }
                            }
                        },
                        Handler::Streaming { prefix, names } => {
                            &&& store_read_only(*old(store), *final(store), cookie)
                            &&& r.set_cookie is None
                            &&& if params_fit(caps, views_of(names@)) {
                                &&& r.response.status == STATUS_OK
                                &&& r.response.content_type == ContentType::Plain
                                &&& match r.response.body {
                                    Body::Buffered(_) => false,
                                    Body::Streaming(c) => {
                                        &&& c.state == ChannelState::Closed
                                        &&& c.chunk_views() == stream_chunks_of(
                                            joined_body(prefix@, capture_values(caps)),
                                        )
                                        &&& c.delivered() == joined_body(
                                            prefix@,
                                            capture_values(caps),
                                        )
                                    },
                                }
                            } else {
                                &&& r.response.status == STATUS_SERVER_ERROR
                                &&& match r.response.body {
                                    Body::Buffered(b) => b@.len() == 0,
                                    Body::Streaming(_) => false,
                                }
                            }
                        },
                        Handler::SessionCounter { key, prefix } => {
                            let sid = load_id(*old(store), cookie);
                            let d0 = load_bag(*old(store), cookie);
                            let newv = bump(counter_of(d0, key@));
                            &&& r.set_cookie == Some(sid)
                            &&& r.response.status == STATUS_OK
                            &&& r.response.content_type == ContentType::Html
                            &&& match r.response.body {
                                Body::Buffered(b) => b@ == prefix@ + dec_int(newv as int),
                                Body::Streaming(_) => false,
                            }
                            &&& final(store).next_id == if cookie_known(*old(store), cookie) {
                                old(store).next_id
                            } else {
                                (old(store).next_id + 1) as u64
                            }
                            &&& match store_lookup(final(store).sessions@, sid) {
                                Some(d1) => bag_lookup(d1, key@) == Some(newv) && forall|
                                    k: Seq<u8>,
                                |
                                    k != key@ ==> bag_lookup(d1, k) == bag_lookup(d0, k),
                                None => false,
                            }
                            &&& forall|other: u64|
                                other != sid ==> store_lookup(final(store).sessions@, other)
                                    == store_lookup(old(store).sessions@, other)
                        },
                    }
                },
            }
        }),
{
    match router.resolve(method, path) {
        Resolution::NoMatch => {
            if method == Method::Get {
                let body = copy_bytes(&router.fallback);
                RequestOutcome {
                    response: ResponseDescriptor {
                        status: STATUS_NOT_FOUND,
                        content_type: ContentType::Html,
                        body: Body::Buffered(body),
                    },
                    set_cookie: None,
                }
            } else {
                RequestOutcome {
                    response: ResponseDescriptor {
                        status: STATUS_METHOD_NOT_ALLOWED,
                        content_type: ContentType::Plain,
                        body: Body::Buffered(Vec::new()),
                    },
                    set_cookie: None,
                }
            }
        },
        Resolution::Found { index, params } => {
            let mut sess = store.load(cookie);
            match run_handler(&router.routes[index].handler, &params, &mut sess) {
                Ok(desc) => {
                    let set_cookie = store.finalize(sess);
                    RequestOutcome { response: desc, set_cookie }
                },
                Err(_) => {
                    let set_cookie = store.finalize(sess);
                    RequestOutcome {
                        response: ResponseDescriptor {
                            status: STATUS_SERVER_ERROR,
                            content_type: ContentType::Plain,
                            body: Body::Buffered(Vec::new()),
                        },
                        set_cookie,
                    }
                },
            }
        },
    }
}

} // verus!

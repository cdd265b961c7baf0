//! The handler set: the four handler shapes a route can be registered with,
//! and the dispatch that turns a resolved route and a session handle into a
//! response descriptor.

use vstd::prelude::*;
use crate::bytesutil::{
    append_bytes, bytes_eq, cat, dec_int, i64_dec, join_sep, lemma_join_sep_push, pairs_views,
    views_of,
};
use crate::response::{
    Body, ContentType, ResponseDescriptor, StreamChannel, ChannelState, STATUS_OK,
};
use crate::session::{bag_lookup, bump, copy_bytes, counter_of, SessionHandle};

verus! {

/// A handler, chosen at route-registration time.
///
/// `Parametric` and `Streaming` build their text from a fixed prefix
/// followed by the captured path-parameter values joined with ", "; with an
/// empty name list the text is just the prefix. `SessionCounter` bumps the
/// session value under `key` and appends the new value to `prefix`.
pub enum Handler {
    Buffered { status: u16, content_type: ContentType, body: Vec<u8> },
    Parametric { prefix: Vec<u8>, names: Vec<Vec<u8>> },
    SessionCounter { key: Vec<u8>, prefix: Vec<u8> },
    Streaming { prefix: Vec<u8>, names: Vec<Vec<u8>> },
}

/// A programming error in a handler: the route's captures do not line up
/// with the parameter names the handler consumes.
#[derive(Clone, Copy, PartialEq, Eq, Structural, Debug)]
pub enum HandlerError {
    MissingParameter,
}

/// The names of the captures, in capture order.
pub open spec fn capture_names(ps: Seq<(Seq<u8>, Seq<u8>)>) -> Seq<Seq<u8>> {
    ps.map_values(|p: (Seq<u8>, Seq<u8>)| p.0)
}

/// The values of the captures, in capture order.
pub open spec fn capture_values(ps: Seq<(Seq<u8>, Seq<u8>)>) -> Seq<Seq<u8>> {
    ps.map_values(|p: (Seq<u8>, Seq<u8>)| p.1)
}

/// A parameter-reading handler consumes exactly the route's captures, in
/// order; anything else is a programming error.
pub open spec fn params_fit(ps: Seq<(Seq<u8>, Seq<u8>)>, names: Seq<Seq<u8>>) -> bool {
    capture_names(ps) == names
}

/// The text a parameter-reading handler produces: its prefix, then the
/// captured values joined with ", ".
pub open spec fn joined_body(prefix: Seq<u8>, vals: Seq<Seq<u8>>) -> Seq<u8> {
    prefix + join_sep(vals, seq![44u8, 32u8])
}

/// The chunks a streaming handler pushes for `content`: nothing for an
/// empty body, else the whole content as one chunk.
pub open spec fn stream_chunks_of(content: Seq<u8>) -> Seq<Seq<u8>> {
    if content.len() == 0 {
        Seq::empty()
    } else {
        seq![content]
    }
}

/// A streaming handler delivers the same bytes a buffered handler with the
/// same prefix and captures would return: its chunks, concatenated in
/// delivery order, are exactly the buffered text.
pub proof fn lemma_streaming_matches_buffered(prefix: Seq<u8>, vals: Seq<Seq<u8>>)
    ensures
        cat(stream_chunks_of(joined_body(prefix, vals))) == joined_body(prefix, vals),
{
    let content = joined_body(prefix, vals);
    if content.len() == 0 {
        assert(cat(stream_chunks_of(content)) =~= content);
    } else {
        assert(seq![content].drop_first() =~= Seq::<Seq<u8>>::empty());
        assert(cat(seq![content]) == content + cat(Seq::<Seq<u8>>::empty()));
        assert(cat(stream_chunks_of(content)) =~= content);
    }
}

/// Reads every capture in order, checking the names against the handler's.
#[verifier::loop_isolation(false)]
fn collect_values(params: &Vec<(Vec<u8>, Vec<u8>)>, names: &Vec<Vec<u8>>) -> (r: Option<
    Vec<Vec<u8>>,
>)
    ensures
        r is Some <==> params_fit(pairs_views(params@), views_of(names@)),
        match r {
            Some(vals) => views_of(vals@) == capture_values(pairs_views(params@)),
            None => true,
        },
{
    let ghost pv = pairs_views(params@);
    let ghost nv = views_of(names@);
    if params.len() != names.len() {
        proof {
            assert(capture_names(pv).len() != nv.len());
        }
        return None;
    }
    let mut vals: Vec<Vec<u8>> = Vec::new();
    let mut i: usize = 0;
    while i < params.len()
        invariant
            i <= params.len(),
            vals@.len() == i,
            forall|j: int| 0 <= j < i ==> (#[trigger] pv[j]).0 == nv[j],
            forall|j: int| 0 <= j < i ==> (#[trigger] vals@[j])@ == pv[j].1,
        decreases params.len() - i,
    {
        if !bytes_eq(&params[i].0, &names[i]) {
            proof {
                assert(capture_names(pv)[i as int] == pv[i as int].0);
                assert(capture_names(pv)[i as int] != nv[i as int]);
            }
            return None;
        }
        let v = copy_bytes(&params[i].1);
        vals.push(v);
        i += 1;
    }
    proof {
        assert(capture_names(pv) =~= nv);
        assert(views_of(vals@) =~= capture_values(pv));
    }
    Some(vals)
}

/// Builds prefix + values joined with ", ".
#[verifier::loop_isolation(false)]
fn joined(prefix: &Vec<u8>, vals: &Vec<Vec<u8>>) -> (r: Vec<u8>)
    ensures
        r@ == joined_body(prefix@, views_of(vals@)),
{
    let ghost vv = views_of(vals@);
    let ghost sep = seq![44u8, 32u8];
    let mut out = copy_bytes(prefix);
    let mut i: usize = 0;
    proof {
        assert(vv.take(0) =~= Seq::<Seq<u8>>::empty());
        assert(out@ =~= prefix@ + join_sep(vv.take(0), sep));
    }
    while i < vals.len()
        invariant
            i <= vals.len(),
            out@ == prefix@ + join_sep(vv.take(i as int), sep),
        decreases vals.len() - i,
    {
        let ghost pre = out@;
        if i > 0 {
            out.push(44);
            out.push(32);
        }
        append_bytes(&mut out, &vals[i]);
        proof {
            assert(vv.take(i as int + 1) =~= vv.take(i as int).push(vv[i as int]));
            if i == 0 {
                assert(join_sep(vv.take(1), sep) == vv.take(1)[0]);
                assert(out@ =~= prefix@ + join_sep(vv.take(1), sep));
            } else {
                lemma_join_sep_push(vv.take(i as int), sep, vv[i as int]);
                assert(out@ =~= prefix@ + join_sep(vv.take(i as int + 1), sep));
            }
        }
        i += 1;
    }
    proof {
        assert(vv.take(vv.len() as int) =~= vv);
    }
    out
}

/// Runs one handler against the captures and the session handle, producing
/// a response descriptor. Only `SessionCounter` touches the session, with
/// one atomic read-bump-write; a capture/name mismatch in a
/// parameter-reading handler is the `MissingParameter` programming error.
pub fn run_handler(h: &Handler, params: &Vec<(Vec<u8>, Vec<u8>)>, sess: &mut SessionHandle) -> (r:
    Result<ResponseDescriptor, HandlerError>)
    ensures
        match *h {
            Handler::Buffered { status, content_type, body } => {
                &&& *final(sess) == *old(sess)
                &&& match r {
                    Ok(d) => d.status == status && d.content_type == content_type && match d.body {
                        Body::Buffered(b) => b@ == body@,
                        Body::Streaming(_) => false,
                    },
                    Err(_) => false,
                }
            },
            Handler::Parametric { prefix, names } => {
                &&& *final(sess) == *old(sess)
                &&& match r {
                    Ok(d) => {
                        &&& params_fit(pairs_views(params@), views_of(names@))
                        &&& d.status == STATUS_OK
                        &&& d.content_type == ContentType::Plain
                        &&& match d.body {
                            Body::Buffered(b) => b@ == joined_body(
                                prefix@,
                                capture_values(pairs_views(params@)),
                            ),
                            Body::Streaming(_) => false,
                        }
                    },
                    Err(e) => e == HandlerError::MissingParameter && !params_fit(
                        pairs_views(params@),
                        views_of(names@),
                    ),
                }
            },
            Handler::SessionCounter { key, prefix } => {
                &&& final(sess).id == old(sess).id
                &&& final(sess).dirty
                &&& bag_lookup(final(sess).bag(), key@) == Some(
                    bump(counter_of(old(sess).bag(), key@)),
                )
                &&& forall|k: Seq<u8>|
                    k != key@ ==> bag_lookup(final(sess).bag(), k) == bag_lookup(
                        old(sess).bag(),
                        k,
                    )
                &&& match r {
                    Ok(d) => {
                        &&& d.status == STATUS_OK
                        &&& d.content_type == ContentType::Html
                        &&& match d.body {
                            Body::Buffered(b) => b@ == prefix@ + dec_int(
                                bump(counter_of(old(sess).bag(), key@)) as int,
                            ),
                            Body::Streaming(_) => false,
                        }
                    },
                    Err(_) => false,
                }
            },
            Handler::Streaming { prefix, names } => {
                &&& *final(sess) == *old(sess)
                &&& match r {
                    Ok(d) => {
                        &&& params_fit(pairs_views(params@), views_of(names@))
                        &&& d.status == STATUS_OK
                        &&& d.content_type == ContentType::Plain
                        &&& match d.body {
                            Body::Buffered(_) => false,
                            Body::Streaming(c) => {
                                &&& c.state == ChannelState::Closed
                                &&& c.chunk_views() == stream_chunks_of(
                                    joined_body(
                                        prefix@,
                                        capture_values(pairs_views(params@)),
                                    ),
                                )
                                &&& c.delivered() == joined_body(
                                    prefix@,
                                    capture_values(pairs_views(params@)),
                                )
                            },
                        }
                    },
                    Err(e) => e == HandlerError::MissingParameter && !params_fit(
                        pairs_views(params@),
                        views_of(names@),
                    ),
                }
            },
        },
{
    match h {
        Handler::Buffered { status, content_type, body } => {
            let b = copy_bytes(body);
            Ok(
                ResponseDescriptor {
                    status: *status,
                    content_type: *content_type,
                    body: Body::Buffered(b),
                },
            )
        },
        Handler::Parametric { prefix, names } => {
            match collect_values(params, names) {
                Some(vals) => {
                    let body = joined(prefix, &vals);
                    Ok(
                        ResponseDescriptor {
                            status: STATUS_OK,
                            content_type: ContentType::Plain,
                            body: Body::Buffered(body),
                        },
                    )
                },
                None => Err(HandlerError::MissingParameter),
            }
        },
        Handler::SessionCounter { key, prefix } => {
            let cur = match sess.get(key) {
                Some(v) => v,
                None => 0,
            };
            let newv = if cur == i64::MAX {
                i64::MAX
            } else {
                cur + 1
            };
            sess.set(key, newv);
            let mut body = copy_bytes(prefix);
            let digits = i64_dec(newv);
            append_bytes(&mut body, &digits);
            Ok(
                ResponseDescriptor {
                    status: STATUS_OK,
                    content_type: ContentType::Html,
                    body: Body::Buffered(body),
                },
            )
        },
        Handler::Streaming { prefix, names } => {
            match collect_values(params, names) {
                Some(vals) => {
                    let content = joined(prefix, &vals);
                    let ghost text = joined_body(prefix@, capture_values(pairs_views(params@)));
                    let mut ch = StreamChannel::new();
                    proof {
                        lemma_streaming_matches_buffered(
                            prefix@,
                            capture_values(pairs_views(params@)),
                        );
                    }
                    if content.len() > 0 {
                        let ghost cv = content@;
                        ch.send(content);
                        proof {
                            assert(ch.chunk_views() =~= seq![cv]);
                            assert(ch.chunk_views() == stream_chunks_of(text));
                        }
                    } else {
                        proof {
                            assert(ch.chunk_views() =~= stream_chunks_of(text));
                        }
                    }
                    ch.close();
                    Ok(
                        ResponseDescriptor {
                            status: STATUS_OK,
                            content_type: ContentType::Plain,
                            body: Body::Streaming(ch),
                        },
                    )
                },
                None => Err(HandlerError::MissingParameter),
            }
        },
    }
}

} // verus!

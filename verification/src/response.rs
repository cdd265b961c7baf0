//! Response delivery: a response is either one buffered payload or an
//! ordered stream of chunks, and the writer turns either into what the
//! transport sends — or an abort, when a streaming producer fails after
//! bytes are already in flight.

use vstd::prelude::*;
use crate::bytesutil::{append_bytes, cat, lemma_cat_push, views_of};

verus! {

/// HTTP status for a successful response.
pub const STATUS_OK: u16 = 200;

/// HTTP status for a malformed or failed request body.
pub const STATUS_BAD_REQUEST: u16 = 400;

/// HTTP status for an unmatched GET path.
pub const STATUS_NOT_FOUND: u16 = 404;

/// HTTP status for a non-GET request on an unmatched path.
pub const STATUS_METHOD_NOT_ALLOWED: u16 = 405;

/// HTTP status for an internal programming error.
pub const STATUS_SERVER_ERROR: u16 = 500;

/// The content types the handlers produce.
#[derive(Clone, Copy, PartialEq, Eq, Structural, Debug)]
pub enum ContentType {
    Html,
    Plain,
}

/// Producer-side state of a stream channel. The producer moves an `Open`
/// channel to exactly one of `Closed` (end of body) or `Failed`.
#[derive(Clone, Copy, PartialEq, Eq, Structural, Debug)]
pub enum ChannelState {
    Open,
    Closed,
    Failed,
}

/// An ordered single-producer/single-consumer queue of byte chunks. The
/// producer pushes chunks and then closes (or fails) the channel exactly
/// once; the consumer drains the chunks in FIFO order.
pub struct StreamChannel {
    pub chunks: Vec<Vec<u8>>,
    pub state: ChannelState,
}

impl StreamChannel {
    /// The chunks as byte sequences, in delivery order.
    pub open spec fn chunk_views(&self) -> Seq<Seq<u8>> {
        views_of(self.chunks@)
    }

    /// All chunk bytes, concatenated in delivery order.
    pub open spec fn delivered(&self) -> Seq<u8> {
        cat(self.chunk_views())
    }

    pub fn new() -> (c: Self)
        ensures
            c.state == ChannelState::Open,
            c.chunk_views() == Seq::<Seq<u8>>::empty(),
    {
        let c = StreamChannel { chunks: Vec::new(), state: ChannelState::Open };
        proof {
            assert(c.chunk_views() =~= Seq::<Seq<u8>>::empty());
        }
        c
    }

    /// Appends one chunk; only the producer of an open channel may send.
    pub fn send(&mut self, chunk: Vec<u8>)
        requires
            old(self).state == ChannelState::Open,
        ensures
            final(self).state == ChannelState::Open,
            final(self).chunk_views() == old(self).chunk_views().push(chunk@),
    {
        self.chunks.push(chunk);
        proof {
            assert(self.chunk_views() =~= old(self).chunk_views().push(chunk@));
        }
    }

    /// Signals end-of-body; the chunks already sent stay as they are.
    pub fn close(&mut self)
        requires
            old(self).state == ChannelState::Open,
        ensures
            final(self).state == ChannelState::Closed,
            final(self).chunk_views() == old(self).chunk_views(),
    {
        self.state = ChannelState::Closed;
    }

    /// Signals a producer-side failure; the chunks already sent stay.
    pub fn fail(&mut self)
        requires
            old(self).state == ChannelState::Open,
        ensures
            final(self).state == ChannelState::Failed,
            final(self).chunk_views() == old(self).chunk_views(),
    {
        self.state = ChannelState::Failed;
    }
}

/// A response body: one buffered payload, or a stream channel to drain.
pub enum Body {
    Buffered(Vec<u8>),
    Streaming(StreamChannel),
}

/// What a handler returns: status, content type and a body.
pub struct ResponseDescriptor {
    pub status: u16,
    pub content_type: ContentType,
    pub body: Body,
}

/// What the writer hands the transport: a complete response, or an abort
/// after `sent` bytes when a streaming producer failed with bytes already
/// in flight (headers cannot be taken back).
pub enum WriteOutcome {
    Complete { status: u16, content_type: ContentType, body: Vec<u8> },
    Aborted { sent: Vec<u8> },
}

/// Concatenates chunks in FIFO order.
#[verifier::loop_isolation(false)]
pub fn concat_chunks(chunks: &Vec<Vec<u8>>) -> (r: Vec<u8>)
    ensures
        r@ == cat(views_of(chunks@)),
{
    let mut out: Vec<u8> = Vec::new();
    let mut i: usize = 0;
    proof {
        assert(views_of(chunks@).take(0) =~= Seq::<Seq<u8>>::empty());
    }
    while i < chunks.len()
        invariant
            i <= chunks.len(),
            out@ == cat(views_of(chunks@).take(i as int)),
        decreases chunks.len() - i,
    {
        append_bytes(&mut out, &chunks[i]);
        proof {
            lemma_cat_push(views_of(chunks@).take(i as int), chunks@[i as int]@);
            assert(views_of(chunks@).take(i as int + 1) =~= views_of(chunks@).take(
                i as int,
            ).push(chunks@[i as int]@));
        }
        i += 1;
    }
    proof {
        assert(views_of(chunks@).take(chunks@.len() as int) =~= views_of(chunks@));
    }
    out
}

/// Serializes a descriptor for the transport. A buffered body goes out as
/// it is. A closed stream goes out as its chunks, concatenated in delivery
/// order. A failed stream becomes a client-error response when nothing was
/// delivered yet, and an abort of the connection otherwise.
pub fn write_response(desc: ResponseDescriptor) -> (r: WriteOutcome)
    requires
        match desc.body {
            Body::Streaming(c) => c.state != ChannelState::Open,
            Body::Buffered(_) => true,
        },
    ensures
        match desc.body {
            Body::Buffered(b) => match r {
                WriteOutcome::Complete { status, content_type, body } => status == desc.status
                    && content_type == desc.content_type && body@ == b@,
                WriteOutcome::Aborted { .. } => false,
            },
            Body::Streaming(c) => match r {
                WriteOutcome::Complete { status, content_type, body } => content_type
                    == desc.content_type && if c.state == ChannelState::Closed {
                    status == desc.status && body@ == c.delivered()
                } else {
                    c.chunk_views().len() == 0 && status == STATUS_BAD_REQUEST && body@.len() == 0
                },
                WriteOutcome::Aborted { sent } => c.state == ChannelState::Failed
                    && c.chunk_views().len() > 0 && sent@ == c.delivered(),
            },
        },
{
    match desc.body {
        Body::Buffered(b) => WriteOutcome::Complete {
            status: desc.status,
            content_type: desc.content_type,
            body: b,
        },
        Body::Streaming(c) => {
            if c.state == ChannelState::Closed {
                let body = concat_chunks(&c.chunks);
                WriteOutcome::Complete {
                    status: desc.status,
                    content_type: desc.content_type,
                    body,
                }
            } else if c.chunks.len() == 0 {
                WriteOutcome::Complete {
                    status: STATUS_BAD_REQUEST,
                    content_type: desc.content_type,
                    body: Vec::new(),
                }
            } else {
                let sent = concat_chunks(&c.chunks);
                WriteOutcome::Aborted { sent }
            }
        },
    }
}

} // verus!

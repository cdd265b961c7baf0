//! The router: routes are (method, pattern, handler) triples registered in
//! order; a pattern is a sequence of literal and named segments. Resolution
//! splits the request path into segments and returns the earliest-registered
//! route whose pattern matches, together with the named captures.

use vstd::prelude::*;
use crate::bytesutil::{bytes_eq, pairs_views, views_of};
use crate::handler::Handler;
use crate::session::copy_bytes;

verus! {

/// Request methods the router distinguishes.
#[derive(Clone, Copy, PartialEq, Eq, Structural, Debug)]
pub enum Method {
    Get,
    Post,
    Put,
    Delete,
    Head,
    Options,
    Patch,
}

/// One pattern segment: a literal that must match exactly, or a named
/// parameter that matches any one segment and captures it.
pub enum Segment {
    Literal(Vec<u8>),
    Param(Vec<u8>),
}

/// A registered route.
pub struct Route {
    pub method: Method,
    pub pattern: Vec<Segment>,
    pub handler: Handler,
}

/// Registering a byte-identical duplicate of an existing route is refused.
#[derive(Clone, Copy, PartialEq, Eq, Structural, Debug)]
pub enum RegisterError {
    Conflict,
}

/// A path split on `/` into raw segments, after one leading `/` is dropped.
pub open spec fn split_segs(s: Seq<u8>) -> Seq<Seq<u8>>
    decreases s.len(),
{
    if s.len() == 0 {
        seq![Seq::<u8>::empty()]
    } else {
        let rest = split_segs(s.drop_first());
        if s[0] == 47 {
            seq![Seq::<u8>::empty()] + rest
        } else {
            seq![seq![s[0]] + rest[0]] + rest.drop_first()
        }
    }
}

pub proof fn lemma_split_segs_len(s: Seq<u8>)
    ensures
        split_segs(s).len() >= 1,
    decreases s.len(),
{
    if s.len() > 0 {
        lemma_split_segs_len(s.drop_first());
    }
}

/// The segments of a request path: one leading `/` does not open an empty
/// first segment.
pub open spec fn path_segs(p: Seq<u8>) -> Seq<Seq<u8>> {
    if p.len() > 0 && p[0] == 47 {
        split_segs(p.drop_first())
    } else {
        split_segs(p)
    }
}

/// Whether one pattern segment accepts one path segment.
pub open spec fn seg_matches(s: Segment, seg: Seq<u8>) -> bool {
    match s {
        Segment::Literal(l) => l@ == seg,
        Segment::Param(_) => true,
    }
}

/// Whether a pattern accepts a segment list: equal length, literals match
/// exactly, named parameters match any segment.
pub open spec fn pattern_matches(pat: Seq<Segment>, segs: Seq<Seq<u8>>) -> bool {
    &&& pat.len() == segs.len()
    &&& forall|i: int| 0 <= i < pat.len() ==> seg_matches(#[trigger] pat[i], segs[i])
}

/// The (name, value) captures of the named segments, in pattern order.
pub open spec fn captures_of(pat: Seq<Segment>, segs: Seq<Seq<u8>>) -> Seq<(Seq<u8>, Seq<u8>)>
    decreases pat.len(),
{
    if pat.len() == 0 {
        Seq::empty()
    } else {
        let rest = captures_of(pat.drop_first(), segs.drop_first());
        match pat[0] {
            Segment::Param(n) => seq![(n@, segs[0])] + rest,
            Segment::Literal(_) => rest,
        }
    }
}

pub proof fn lemma_captures_snoc(pat: Seq<Segment>, segs: Seq<Seq<u8>>, p: Segment, v: Seq<u8>)
    requires
        pat.len() == segs.len(),
    ensures
        captures_of(pat.push(p), segs.push(v)) == captures_of(pat, segs) + (match p {
            Segment::Param(n) => seq![(n@, v)],
            Segment::Literal(_) => Seq::<(Seq<u8>, Seq<u8>)>::empty(),
        }),
    decreases pat.len(),
{
    let tp = pat.push(p);
    let ts = segs.push(v);
    if pat.len() == 0 {
        assert(tp.drop_first() =~= Seq::<Segment>::empty());
        assert(ts.drop_first() =~= Seq::<Seq<u8>>::empty());
        assert(tp[0] == p);
        assert(ts[0] == v);
        assert(captures_of(Seq::<Segment>::empty(), Seq::<Seq<u8>>::empty()) == Seq::<(
            Seq<u8>,
            Seq<u8>,
        )>::empty());
        assert(captures_of(pat, segs) == Seq::<(Seq<u8>, Seq<u8>)>::empty());
        match p {
            Segment::Param(n) => {
                assert(captures_of(tp, ts) =~~= captures_of(pat, segs) + seq![(n@, v)]);
            },
            Segment::Literal(_) => {
                assert(captures_of(tp, ts) =~~= captures_of(pat, segs) + Seq::<(
                    Seq<u8>,
                    Seq<u8>,
                )>::empty());
            },
        }
    } else {
        assert(tp.drop_first() =~= pat.drop_first().push(p));
        assert(ts.drop_first() =~= segs.drop_first().push(v));
        lemma_captures_snoc(pat.drop_first(), segs.drop_first(), p, v);
        assert(tp[0] == pat[0]);
        assert(ts[0] == segs[0]);
        match p {
            Segment::Param(n) => {
                assert(captures_of(tp, ts) =~~= captures_of(pat, segs) + seq![(n@, v)]);
            },
            Segment::Literal(_) => {
                assert(captures_of(tp, ts) =~~= captures_of(pat, segs) + Seq::<(
                    Seq<u8>,
                    Seq<u8>,
                )>::empty());
            },
        }
    }
}

/// Whether two pattern segments are byte-identical.
pub open spec fn seg_eq(a: Segment, b: Segment) -> bool {
    match (a, b) {
        (Segment::Literal(x), Segment::Literal(y)) => x@ == y@,
        (Segment::Param(x), Segment::Param(y)) => x@ == y@,
        _ => false,
    }
}

/// Whether two patterns are byte-identical.
pub open spec fn pattern_eq(a: Seq<Segment>, b: Seq<Segment>) -> bool {
    &&& a.len() == b.len()
    &&& forall|i: int| 0 <= i < a.len() ==> seg_eq(#[trigger] a[i], b[i])
}

/// Whether a route accepts (method, segments).
pub open spec fn route_matches(r: Route, m: Method, segs: Seq<Seq<u8>>) -> bool {
    r.method == m && pattern_matches(r.pattern@, segs)
}

/// The index of the earliest-registered route that accepts the request.
pub open spec fn first_match(routes: Seq<Route>, m: Method, segs: Seq<Seq<u8>>) -> Option<int>
    decreases routes.len(),
{
    if routes.len() == 0 {
        None
    } else if route_matches(routes[0], m, segs) {
        Some(0)
    } else {
        match first_match(routes.drop_first(), m, segs) {
            Some(i) => Some(i + 1),
            None => None,
        }
    }
}

/// `first_match` returns exactly the least matching index.
pub proof fn lemma_first_match_char(routes: Seq<Route>, m: Method, segs: Seq<Seq<u8>>)
    ensures
        match first_match(routes, m, segs) {
            Some(i) => 0 <= i < routes.len() && route_matches(routes[i], m, segs) && forall|j: int|
                0 <= j < i ==> !route_matches(#[trigger] routes[j], m, segs),
            None => forall|j: int|
                0 <= j < routes.len() ==> !route_matches(#[trigger] routes[j], m, segs),
        },
    decreases routes.len(),
{
    if routes.len() > 0 {
        lemma_first_match_char(routes.drop_first(), m, segs);
        if !route_matches(routes[0], m, segs) {
            match first_match(routes.drop_first(), m, segs) {
                Some(i) => {
                    assert(routes.drop_first()[i] == routes[i + 1]);
                    assert forall|j: int| 0 <= j < i + 1 implies !route_matches(
                        #[trigger] routes[j],
                        m,
                        segs,
                    ) by {
                        if j > 0 {
                            assert(routes.drop_first()[j - 1] == routes[j]);
                        }
                    }
                },
                None => {
                    assert forall|j: int| 0 <= j < routes.len() implies !route_matches(
                        #[trigger] routes[j],
                        m,
                        segs,
                    ) by {
                        if j > 0 {
                            assert(routes.drop_first()[j - 1] == routes[j]);
                        }
                    }
                },
            }
        }
    }
}

/// What `resolve` returns: the route (by registration index) and its
/// captures, or no match.
pub enum Resolution {
    Found { index: usize, params: Vec<(Vec<u8>, Vec<u8>)> },
    NoMatch,
}

/// Splits a request path into segments: one leading `/` is dropped, then
/// every `/` separates two segments.
#[verifier::loop_isolation(false)]
pub fn split_path(path: &Vec<u8>) -> (segs: Vec<Vec<u8>>)
    ensures
        views_of(segs@) == path_segs(path@),
{
    let start: usize = if path.len() > 0 && path[0] == 47 {
        1
    } else {
        0
    };
    let mut segs: Vec<Vec<u8>> = Vec::new();
    segs.push(Vec::new());
    let mut i: usize = path.len();
    proof {
        assert(path@.subrange(i as int, path@.len() as int) =~= Seq::<u8>::empty());
        assert(views_of(segs@) =~= seq![Seq::<u8>::empty()]);
    }
    while i > start
        invariant
            start <= i <= path.len(),
            views_of(segs@) == split_segs(
                path@.subrange(i as int, path@.len() as int),
            ),
            segs@.len() >= 1,
        decreases i,
    {
        let ghost pre = path@.subrange(i as int, path@.len() as int);
        let ghost cur = path@.subrange(i as int - 1, path@.len() as int);
        proof {
            assert(cur[0] == path@[i as int - 1]);
            assert(cur.drop_first() =~= pre);
            lemma_split_segs_len(pre);
        }
        let b = path[i - 1];
        if b == 47 {
            let e: Vec<u8> = Vec::new();
            segs.insert(0, e);
            proof {
                assert(views_of(segs@) =~= seq![Seq::<u8>::empty()]
                    + split_segs(pre));
            }
        } else {
            let mut first = segs.remove(0);
            first.insert(0, b);
            segs.insert(0, first);
            proof {
                assert(views_of(segs@) =~~= seq![seq![cur[0]] + split_segs(
                    pre,
                )[0]] + split_segs(pre).drop_first());
            }
        }
        i -= 1;
    }
    proof {
        if start == 1 {
            assert(path@.subrange(1, path@.len() as int) =~= path@.drop_first());
        } else {
            assert(path@.subrange(0, path@.len() as int) =~= path@);
        }
    }
    segs
}

/// Matches one pattern against split segments, returning the captures when
/// it accepts.
#[verifier::loop_isolation(false)]
pub fn match_pattern(pat: &Vec<Segment>, segs: &Vec<Vec<u8>>) -> (r: Option<
    Vec<(Vec<u8>, Vec<u8>)>,
>)
    ensures
        r is Some <==> pattern_matches(pat@, views_of(segs@)),
        match r {
            Some(ps) => pairs_views(ps@) == captures_of(
                pat@,
                views_of(segs@),
            ),
            None => true,
        },
{
    let ghost sv = views_of(segs@);
    if pat.len() != segs.len() {
        return None;
    }
    let mut params: Vec<(Vec<u8>, Vec<u8>)> = Vec::new();
    let mut i: usize = 0;
    proof {
        assert(pat@.take(0) =~= Seq::<Segment>::empty());
        assert(sv.take(0) =~= Seq::<Seq<u8>>::empty());
        assert(pairs_views(params@) =~= captures_of(pat@.take(0), sv.take(0)));
    }
    while i < pat.len()
        invariant
            i <= pat.len(),
            forall|j: int| 0 <= j < i ==> seg_matches(#[trigger] pat@[j], sv[j]),
            pairs_views(params@) == captures_of(pat@.take(i as int), sv.take(i as int)),
        decreases pat.len() - i,
    {
        let ghost pre_params = params@;
        match &pat[i] {
            Segment::Literal(l) => {
                if !bytes_eq(l, &segs[i]) {
                    proof {
                        assert(!seg_matches(pat@[i as int], sv[i as int]));
                    }
                    return None;
                }
            },
            Segment::Param(n) => {
                let name = copy_bytes(n);
                let value = copy_bytes(&segs[i]);
                params.push((name, value));
            },
        }
        proof {
            lemma_captures_snoc(pat@.take(i as int), sv.take(i as int), pat@[i as int], sv[i as int]);
            assert(pat@.take(i as int + 1) =~= pat@.take(i as int).push(pat@[i as int]));
            assert(sv.take(i as int + 1) =~= sv.take(i as int).push(sv[i as int]));
            match pat@[i as int] {
                Segment::Param(n) => {
                    assert(pairs_views(params@) =~= pairs_views(pre_params).push((n@, sv[i as int])));
                    assert(captures_of(pat@.take(i as int + 1), sv.take(i as int + 1))
                        =~= captures_of(pat@.take(i as int), sv.take(i as int)).push((
                        n@,
                        sv[i as int],
                    )));
                },
                Segment::Literal(_) => {
                    assert(captures_of(pat@.take(i as int + 1), sv.take(i as int + 1))
                        =~= captures_of(pat@.take(i as int), sv.take(i as int)));
                },
            }
        }
        i += 1;
    }
    proof {
        assert(pat@.take(pat@.len() as int) =~= pat@);
        assert(sv.take(sv.len() as int) =~= sv);
    }
    Some(params)
}

/// Whether two patterns hold the same segments, byte for byte.
#[verifier::loop_isolation(false)]
pub fn patterns_eq(a: &Vec<Segment>, b: &Vec<Segment>) -> (r: bool)
    ensures
        r == pattern_eq(a@, b@),
{
    if a.len() != b.len() {
        return false;
    }
    let mut i: usize = 0;
    while i < a.len()
        invariant
            i <= a.len(),
            a@.len() == b@.len(),
            forall|j: int| 0 <= j < i ==> seg_eq(#[trigger] a@[j], b@[j]),
        decreases a.len() - i,
    {
        let same = match (&a[i], &b[i]) {
            (Segment::Literal(x), Segment::Literal(y)) => bytes_eq(x, y),
            (Segment::Param(x), Segment::Param(y)) => bytes_eq(x, y),
            _ => false,
        };
        if !same {
            proof {
                assert(!seg_eq(a@[i as int], b@[i as int]));
            }
            return false;
        }
        i += 1;
    }
    true
}

/// The router: routes in registration order, and the fallback body served
/// for an unmatched GET path.
pub struct Router {
    pub routes: Vec<Route>,
    pub fallback: Vec<u8>,
}

impl Router {
    /// A router with no routes and the given not-found fallback body.
    pub fn new(fallback: Vec<u8>) -> (r: Self)
        ensures
            r.routes@.len() == 0,
            r.fallback@ == fallback@,
    {
        Router { routes: Vec::new(), fallback }
    }

    /// Appends a route, unless a byte-identical (method, pattern) route was
    /// already registered.
    #[verifier::loop_isolation(false)]
    pub fn register(&mut self, method: Method, pattern: Vec<Segment>, handler: Handler) -> (r:
        Result<(), RegisterError>)
        ensures
            (exists|j: int|
                0 <= j < old(self).routes@.len() && (#[trigger] old(self).routes@[j]).method
                    == method && pattern_eq(old(self).routes@[j].pattern@, pattern@)) <==> r
                is Err,
            r is Err ==> *final(self) == *old(self),
            r is Ok ==> {
                &&& final(self).routes@.len() == old(self).routes@.len() + 1
                &&& final(self).routes@.subrange(0, old(self).routes@.len() as int) == old(
                    self,
                ).routes@
                &&& final(self).routes@.last().method == method
                &&& final(self).routes@.last().pattern@ == pattern@
                &&& final(self).routes@.last().handler == handler
                &&& final(self).fallback@ == old(self).fallback@
            },
    {
        let n = self.routes.len();
        let mut i: usize = 0;
        while i < n
            invariant
                n == self.routes@.len(),
                i <= n,
                *self == *old(self),
                forall|j: int|
                    0 <= j < i ==> !((#[trigger] self.routes@[j]).method == method && pattern_eq(
                        self.routes@[j].pattern@,
                        pattern@,
                    )),
            decreases n - i,
        {
            if self.routes[i].method == method && patterns_eq(&self.routes[i].pattern, &pattern) {
                return Err(RegisterError::Conflict);
            }
            i += 1;
        }
        self.routes.push(Route { method, pattern, handler });
        proof {
            assert(final(self).routes@.subrange(0, old(self).routes@.len() as int) =~= old(
                self,
            ).routes@);
        }
        Ok(())
    }

    /// Splits the path and walks the routes in registration order; the
    /// earliest route whose pattern accepts the segments wins, and its
    /// named captures are returned in pattern order.
    #[verifier::loop_isolation(false)]
    pub fn resolve(&self, method: Method, path: &Vec<u8>) -> (r: Resolution)
        ensures
            match r {
                Resolution::Found { index, params } => {
                    &&& first_match(self.routes@, method, path_segs(path@)) == Some(index as int)
                    &&& index < self.routes@.len()
                    &&& route_matches(self.routes@[index as int], method, path_segs(path@))
                    &&& forall|j: int|
                        0 <= j < index ==> !route_matches(
                            #[trigger] self.routes@[j],
                            method,
                            path_segs(path@),
                        )
                    &&& pairs_views(params@) == captures_of(
                        self.routes@[index as int].pattern@,
                        path_segs(path@),
                    )
                },
                Resolution::NoMatch => {
                    &&& first_match(self.routes@, method, path_segs(path@)) is None
                    &&& forall|j: int|
                        0 <= j < self.routes@.len() ==> !route_matches(
                            #[trigger] self.routes@[j],
                            method,
                            path_segs(path@),
                        )
                },
            },
    {
        let segs = split_path(path);
        let ghost sv = path_segs(path@);
        let n = self.routes.len();
        let mut i: usize = 0;
        while i < n
            invariant
                n == self.routes@.len(),
                views_of(segs@) == sv,
                i <= n,
                forall|j: int| 0 <= j < i ==> !route_matches(#[trigger] self.routes@[j], method, sv),
            decreases n - i,
        {
            if self.routes[i].method == method {
                match match_pattern(&self.routes[i].pattern, &segs) {
                    Some(params) => {
                        proof {
                            lemma_first_match_char(self.routes@, method, sv);
                            match first_match(self.routes@, method, sv) {
                                Some(k) => {
                                    if k < i {
                                        assert(route_matches(self.routes@[k], method, sv));
                                        assert(false);
                                    }
                                    if k > i {
                                        assert(route_matches(self.routes@[i as int], method, sv));
                                        assert(false);
                                    }
                                },
                                None => {
                                    assert(route_matches(self.routes@[i as int], method, sv));
                                    assert(false);
                                },
                            }
                        }
                        return Resolution::Found { index: i, params };
                    },
                    None => {},
                }
            }
            i += 1;
        }
        proof {
            lemma_first_match_char(self.routes@, method, sv);
            match first_match(self.routes@, method, sv) {
                Some(k) => {
                    assert(!route_matches(self.routes@[k], method, sv));
                    assert(false);
                },
                None => {},
            }
        }
        Resolution::NoMatch
    }
}

} // verus!

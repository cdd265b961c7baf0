//! The session store: a process-wide map from session id to a small
//! key-value bag of integers, with request-scoped handles. A handle is
//! loaded from a cookie, mutated through `get`/`set`, and written back by
//! `finalize`, which re-issues a cookie only when the handle is dirty.

use vstd::prelude::*;
use crate::bytesutil::{append_bytes, bytes_eq};

verus! {

/// A bag of bindings as byte-sequence keys, most recent binding first.
pub open spec fn bag_views(d: Seq<(Vec<u8>, i64)>) -> Seq<(Seq<u8>, i64)> {
    d.map_values(|p: (Vec<u8>, i64)| (p.0@, p.1))
}

/// The value bound to `k`: the first (most recent) binding wins.
pub open spec fn bag_lookup(d: Seq<(Seq<u8>, i64)>, k: Seq<u8>) -> Option<i64>
    decreases d.len(),
{
    if d.len() == 0 {
        None
    } else if d[0].0 == k {
        Some(d[0].1)
    } else {
        bag_lookup(d.drop_first(), k)
    }
}

/// One stored session: its id and its data bag.
pub struct SessionEntry {
    pub id: u64,
    pub data: Vec<(Vec<u8>, i64)>,
}

/// The process-wide store. Ids are handed out from `next_id`, so every
/// stored id is below it and no two entries share an id.
pub struct SessionStore {
    pub sessions: Vec<SessionEntry>,
    pub next_id: u64,
}

/// A request-scoped view of one session: mutations stay in the handle until
/// `finalize` persists them.
pub struct SessionHandle {
    pub id: u64,
    pub data: Vec<(Vec<u8>, i64)>,
    pub dirty: bool,
}

/// The data bag stored under `id`, if any.
pub open spec fn store_lookup(s: Seq<SessionEntry>, id: u64) -> Option<Seq<(Seq<u8>, i64)>>
    decreases s.len(),
{
    if s.len() == 0 {
        None
    } else if s[0].id == id {
        Some(bag_views(s[0].data@))
    } else {
        store_lookup(s.drop_first(), id)
    }
}

pub proof fn lemma_store_lookup_at(s: Seq<SessionEntry>, i: int, id: u64)
    requires
        0 <= i < s.len(),
        s[i].id == id,
        forall|j: int| 0 <= j < i ==> s[j].id != id,
    ensures
        store_lookup(s, id) == Some(bag_views(s[i].data@)),
    decreases i,
{
    if i > 0 {
        lemma_store_lookup_at(s.drop_first(), i - 1, id);
    }
}

pub proof fn lemma_store_lookup_absent(s: Seq<SessionEntry>, id: u64)
    requires
        forall|j: int| 0 <= j < s.len() ==> s[j].id != id,
    ensures
        store_lookup(s, id) is None,
    decreases s.len(),
{
    if s.len() > 0 {
        lemma_store_lookup_absent(s.drop_first(), id);
    }
}

pub proof fn lemma_store_lookup_update(s: Seq<SessionEntry>, i: int, e: SessionEntry)
    requires
        0 <= i < s.len(),
        s[i].id == e.id,
        forall|j: int| 0 <= j < i ==> s[j].id != e.id,
    ensures
        store_lookup(s.update(i, e), e.id) == Some(bag_views(e.data@)),
        forall|other: u64|
            other != e.id ==> store_lookup(s.update(i, e), other) == store_lookup(s, other),
    decreases i,
{
    let t = s.update(i, e);
    if i == 0 {
        assert(t[0] == e);
        assert forall|other: u64| other != e.id implies store_lookup(t, other) == store_lookup(
            s,
            other,
        ) by {
            assert(t.drop_first() =~= s.drop_first());
        }
    } else {
        assert(t.drop_first() =~= s.drop_first().update(i - 1, e));
        lemma_store_lookup_update(s.drop_first(), i - 1, e);
        assert(t[0] == s[0]);
        assert(store_lookup(t, e.id) == Some(bag_views(e.data@)));
        assert forall|other: u64| other != e.id implies store_lookup(t, other) == store_lookup(
            s,
            other,
        ) by {
            assert(store_lookup(t.drop_first(), other) == store_lookup(s.drop_first(), other));
        }
    }
}

pub proof fn lemma_store_lookup_push(s: Seq<SessionEntry>, e: SessionEntry)
    requires
        forall|j: int| 0 <= j < s.len() ==> s[j].id != e.id,
    ensures
        store_lookup(s.push(e), e.id) == Some(bag_views(e.data@)),
        forall|other: u64|
            other != e.id ==> store_lookup(s.push(e), other) == store_lookup(s, other),
    decreases s.len(),
{
    let t = s.push(e);
    if s.len() == 0 {
        assert(t[0] == e);
        assert forall|other: u64| other != e.id implies store_lookup(t, other) == store_lookup(
            s,
            other,
        ) by {
            assert(t.drop_first() =~= Seq::<SessionEntry>::empty());
            assert(store_lookup(t, other) == store_lookup(t.drop_first(), other));
            assert(store_lookup(Seq::<SessionEntry>::empty(), other) is None);
        }
    } else {
        assert(t.drop_first() =~= s.drop_first().push(e));
        lemma_store_lookup_push(s.drop_first(), e);
        assert(t[0] == s[0]);
        assert forall|other: u64| other != e.id implies store_lookup(t, other) == store_lookup(
            s,
            other,
        ) by {
            assert(store_lookup(t.drop_first(), other) == store_lookup(s.drop_first(), other));
        }
    }
}

/// Whether the cookie names a session the store knows.
pub open spec fn cookie_known(s: SessionStore, cookie: Option<u64>) -> bool {
    match cookie {
        Some(id) => store_lookup(s.sessions@, id) is Some,
        None => false,
    }
}

/// The session id a request with this cookie runs under: the cookie's own id
/// when the store knows it, else a freshly allocated one.
pub open spec fn load_id(s: SessionStore, cookie: Option<u64>) -> u64 {
    match cookie {
        Some(id) => if store_lookup(s.sessions@, id) is Some {
            id
        } else {
            s.next_id
        },
        None => s.next_id,
    }
}

/// The data bag such a request starts from: the stored bag, or an empty one
/// for a fresh session.
pub open spec fn load_bag(s: SessionStore, cookie: Option<u64>) -> Seq<(Seq<u8>, i64)> {
    match cookie {
        Some(id) => match store_lookup(s.sessions@, id) {
            Some(d) => d,
            None => Seq::empty(),
        },
        None => Seq::empty(),
    }
}

/// Copies a byte vector.
pub fn copy_bytes(src: &Vec<u8>) -> (r: Vec<u8>)
    ensures
        r@ == src@,
{
    let mut v: Vec<u8> = Vec::new();
    append_bytes(&mut v, src);
    proof {
        assert(v@ =~= src@);
    }
    v
}

/// Copies a data bag.
#[verifier::loop_isolation(false)]
fn copy_bag(src: &Vec<(Vec<u8>, i64)>) -> (r: Vec<(Vec<u8>, i64)>)
    ensures
        bag_views(r@) == bag_views(src@),
{
    let mut v: Vec<(Vec<u8>, i64)> = Vec::new();
    let mut i: usize = 0;
    while i < src.len()
        invariant
            i <= src.len(),
            v@.len() == i,
            forall|k: int|
                0 <= k < i ==> (#[trigger] v@[k]).0@ == src@[k].0@ && v@[k].1 == src@[k].1,
        decreases src.len() - i,
    {
        let key = copy_bytes(&src[i].0);
        let value = src[i].1;
        v.push((key, value));
        i += 1;
    }
    proof {
        assert(bag_views(v@) =~= bag_views(src@));
    }
    v
}

impl SessionHandle {
    /// The handle's bag as byte sequences.
    pub open spec fn bag(&self) -> Seq<(Seq<u8>, i64)> {
        bag_views(self.data@)
    }

    /// The value stored under `key`, if any.
    #[verifier::loop_isolation(false)]
    pub fn get(&self, key: &Vec<u8>) -> (r: Option<i64>)
        ensures
            r == bag_lookup(self.bag(), key@),
    {
        let mut i: usize = 0;
        proof {
            assert(self.bag().skip(0) =~= self.bag());
        }
        while i < self.data.len()
            invariant
                i <= self.data.len(),
                bag_lookup(self.bag(), key@) == bag_lookup(self.bag().skip(i as int), key@),
            decreases self.data.len() - i,
        {
            proof {
                assert(self.bag().skip(i as int)[0] == self.bag()[i as int]);
            }
            if bytes_eq(&self.data[i].0, key) {
                return Some(self.data[i].1);
            }
            proof {
                assert(self.bag().skip(i as int).drop_first() =~= self.bag().skip(i as int + 1));
            }
            i += 1;
        }
        proof {
            assert(self.bag().skip(self.data@.len() as int) =~= Seq::<(Seq<u8>, i64)>::empty());
        }
        None
    }

    /// Binds `key` to `value` in the handle and marks it dirty.
    pub fn set(&mut self, key: &Vec<u8>, value: i64)
        ensures
            final(self).id == old(self).id,
            final(self).dirty,
            bag_lookup(final(self).bag(), key@) == Some(value),
            forall|k: Seq<u8>|
                k != key@ ==> bag_lookup(final(self).bag(), k) == bag_lookup(old(self).bag(), k),
    {
        let k = copy_bytes(key);
        self.data.insert(0, (k, value));
        self.dirty = true;
        proof {
            assert(self.bag() =~= seq![(key@, value)] + old(self).bag());
            assert(self.bag()[0] == (key@, value));
            assert(self.bag().drop_first() =~= old(self).bag());
        }
    }
}

impl SessionStore {
    /// Every stored id came from `next_id`, and ids are unique.
    pub open spec fn wf(&self) -> bool {
        &&& forall|i: int|
            0 <= i < self.sessions@.len() ==> (#[trigger] self.sessions@[i]).id < self.next_id
        &&& forall|i: int, j: int|
            0 <= i < j < self.sessions@.len() ==> self.sessions@[i].id != self.sessions@[j].id
    }

    /// A store with no id ever handed out.
    pub fn new() -> (s: Self)
        ensures
            s.wf(),
            s.sessions@.len() == 0,
            s.next_id == 1,
    {
        SessionStore { sessions: Vec::new(), next_id: 1 }
    }

    /// A store that knows no session under its own `next_id`.
    pub proof fn lemma_next_id_fresh(&self)
        requires
            self.wf(),
        ensures
            store_lookup(self.sessions@, self.next_id) is None,
    {
        lemma_store_lookup_absent(self.sessions@, self.next_id);
    }

    /// Opens the session the cookie names, or a fresh one when the cookie is
    /// absent or unknown. The store itself only advances `next_id`.
    #[verifier::loop_isolation(false)]
    pub fn load(&mut self, cookie: Option<u64>) -> (h: SessionHandle)
        requires
            old(self).wf(),
            old(self).next_id < u64::MAX,
        ensures
            final(self).wf(),
            final(self).sessions@ == old(self).sessions@,
            final(self).next_id == if cookie_known(*old(self), cookie) {
                old(self).next_id
            } else {
                (old(self).next_id + 1) as u64
            },
            !h.dirty,
            h.id == load_id(*old(self), cookie),
            h.bag() == load_bag(*old(self), cookie),
            h.id < final(self).next_id,
    {
        match cookie {
            Some(id) => {
                let n = self.sessions.len();
                let mut i: usize = 0;
                while i < n
                    invariant
                        n == self.sessions@.len(),
                        i <= n,
                        forall|j: int| 0 <= j < i ==> (#[trigger] self.sessions@[j]).id != id,
                        *self == *old(self),
                    decreases n - i,
                {
                    if self.sessions[i].id == id {
                        proof {
                            lemma_store_lookup_at(self.sessions@, i as int, id);
                        }
                        let data = copy_bag(&self.sessions[i].data);
                        return SessionHandle { id, data, dirty: false };
                    }
                    i += 1;
                }
                proof {
                    lemma_store_lookup_absent(self.sessions@, id);
                }
                let fresh = self.next_id;
                self.next_id = self.next_id + 1;
                SessionHandle { id: fresh, data: Vec::new(), dirty: false }
            },
            None => {
                let fresh = self.next_id;
                self.next_id = self.next_id + 1;
                SessionHandle { id: fresh, data: Vec::new(), dirty: false }
            },
        }
    }

    /// Persists a dirty handle and re-issues its cookie; a clean handle
    /// leaves the store untouched and the client's cookie as it was.
    #[verifier::loop_isolation(false)]
    pub fn finalize(&mut self, h: SessionHandle) -> (cookie: Option<u64>)
        requires
            old(self).wf(),
            h.id < old(self).next_id,
        ensures
            final(self).wf(),
            final(self).next_id == old(self).next_id,
            !h.dirty ==> cookie is None && final(self).sessions@ == old(self).sessions@,
            h.dirty ==> {
                &&& cookie == Some(h.id)
                &&& store_lookup(final(self).sessions@, h.id) == Some(h.bag())
                &&& forall|other: u64|
                    other != h.id ==> store_lookup(final(self).sessions@, other) == store_lookup(
                        old(self).sessions@,
                        other,
                    )
            },
    {
        if !h.dirty {
            return None;
        }
        let id = h.id;
        let entry = SessionEntry { id, data: h.data };
        let n = self.sessions.len();
        let mut i: usize = 0;
        while i < n
            invariant
                n == self.sessions@.len(),
                i <= n,
                forall|j: int| 0 <= j < i ==> (#[trigger] self.sessions@[j]).id != id,
                *self == *old(self),
                entry.id == id,
                bag_views(entry.data@) == h.bag(),
            decreases n - i,
        {
            if self.sessions[i].id == id {
                proof {
                    lemma_store_lookup_update(self.sessions@, i as int, entry);
                }
                self.sessions[i] = entry;
                return Some(id);
            }
            i += 1;
        }
        proof {
            lemma_store_lookup_push(self.sessions@, entry);
        }
        self.sessions.push(entry);
        Some(id)
    }
}

/// A client without a cookie runs under a session id the store has never
/// handed out; once some later store knows that id (the first request's
/// `finalize` persisted it), every request presenting it as a cookie runs
/// under exactly that id again.
pub proof fn lemma_fresh_then_stable(s0: SessionStore, s1: SessionStore)
    requires
        s0.wf(),
        store_lookup(s1.sessions@, load_id(s0, None)) is Some,
    ensures
        store_lookup(s0.sessions@, load_id(s0, None)) is None,
        load_id(s1, Some(load_id(s0, None))) == load_id(s0, None),
{
    s0.lemma_next_id_fresh();
}

/// One atomic step of the visit counter: the increment saturates at the
/// largest storable value instead of wrapping.
pub open spec fn bump(v: i64) -> i64 {
    if v == i64::MAX {
        i64::MAX
    } else {
        (v + 1) as i64
    }
}

/// The counter read by the session-mutating handler: absent means zero.
pub open spec fn counter_of(d: Seq<(Seq<u8>, i64)>, key: Seq<u8>) -> i64 {
    match bag_lookup(d, key) {
        Some(v) => v,
        None => 0,
    }
}

} // verus!

//! Byte-sequence helpers shared by the router, the handlers and the response
//! writer: equality, concatenation, separator joins and decimal rendering.

use vstd::prelude::*;

verus! {

/// The byte sequences a sequence of byte vectors holds.
pub open spec fn views_of(vs: Seq<Vec<u8>>) -> Seq<Seq<u8>> {
    vs.map_values(|v: Vec<u8>| v@)
}

/// The byte-sequence pairs a sequence of byte-vector pairs holds.
pub open spec fn pairs_views(ps: Seq<(Vec<u8>, Vec<u8>)>) -> Seq<(Seq<u8>, Seq<u8>)> {
    ps.map_values(|p: (Vec<u8>, Vec<u8>)| (p.0@, p.1@))
}

/// Concatenation of a sequence of chunks, in order.
pub open spec fn cat(chunks: Seq<Seq<u8>>) -> Seq<u8>
    decreases chunks.len(),
{
    if chunks.len() == 0 {
        Seq::empty()
    } else {
        chunks[0] + cat(chunks.drop_first())
    }
}

pub proof fn lemma_cat_push(chunks: Seq<Seq<u8>>, c: Seq<u8>)
    ensures
        cat(chunks.push(c)) == cat(chunks) + c,
    decreases chunks.len(),
{
    let s = chunks.push(c);
    assert(cat(s) == s[0] + cat(s.drop_first()));
    if chunks.len() == 0 {
        assert(s.drop_first() =~= Seq::<Seq<u8>>::empty());
        assert(cat(Seq::<Seq<u8>>::empty()) == Seq::<u8>::empty());
        assert(cat(chunks.push(c)) =~= cat(chunks) + c);
    } else {
        assert(s.drop_first() =~= chunks.drop_first().push(c));
        lemma_cat_push(chunks.drop_first(), c);
        assert(cat(chunks) == chunks[0] + cat(chunks.drop_first()));
        assert(s[0] == chunks[0]);
        assert(cat(chunks.push(c)) =~= cat(chunks) + c);
    }
}

/// The parts joined with `sep` between consecutive parts.
pub open spec fn join_sep(parts: Seq<Seq<u8>>, sep: Seq<u8>) -> Seq<u8>
    decreases parts.len(),
{
    if parts.len() == 0 {
        Seq::empty()
    } else if parts.len() == 1 {
        parts[0]
    } else {
        parts[0] + sep + join_sep(parts.drop_first(), sep)
    }
}

pub proof fn lemma_join_sep_push(parts: Seq<Seq<u8>>, sep: Seq<u8>, last: Seq<u8>)
    requires
        parts.len() > 0,
    ensures
        join_sep(parts.push(last), sep) == join_sep(parts, sep) + sep + last,
    decreases parts.len(),
{
    let s = parts.push(last);
    assert(join_sep(s, sep) == s[0] + sep + join_sep(s.drop_first(), sep));
    if parts.len() == 1 {
        assert(s.drop_first() =~= seq![last]);
        assert(join_sep(seq![last], sep) == last);
        assert(join_sep(parts.push(last), sep) =~= join_sep(parts, sep) + sep + last);
    } else {
        assert(s.drop_first() =~= parts.drop_first().push(last));
        lemma_join_sep_push(parts.drop_first(), sep, last);
        assert(join_sep(parts, sep) == parts[0] + sep + join_sep(parts.drop_first(), sep));
        assert(s[0] == parts[0]);
        assert(join_sep(parts.push(last), sep) =~= join_sep(parts, sep) + sep + last);
    }
}

/// Whether two byte vectors hold the same bytes.
pub fn bytes_eq(a: &Vec<u8>, b: &Vec<u8>) -> (r: bool)
    ensures
        r == (a@ == b@),
{
    let r = a == b;
    proof {
        if r {
            assert(a@ =~= b@);
        } else {
            if a@ == b@ {
                assert(forall|i: int| 0 <= i < a@.len() ==> a@[i] == b@[i]);
            }
        }
    }
    r
}

/// Appends all of `src` to `dst`.
pub fn append_bytes(dst: &mut Vec<u8>, src: &Vec<u8>)
    ensures
        final(dst)@ == old(dst)@ + src@,
{
    let mut i: usize = 0;
    while i < src.len()
        invariant
            i <= src.len(),
            dst@ == old(dst)@ + src@.take(i as int),
        decreases src.len() - i,
    {
        dst.push(src[i]);
        proof {
            assert(old(dst)@ + src@.take(i as int + 1) =~= (old(dst)@ + src@.take(i as int)).push(
                src@[i as int],
            ));
        }
        i += 1;
    }
    proof {
        assert(src@.take(src@.len() as int) =~= src@);
    }
}

/// The decimal digits of `n`, most significant first.
pub open spec fn dec_nat(n: nat) -> Seq<u8>
    decreases n,
{
    if n < 10 {
        seq![(48 + n) as u8]
    } else {
        dec_nat(n / 10).push((48 + n % 10) as u8)
    }
}

/// The decimal rendering of an integer: a leading minus sign when negative.
pub open spec fn dec_int(n: int) -> Seq<u8> {
    if n >= 0 {
        dec_nat(n as nat)
    } else {
        seq![45u8] + dec_nat((-n) as nat)
    }
}

pub fn u64_dec(n: u64) -> (r: Vec<u8>)
    ensures
        r@ == dec_nat(n as nat),
    decreases n,
{
    if n < 10 {
        let mut v: Vec<u8> = Vec::new();
        v.push((48 + n) as u8);
        v
    } else {
        let mut v = u64_dec(n / 10);
        v.push(48 + (n % 10) as u8);
        v
    }
}

pub fn i64_dec(n: i64) -> (r: Vec<u8>)
    ensures
        r@ == dec_int(n as int),
{
    if n >= 0 {
        u64_dec(n as u64)
    } else {
        let wide: i128 = -(n as i128);
        assert(0 < wide <= u64::MAX);
        let mag: u64 = wide as u64;
        let mut v: Vec<u8> = Vec::new();
        v.push(45);
        let digits = u64_dec(mag);
        append_bytes(&mut v, &digits);
        proof {
            assert(v@ =~= dec_int(n as int));
        }
        v
    }
}

} // verus!

//! The byte-level snapshot codec: a little-endian, length-prefixed binary
//! form for every part of the state projection, written and read by
//! verified functions, with a proved round trip.

use vstd::prelude::*;
use vstd::bytes::{
    spec_u128_from_le_bytes, spec_u128_to_le_bytes, spec_u64_from_le_bytes, spec_u64_to_le_bytes,
    u128_from_le_bytes, u128_to_le_bytes, u64_from_le_bytes, u64_to_le_bytes,
};
use vstd::slice::slice_subrange;

verus! {

// ---------------------------------------------------------------------------
// Spec encoders for the primitives
// ---------------------------------------------------------------------------

/// A length-prefixed byte string: eight length bytes, then the bytes.
pub open spec fn spec_enc_bytes(s: Seq<u8>) -> Seq<u8> {
    spec_u64_to_le_bytes(s.len() as u64) + s
}

// ---------------------------------------------------------------------------
// Spec decoders for the primitives
// ---------------------------------------------------------------------------

pub open spec fn sdec_u8(s: Seq<u8>, pos: int) -> Option<(u8, int)> {
    if 0 <= pos && pos + 1 <= s.len() {
        Some((s[pos], pos + 1))
    } else {
        None
    }
}

pub open spec fn sdec_u64(s: Seq<u8>, pos: int) -> Option<(u64, int)> {
    if 0 <= pos && pos + 8 <= s.len() {
        Some((spec_u64_from_le_bytes(s.subrange(pos, pos + 8)), pos + 8))
    } else {
        None
    }
}

pub open spec fn sdec_u128(s: Seq<u8>, pos: int) -> Option<(u128, int)> {
    if 0 <= pos && pos + 16 <= s.len() {
        Some((spec_u128_from_le_bytes(s.subrange(pos, pos + 16)), pos + 16))
    } else {
        None
    }
}

pub open spec fn sdec_bytes(s: Seq<u8>, pos: int) -> Option<(Seq<u8>, int)> {
    match sdec_u64(s, pos) {
        Some((n, p)) => {
            if p + n <= s.len() {
                Some((s.subrange(p, p + n), p + n))
            } else {
                None
            }
        },
        None => None,
    }
}

// ---------------------------------------------------------------------------
// Exec writers
// ---------------------------------------------------------------------------

/// Appends the bytes of `b` to `out`.
pub fn write_raw(out: &mut Vec<u8>, b: &Vec<u8>)
    ensures
        final(out)@ == old(out)@ + b@,
{
    let mut i: usize = 0;
    proof {
        assert(out@ =~= old(out)@ + b@.subrange(0, 0));
    }
    while i < b.len()
        invariant
            i <= b@.len(),
            out@ == old(out)@ + b@.subrange(0, i as int),
        decreases b@.len() - i,
    {
        out.push(b[i]);
        proof {
            assert(out@ =~= old(out)@ + b@.subrange(0, i + 1));
        }
        i += 1;
    }
    proof {
        assert(out@ =~= old(out)@ + b@);
    }
}

pub fn write_u8(out: &mut Vec<u8>, x: u8)
    ensures
        final(out)@ == old(out)@ + seq![x],
{
    out.push(x);
    proof {
        assert(out@ =~= old(out)@ + seq![x]);
    }
}

pub fn write_u64(out: &mut Vec<u8>, x: u64)
    ensures
        final(out)@ == old(out)@ + spec_u64_to_le_bytes(x),
{
    let b = u64_to_le_bytes(x);
    write_raw(out, &b);
}

pub fn write_u128(out: &mut Vec<u8>, x: u128)
    ensures
        final(out)@ == old(out)@ + spec_u128_to_le_bytes(x),
{
    let b = u128_to_le_bytes(x);
    write_raw(out, &b);
}

/// Appends the length-prefixed form of `b`.
pub fn write_bytes(out: &mut Vec<u8>, b: &Vec<u8>)
    ensures
        final(out)@ == old(out)@ + spec_enc_bytes(b@),
{
    write_u64(out, b.len() as u64);
    write_raw(out, b);
    proof {
        assert(out@ =~= old(out)@ + spec_enc_bytes(b@));
    }
}

// ---------------------------------------------------------------------------
// Exec readers
// ---------------------------------------------------------------------------

pub fn read_u8(b: &Vec<u8>, pos: usize) -> (r: Option<(u8, usize)>)
    ensures
        match r {
            Some((x, p)) => sdec_u8(b@, pos as int) == Some((x, p as int)),
            None => sdec_u8(b@, pos as int) is None,
        },
{
    if pos < b.len() {
        Some((b[pos], pos + 1))
    } else {
        None
    }
}

pub fn read_u64(b: &Vec<u8>, pos: usize) -> (r: Option<(u64, usize)>)
    ensures
        match r {
            Some((x, p)) => sdec_u64(b@, pos as int) == Some((x, p as int)),
            None => sdec_u64(b@, pos as int) is None,
        },
{
    if pos <= b.len() && b.len() - pos >= 8 {
        let x = u64_from_le_bytes(slice_subrange(b.as_slice(), pos, pos + 8));
        Some((x, pos + 8))
    } else {
        None
    }
}

pub fn read_u128(b: &Vec<u8>, pos: usize) -> (r: Option<(u128, usize)>)
    ensures
        match r {
            Some((x, p)) => sdec_u128(b@, pos as int) == Some((x, p as int)),
            None => sdec_u128(b@, pos as int) is None,
        },
{
    if pos <= b.len() && b.len() - pos >= 16 {
        let x = u128_from_le_bytes(slice_subrange(b.as_slice(), pos, pos + 16));
        Some((x, pos + 16))
    } else {
        None
    }
}

pub fn read_bytes(b: &Vec<u8>, pos: usize) -> (r: Option<(Vec<u8>, usize)>)
    ensures
        match r {
            Some((x, p)) => sdec_bytes(b@, pos as int) == Some((x@, p as int)),
            None => sdec_bytes(b@, pos as int) is None,
        },
{
    match read_u64(b, pos) {
        Some((n, p)) => {
            if n <= (b.len() - p) as u64 {
                let n_us = n as usize;
                let mut out: Vec<u8> = Vec::new();
                let mut i: usize = 0;
                while i < n_us
                    invariant
                        i <= n_us,
                        p + n_us <= b.len(),
                        out@ == b@.subrange(p as int, p + i),
                    decreases n_us - i,
                {
                    out.push(b[p + i]);
                    proof {
                        assert(out@ =~= b@.subrange(p as int, p + i + 1));
                    }
                    i += 1;
                }
                Some((out, p + n_us))
            } else {
                None
            }
        },
        None => None,
    }
}

// ---------------------------------------------------------------------------
// Round-trip lemmas for the primitives
// ---------------------------------------------------------------------------

/// Reading one byte out of an encoded stream gives that byte back.
pub proof fn lemma_dec_enc_u8(s: Seq<u8>, pos: int, x: u8)
    requires
        0 <= pos,
        pos + 1 <= s.len(),
        s.subrange(pos, pos + 1) == seq![x],
    ensures
        sdec_u8(s, pos) == Some((x, pos + 1)),
{
    assert(s[pos] == s.subrange(pos, pos + 1)[0]);
}

/// Reading eight bytes written from a `u64` gives the value back.
pub proof fn lemma_dec_enc_u64(s: Seq<u8>, pos: int, x: u64)
    requires
        0 <= pos,
        pos + 8 <= s.len(),
        s.subrange(pos, pos + 8) == spec_u64_to_le_bytes(x),
    ensures
        sdec_u64(s, pos) == Some((x, pos + 8)),
{
    vstd::bytes::lemma_auto_spec_u64_to_from_le_bytes();
}

/// Reading sixteen bytes written from a `u128` gives the value back.
pub proof fn lemma_dec_enc_u128(s: Seq<u8>, pos: int, x: u128)
    requires
        0 <= pos,
        pos + 16 <= s.len(),
        s.subrange(pos, pos + 16) == spec_u128_to_le_bytes(x),
    ensures
        sdec_u128(s, pos) == Some((x, pos + 16)),
{
    vstd::bytes::lemma_auto_spec_u128_to_from_le_bytes();
    assert(spec_u128_to_le_bytes(x).len() == 16);
    assert(spec_u128_from_le_bytes(spec_u128_to_le_bytes(x)) == x);
    assert(s.subrange(pos, pos + 16) == spec_u128_to_le_bytes(x));
}

/// Reading a length-prefixed byte string gives the bytes back.
pub proof fn lemma_dec_enc_bytes(s: Seq<u8>, pos: int, x: Seq<u8>)
    requires
        0 <= pos,
        x.len() <= u64::MAX,
        pos + spec_enc_bytes(x).len() <= s.len(),
        s.subrange(pos, pos + spec_enc_bytes(x).len() as int) == spec_enc_bytes(x),
    ensures
        sdec_bytes(s, pos) == Some((x, pos + spec_enc_bytes(x).len())),
{
    vstd::bytes::lemma_auto_spec_u64_to_from_le_bytes();
    let e = spec_enc_bytes(x);
    let n = x.len() as u64;
    assert(spec_u64_to_le_bytes(n).len() == 8);
    assert(s.subrange(pos, pos + 8) =~= e.subrange(0, 8));
    assert(e.subrange(0, 8) =~= spec_u64_to_le_bytes(n));
    assert(sdec_u64(s, pos) == Some((n, pos + 8)));
    assert(s.subrange(pos + 8, pos + 8 + n) =~= e.subrange(8, 8 + n));
    assert(e.subrange(8, 8 + n) =~= x);
}


// ---------------------------------------------------------------------------
// Generic sequences of encoded elements
// ---------------------------------------------------------------------------

/// The concatenated encodings of the elements, in order.
pub open spec fn enc_seq<A>(fe: spec_fn(A) -> Seq<u8>, xs: Seq<A>) -> Seq<u8>
    decreases xs.len(),
{
    if xs.len() == 0 {
        Seq::empty()
    } else {
        fe(xs.first()) + enc_seq(fe, xs.drop_first())
    }
}

/// A count followed by the encoded elements.
pub open spec fn enc_list<A>(fe: spec_fn(A) -> Seq<u8>, xs: Seq<A>) -> Seq<u8> {
    spec_u64_to_le_bytes(xs.len() as u64) + enc_seq(fe, xs)
}

/// Decodes exactly `n` elements in order.
pub open spec fn sdec_seq<A>(
    fd: spec_fn(Seq<u8>, int) -> Option<(A, int)>,
    s: Seq<u8>,
    pos: int,
    n: nat,
) -> Option<(Seq<A>, int)>
    decreases n,
{
    if n == 0 {
        Some((Seq::empty(), pos))
    } else {
        match fd(s, pos) {
            Some((x, p)) => match sdec_seq(fd, s, p, (n - 1) as nat) {
                Some((xs, q)) => Some((seq![x] + xs, q)),
                None => None,
            },
            None => None,
        }
    }
}

/// Decodes a count, then that many elements.
pub open spec fn sdec_list<A>(
    fd: spec_fn(Seq<u8>, int) -> Option<(A, int)>,
    s: Seq<u8>,
    pos: int,
) -> Option<(Seq<A>, int)> {
    match sdec_u64(s, pos) {
        Some((n, p)) => sdec_seq(fd, s, p, n as nat),
        None => None,
    }
}

/// The decoder undoes the encoder for every well-formed element, wherever
/// the encoding sits in a stream.
pub open spec fn dec_matches<A>(
    wf: spec_fn(A) -> bool,
    fe: spec_fn(A) -> Seq<u8>,
    fd: spec_fn(Seq<u8>, int) -> Option<(A, int)>,
) -> bool {
    forall|s: Seq<u8>, pos: int, x: A|
        wf(x) && 0 <= pos && pos + (#[trigger] fe(x)).len() <= s.len() && s.subrange(
            pos,
            pos + fe(x).len() as int,
        ) == fe(x) ==> #[trigger] fd(s, pos) == Some((x, pos + fe(x).len()))
}

/// Splits a known concatenation inside a stream into its two halves.
pub proof fn lemma_subrange_split(s: Seq<u8>, pos: int, a: Seq<u8>, b: Seq<u8>)
    requires
        0 <= pos,
        pos + a.len() + b.len() <= s.len(),
        s.subrange(pos, pos + a.len() + b.len()) == a + b,
    ensures
        s.subrange(pos, pos + a.len()) == a,
        s.subrange(pos + a.len(), pos + a.len() + b.len()) == b,
{
    assert(s.subrange(pos, pos + a.len()) =~= (a + b).subrange(0, a.len() as int));
    assert((a + b).subrange(0, a.len() as int) =~= a);
    assert(s.subrange(pos + a.len(), pos + a.len() + b.len()) =~= (a + b).subrange(
        a.len() as int,
        a.len() + b.len() as int,
    ));
    assert((a + b).subrange(a.len() as int, a.len() + b.len() as int) =~= b);
}

/// Appending one element extends the encoded sequence at its end.
pub proof fn lemma_enc_seq_push<A>(fe: spec_fn(A) -> Seq<u8>, xs: Seq<A>, x: A)
    ensures
        enc_seq(fe, xs.push(x)) == enc_seq(fe, xs) + fe(x),
    decreases xs.len(),
{
    if xs.len() == 0 {
        assert(xs.push(x).first() == x);
        assert(xs.push(x).drop_first() =~= Seq::<A>::empty());
        assert(enc_seq(fe, Seq::<A>::empty()) == Seq::<u8>::empty());
        assert(enc_seq(fe, xs.push(x)) =~= fe(x));
        assert(enc_seq(fe, xs) + fe(x) =~= fe(x));
    } else {
        assert(xs.push(x).first() == xs.first());
        assert(xs.push(x).drop_first() =~= xs.drop_first().push(x));
        lemma_enc_seq_push(fe, xs.drop_first(), x);
        assert(fe(xs.first()) + (enc_seq(fe, xs.drop_first()) + fe(x)) =~= (fe(xs.first())
            + enc_seq(fe, xs.drop_first())) + fe(x));
    }
}

/// Decoding undoes encoding for a fixed count of elements.
pub proof fn lemma_dec_enc_seq<A>(
    s: Seq<u8>,
    pos: int,
    xs: Seq<A>,
    wf: spec_fn(A) -> bool,
    fe: spec_fn(A) -> Seq<u8>,
    fd: spec_fn(Seq<u8>, int) -> Option<(A, int)>,
)
    requires
        dec_matches(wf, fe, fd),
        forall|i: int| 0 <= i < xs.len() ==> wf(#[trigger] xs[i]),
        0 <= pos,
        pos + enc_seq(fe, xs).len() <= s.len(),
        s.subrange(pos, pos + enc_seq(fe, xs).len() as int) == enc_seq(fe, xs),
    ensures
        sdec_seq(fd, s, pos, xs.len()) == Some((xs, pos + enc_seq(fe, xs).len())),
    decreases xs.len(),
{
    if xs.len() > 0 {
        let x = xs.first();
        let rest = xs.drop_first();
        assert(enc_seq(fe, xs) == fe(x) + enc_seq(fe, rest));
        lemma_subrange_split(s, pos, fe(x), enc_seq(fe, rest));
        assert(wf(x));
        assert(fd(s, pos) == Some((x, pos + fe(x).len())));
        assert(forall|i: int| 0 <= i < rest.len() ==> wf(#[trigger] rest[i]));
        lemma_dec_enc_seq(s, pos + fe(x).len(), rest, wf, fe, fd);
        assert(seq![x] + rest =~= xs);
    }
}

/// Decoding undoes encoding for a counted list.
pub proof fn lemma_dec_enc_list<A>(
    s: Seq<u8>,
    pos: int,
    xs: Seq<A>,
    wf: spec_fn(A) -> bool,
    fe: spec_fn(A) -> Seq<u8>,
    fd: spec_fn(Seq<u8>, int) -> Option<(A, int)>,
)
    requires
        dec_matches(wf, fe, fd),
        forall|i: int| 0 <= i < xs.len() ==> wf(#[trigger] xs[i]),
        xs.len() <= u64::MAX,
        0 <= pos,
        pos + enc_list(fe, xs).len() <= s.len(),
        s.subrange(pos, pos + enc_list(fe, xs).len() as int) == enc_list(fe, xs),
    ensures
        sdec_list(fd, s, pos) == Some((xs, pos + enc_list(fe, xs).len())),
{
    vstd::bytes::lemma_auto_spec_u64_to_from_le_bytes();
    let n = xs.len() as u64;
    lemma_subrange_split(s, pos, spec_u64_to_le_bytes(n), enc_seq(fe, xs));
    lemma_dec_enc_u64(s, pos, n);
    lemma_dec_enc_seq(s, pos + 8, xs, wf, fe, fd);
}

/// Two encoded fields in a row decode as a pair.
pub open spec fn enc_tuple2<A, B>(
    fa: spec_fn(A) -> Seq<u8>,
    fb: spec_fn(B) -> Seq<u8>,
) -> spec_fn((A, B)) -> Seq<u8> {
    |x: (A, B)| fa(x.0) + fb(x.1)
}

pub open spec fn sdec_tuple2<A, B>(
    fda: spec_fn(Seq<u8>, int) -> Option<(A, int)>,
    fdb: spec_fn(Seq<u8>, int) -> Option<(B, int)>,
) -> spec_fn(Seq<u8>, int) -> Option<((A, B), int)> {
    |s: Seq<u8>, pos: int|
        match fda(s, pos) {
            Some((a, p)) => match fdb(s, p) {
                Some((b, q)) => Some(((a, b), q)),
                None => None,
            },
            None => None,
        }
}

pub open spec fn wf_tuple2<A, B>(
    wfa: spec_fn(A) -> bool,
    wfb: spec_fn(B) -> bool,
) -> spec_fn((A, B)) -> bool {
    |x: (A, B)| wfa(x.0) && wfb(x.1)
}

/// A pair of matching coders is a matching coder for pairs.
pub proof fn lemma_dec_matches_tuple2<A, B>(
    wfa: spec_fn(A) -> bool,
    fa: spec_fn(A) -> Seq<u8>,
    fda: spec_fn(Seq<u8>, int) -> Option<(A, int)>,
    wfb: spec_fn(B) -> bool,
    fb: spec_fn(B) -> Seq<u8>,
    fdb: spec_fn(Seq<u8>, int) -> Option<(B, int)>,
)
    requires
        dec_matches(wfa, fa, fda),
        dec_matches(wfb, fb, fdb),
    ensures
        dec_matches(wf_tuple2(wfa, wfb), enc_tuple2(fa, fb), sdec_tuple2(fda, fdb)),
{
    let wf = wf_tuple2(wfa, wfb);
    let fe = enc_tuple2(fa, fb);
    let fd = sdec_tuple2(fda, fdb);
    assert forall|s: Seq<u8>, pos: int, x: (A, B)|
        wf(x) && 0 <= pos && pos + (#[trigger] fe(x)).len() <= s.len() && s.subrange(
            pos,
            pos + fe(x).len() as int,
        ) == fe(x) implies #[trigger] fd(s, pos) == Some((x, pos + fe(x).len())) by {
        lemma_subrange_split(s, pos, fa(x.0), fb(x.1));
        assert(fda(s, pos) == Some((x.0, pos + fa(x.0).len())));
        assert(fdb(s, pos + fa(x.0).len()) == Some((x.1, pos + fa(x.0).len() + fb(x.1).len())));
    }
}

} // verus!


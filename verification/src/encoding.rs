//! Byte encodings of integers and of sequences of fixed-size
//! records, with the facts that make decoding undo encoding.

use vstd::prelude::*;

verus! {

// ----------------------------------------------------------------------
// Integers
// ----------------------------------------------------------------------

/// The two bytes of `x`, least significant first.
pub open spec fn u16_le(x: u16) -> Seq<u8> {
    seq![(x & 0xff) as u8, ((x >> 8) & 0xff) as u8]
}

/// The `u16` whose little-endian bytes start at `b[i]`.
pub open spec fn u16_at(b: Seq<u8>, i: int) -> u16 {
    (b[i] as u16) | ((b[i + 1] as u16) << 8)
}

/// The four bytes of `x`, least significant first.
pub open spec fn u32_le(x: u32) -> Seq<u8> {
    seq![
        (x & 0xff) as u8,
        ((x >> 8) & 0xff) as u8,
        ((x >> 16) & 0xff) as u8,
        ((x >> 24) & 0xff) as u8,
    ]
}

/// The `u32` whose little-endian bytes start at `b[i]`.
pub open spec fn u32_at(b: Seq<u8>, i: int) -> u32 {
    (b[i] as u32) | ((b[i + 1] as u32) << 8) | ((b[i + 2] as u32) << 16) | ((b[i + 3] as u32)
        << 24)
}

/// The four bytes of the two's complement of `x`, least significant first.
pub open spec fn i32_le(x: i32) -> Seq<u8> {
    u32_le(x as u32)
}

/// The `i32` whose little-endian two's complement starts at `b[i]`.
pub open spec fn i32_at(b: Seq<u8>, i: int) -> i32 {
    u32_at(b, i) as i32
}

/// The eight bytes of `x`, least significant first.
pub open spec fn u64_le(x: u64) -> Seq<u8> {
    seq![
        (x & 0xff) as u8,
        ((x >> 8) & 0xff) as u8,
        ((x >> 16) & 0xff) as u8,
        ((x >> 24) & 0xff) as u8,
        ((x >> 32) & 0xff) as u8,
        ((x >> 40) & 0xff) as u8,
        ((x >> 48) & 0xff) as u8,
        ((x >> 56) & 0xff) as u8,
    ]
}

/// The `u64` whose little-endian bytes start at `b[i]`.
pub open spec fn u64_at(b: Seq<u8>, i: int) -> u64 {
    (b[i] as u64) | ((b[i + 1] as u64) << 8) | ((b[i + 2] as u64) << 16) | ((b[i + 3] as u64)
        << 24) | ((b[i + 4] as u64) << 32) | ((b[i + 5] as u64) << 40) | ((b[i + 6] as u64)
        << 48) | ((b[i + 7] as u64) << 56)
}

/// Decoding the bytes of a `u16` gives it back.
pub proof fn lemma_u16_le(x: u16)
    ensures
        u16_le(x).len() == 2,
        u16_at(u16_le(x), 0) == x,
{
    let b0 = (x & 0xff) as u8;
    let b1 = ((x >> 8) & 0xff) as u8;
    assert(b0 == (x & 0xff) as u8 && b1 == ((x >> 8) & 0xff) as u8 ==> (b0 as u16) | ((b1 as u16)
        << 8) == x) by (bit_vector);
}

/// Encoding a decoded `u16` gives its bytes back.
pub proof fn lemma_u16_at(b: Seq<u8>, i: int)
    requires
        0 <= i,
        i + 2 <= b.len(),
    ensures
        u16_le(u16_at(b, i)) == b.subrange(i, i + 2),
{
    let b0 = b[i];
    let b1 = b[i + 1];
    let x = u16_at(b, i);
    assert(x == (b0 as u16) | ((b1 as u16) << 8) ==> (x & 0xff) as u8 == b0 && ((x >> 8) & 0xff)
        as u8 == b1) by (bit_vector);
    assert(u16_le(x) =~= b.subrange(i, i + 2));
}

/// Decoding the bytes of a `u32` gives it back.
pub proof fn lemma_u32_le(x: u32)
    ensures
        u32_le(x).len() == 4,
        u32_at(u32_le(x), 0) == x,
{
    let b0 = (x & 0xff) as u8;
    let b1 = ((x >> 8) & 0xff) as u8;
    let b2 = ((x >> 16) & 0xff) as u8;
    let b3 = ((x >> 24) & 0xff) as u8;
    assert(b0 == (x & 0xff) as u8 && b1 == ((x >> 8) & 0xff) as u8 && b2 == ((x >> 16) & 0xff)
        as u8 && b3 == ((x >> 24) & 0xff) as u8 ==> (b0 as u32) | ((b1 as u32) << 8) | ((b2 as u32)
        << 16) | ((b3 as u32) << 24) == x) by (bit_vector);
}

/// Encoding a decoded `u32` gives its bytes back.
pub proof fn lemma_u32_at(b: Seq<u8>, i: int)
    requires
        0 <= i,
        i + 4 <= b.len(),
    ensures
        u32_le(u32_at(b, i)) == b.subrange(i, i + 4),
{
    let b0 = b[i];
    let b1 = b[i + 1];
    let b2 = b[i + 2];
    let b3 = b[i + 3];
    let x = u32_at(b, i);
    assert(x == (b0 as u32) | ((b1 as u32) << 8) | ((b2 as u32) << 16) | ((b3 as u32) << 24)
        ==> (x & 0xff) as u8 == b0 && ((x >> 8) & 0xff) as u8 == b1 && ((x >> 16) & 0xff) as u8
        == b2 && ((x >> 24) & 0xff) as u8 == b3) by (bit_vector);
    assert(u32_le(x) =~= b.subrange(i, i + 4));
}

/// Decoding the bytes of an `i32` gives it back.
pub proof fn lemma_i32_le(x: i32)
    ensures
        i32_le(x).len() == 4,
        i32_at(i32_le(x), 0) == x,
{
    lemma_u32_le(x as u32);
    assert((x as u32) as i32 == x) by (bit_vector);
}

/// Encoding a decoded `i32` gives its bytes back.
pub proof fn lemma_i32_at(b: Seq<u8>, i: int)
    requires
        0 <= i,
        i + 4 <= b.len(),
    ensures
        i32_le(i32_at(b, i)) == b.subrange(i, i + 4),
{
    let u = u32_at(b, i);
    lemma_u32_at(b, i);
    assert((u as i32) as u32 == u) by (bit_vector);
}

/// Decoding the bytes of a `u64` gives it back.
pub proof fn lemma_u64_le(x: u64)
    ensures
        u64_le(x).len() == 8,
        u64_at(u64_le(x), 0) == x,
{
    let b0 = (x & 0xff) as u8;
    let b1 = ((x >> 8) & 0xff) as u8;
    let b2 = ((x >> 16) & 0xff) as u8;
    let b3 = ((x >> 24) & 0xff) as u8;
    let b4 = ((x >> 32) & 0xff) as u8;
    let b5 = ((x >> 40) & 0xff) as u8;
    let b6 = ((x >> 48) & 0xff) as u8;
    let b7 = ((x >> 56) & 0xff) as u8;
    assert(b0 == (x & 0xff) as u8 && b1 == ((x >> 8) & 0xff) as u8 && b2 == ((x >> 16) & 0xff)
        as u8 && b3 == ((x >> 24) & 0xff) as u8 && b4 == ((x >> 32) & 0xff) as u8 && b5 == ((x
        >> 40) & 0xff) as u8 && b6 == ((x >> 48) & 0xff) as u8 && b7 == ((x >> 56) & 0xff) as u8
        ==> (b0 as u64) | ((b1 as u64) << 8) | ((b2 as u64) << 16) | ((b3 as u64) << 24) | ((b4
        as u64) << 32) | ((b5 as u64) << 40) | ((b6 as u64) << 48) | ((b7 as u64) << 56) == x)
        by (bit_vector);
}

/// Encoding a decoded `u64` gives its bytes back.
pub proof fn lemma_u64_at(b: Seq<u8>, i: int)
    requires
        0 <= i,
        i + 8 <= b.len(),
    ensures
        u64_le(u64_at(b, i)) == b.subrange(i, i + 8),
{
    let b0 = b[i];
    let b1 = b[i + 1];
    let b2 = b[i + 2];
    let b3 = b[i + 3];
    let b4 = b[i + 4];
    let b5 = b[i + 5];
    let b6 = b[i + 6];
    let b7 = b[i + 7];
    let x = u64_at(b, i);
    assert(x == (b0 as u64) | ((b1 as u64) << 8) | ((b2 as u64) << 16) | ((b3 as u64) << 24) | ((
    b4 as u64) << 32) | ((b5 as u64) << 40) | ((b6 as u64) << 48) | ((b7 as u64) << 56) ==> (x
        & 0xff) as u8 == b0 && ((x >> 8) & 0xff) as u8 == b1 && ((x >> 16) & 0xff) as u8 == b2
        && ((x >> 24) & 0xff) as u8 == b3 && ((x >> 32) & 0xff) as u8 == b4 && ((x >> 40) & 0xff)
        as u8 == b5 && ((x >> 48) & 0xff) as u8 == b6 && ((x >> 56) & 0xff) as u8 == b7)
        by (bit_vector);
    assert(u64_le(x) =~= b.subrange(i, i + 8));
}

// ----------------------------------------------------------------------
// Sequences of fixed-size records
// ----------------------------------------------------------------------

/// The `i`-th of the consecutive pieces of length `s` that `b` starts with.
pub open spec fn piece<A>(b: Seq<A>, i: int, s: int) -> Seq<A> {
    b.subrange(i * s, i * s + s)
}

/// Every record of `xs` encodes to `s` bytes.
pub open spec fn uniform<A>(xs: Seq<Seq<A>>, s: int) -> bool {
    forall|i: int| 0 <= i < xs.len() ==> (#[trigger] xs[i]).len() == s
}

pub proof fn lemma_piece_bounds(i: int, n: int, s: int)
    requires
        0 <= i < n,
        0 <= s,
    ensures
        0 <= i * s,
        i * s + s <= n * s,
{
    assert(0 <= i * s) by (nonlinear_arith)
        requires
            0 <= i,
            0 <= s,
    ;
    assert(i * s + s <= n * s) by (nonlinear_arith)
        requires
            i < n,
            0 <= s,
    ;
}

/// The concatenation of records of equal length `s` has length `n * s`,
/// and its `i`-th piece of length `s` is the `i`-th record.
pub proof fn lemma_flatten_uniform<A>(xs: Seq<Seq<A>>, s: int)
    requires
        0 <= s,
        uniform(xs, s),
    ensures
        xs.flatten().len() == xs.len() * s,
        forall|i: int| 0 <= i < xs.len() ==> #[trigger] piece(xs.flatten(), i, s) == xs[i],
    decreases xs.len(),
{
    if xs.len() == 0 {
    } else {
        let p = xs.drop_last();
        let n = p.len() as int;
        lemma_flatten_uniform(p, s);
        assert(xs =~= p.push(xs.last()));
        p.lemma_flatten_push(xs.last());
        assert(xs.flatten() == p.flatten() + xs.last());
        assert(n * s + s == (n + 1) * s) by (nonlinear_arith);
        assert forall|i: int| 0 <= i < xs.len() implies #[trigger] piece(xs.flatten(), i, s)
            == xs[i] by {
            if i < n {
                lemma_piece_bounds(i, n, s);
                assert(piece(xs.flatten(), i, s) =~= piece(p.flatten(), i, s));
            } else {
                assert(piece(xs.flatten(), i, s) =~= xs.last());
            }
        }
    }
}

/// Cutting `n * s` elements into `n` pieces of length `s` and putting them
/// back together gives the elements back.
pub proof fn lemma_pieces_flatten<A>(b: Seq<A>, n: int, s: int)
    requires
        0 <= n,
        0 <= s,
        b.len() == n * s,
    ensures
        Seq::new(n as nat, |i: int| piece(b, i, s)).flatten() == b,
    decreases n,
{
    let ps = Seq::new(n as nat, |i: int| piece(b, i, s));
    if n == 0 {
        assert(b =~= Seq::<A>::empty());
        assert(ps =~= Seq::<Seq<A>>::empty());
    } else {
        let m = n - 1;
        assert(m * s + s == n * s) by (nonlinear_arith)
            requires
                m == n - 1,
        ;
        assert(0 <= m * s) by (nonlinear_arith)
            requires
                0 <= m,
                0 <= s,
        ;
        let prefix = b.subrange(0, m * s);
        lemma_pieces_flatten(prefix, m, s);
        let pp = Seq::new(m as nat, |i: int| piece(prefix, i, s));
        assert forall|i: int| 0 <= i < m implies #[trigger] pp[i] == ps[i] by {
            lemma_piece_bounds(i, m, s);
            assert(pp[i] =~= ps[i]);
        }
        assert(ps =~= pp.push(piece(b, m, s)));
        pp.lemma_flatten_push(piece(b, m, s));
        assert(prefix + piece(b, m, s) =~= b);
    }
}

/// Records of a fixed size `s`, encoded one after another, decode back to
/// the records, when each record decodes from its own encoding.
pub proof fn lemma_encode_then_decode<A>(
    xs: Seq<A>,
    enc: spec_fn(A) -> Seq<u8>,
    dec: spec_fn(Seq<u8>) -> A,
    s: int,
)
    requires
        0 <= s,
        forall|i: int| 0 <= i < xs.len() ==> (#[trigger] enc(xs[i])).len() == s,
        forall|i: int| 0 <= i < xs.len() ==> dec(#[trigger] enc(xs[i])) == xs[i],
    ensures
        xs.map_values(enc).flatten().len() == xs.len() * s,
        Seq::new(xs.len(), |i: int| dec(piece(xs.map_values(enc).flatten(), i, s))) == xs,
{
    let es = xs.map_values(enc);
    assert forall|i: int| 0 <= i < es.len() implies (#[trigger] es[i]).len() == s by {
        assert(es[i] == enc(xs[i]));
    }
    lemma_flatten_uniform(es, s);
    let ds = Seq::new(xs.len(), |i: int| dec(piece(es.flatten(), i, s)));
    assert forall|i: int| 0 <= i < xs.len() implies #[trigger] ds[i] == xs[i] by {
        assert(piece(es.flatten(), i, s) == es[i]);
        assert(es[i] == enc(xs[i]));
    }
    assert(ds =~= xs);
}

/// Bytes cut into records of size `s`, each decoded and encoded again,
/// give the bytes back, when decoding and encoding undo each other on
/// every piece.
pub proof fn lemma_decode_then_encode<A>(
    b: Seq<u8>,
    n: int,
    enc: spec_fn(A) -> Seq<u8>,
    dec: spec_fn(Seq<u8>) -> A,
    s: int,
)
    requires
        0 <= n,
        0 <= s,
        b.len() == n * s,
        forall|i: int| 0 <= i < n ==> enc(dec(#[trigger] piece(b, i, s))) == piece(b, i, s),
    ensures
        Seq::new(n as nat, |i: int| dec(piece(b, i, s))).map_values(enc).flatten() == b,
{
    let xs = Seq::new(n as nat, |i: int| dec(piece(b, i, s)));
    let ps = Seq::new(n as nat, |i: int| piece(b, i, s));
    assert(xs.map_values(enc) =~= ps);
    lemma_pieces_flatten(b, n, s);
}

// ----------------------------------------------------------------------
// Sequences of u16 samples in either byte order
// ----------------------------------------------------------------------

/// The two bytes of `x`, most significant first.
pub open spec fn u16_be(x: u16) -> Seq<u8> {
    seq![((x >> 8) & 0xff) as u8, (x & 0xff) as u8]
}

/// The `u16` whose big-endian bytes start at `b[i]`.
pub open spec fn u16_be_at(b: Seq<u8>, i: int) -> u16 {
    ((b[i] as u16) << 8) | (b[i + 1] as u16)
}

/// The two bytes of a sample, most significant first when `big` holds.
pub open spec fn enc_u16(x: u16, big: bool) -> Seq<u8> {
    if big {
        u16_be(x)
    } else {
        u16_le(x)
    }
}

/// The sample that the first two bytes of `c` hold in the given order.
pub open spec fn dec_u16(c: Seq<u8>, big: bool) -> u16 {
    if big {
        u16_be_at(c, 0)
    } else {
        u16_at(c, 0)
    }
}

/// Decoding the bytes of a sample in either order gives it back.
pub proof fn lemma_u16_enc(x: u16, big: bool)
    ensures
        enc_u16(x, big).len() == 2,
        dec_u16(enc_u16(x, big), big) == x,
{
    if big {
        let b0 = ((x >> 8) & 0xff) as u8;
        let b1 = (x & 0xff) as u8;
        assert(b0 == ((x >> 8) & 0xff) as u8 && b1 == (x & 0xff) as u8 ==> ((b0 as u16) << 8) | (
        b1 as u16) == x) by (bit_vector);
    } else {
        lemma_u16_le(x);
    }
}

/// Encoding a sample decoded from two bytes gives the bytes back.
pub proof fn lemma_u16_dec(c: Seq<u8>, big: bool)
    requires
        c.len() == 2,
    ensures
        enc_u16(dec_u16(c, big), big) == c,
{
    if big {
        let b0 = c[0];
        let b1 = c[1];
        let x = u16_be_at(c, 0);
        assert(x == ((b0 as u16) << 8) | (b1 as u16) ==> ((x >> 8) & 0xff) as u8 == b0 && (x
            & 0xff) as u8 == b1) by (bit_vector);
        assert(u16_be(x) =~= c);
    } else {
        lemma_u16_at(c, 0);
        assert(c.subrange(0, 2) =~= c);
    }
}

/// The bytes of `u16` samples, each in the given byte order.
pub open spec fn u16s_bytes(p: Seq<u16>, big: bool) -> Seq<u8> {
    p.map_values(|x: u16| enc_u16(x, big)).flatten()
}

/// The first `n` `u16` samples stored in `b` in the given byte order.
pub open spec fn u16s_from(b: Seq<u8>, n: nat, big: bool) -> Seq<u16> {
    Seq::new(n, |i: int| dec_u16(piece(b, i, 2), big))
}

/// Decoding the bytes of samples gives the samples back.
pub proof fn lemma_u16s_bytes(p: Seq<u16>, big: bool)
    ensures
        u16s_bytes(p, big).len() == 2 * p.len(),
        u16s_from(u16s_bytes(p, big), p.len(), big) == p,
{
    let enc = |x: u16| enc_u16(x, big);
    let dec = |c: Seq<u8>| dec_u16(c, big);
    assert forall|i: int| 0 <= i < p.len() implies (#[trigger] enc(p[i])).len() == 2 && dec(
        enc(p[i]),
    ) == p[i] by {
        lemma_u16_enc(p[i], big);
    }
    lemma_encode_then_decode(p, enc, dec, 2);
    assert(p.len() * 2 == 2 * p.len()) by (nonlinear_arith);
    assert(u16s_from(u16s_bytes(p, big), p.len(), big) =~= p);
}

/// Encoding the samples decoded from `2 * n` bytes gives the bytes back.
pub proof fn lemma_u16s_from(b: Seq<u8>, n: nat, big: bool)
    requires
        b.len() == 2 * n,
    ensures
        u16s_bytes(u16s_from(b, n, big), big) == b,
{
    let enc = |x: u16| enc_u16(x, big);
    let dec = |c: Seq<u8>| dec_u16(c, big);
    assert(b.len() == n * 2) by (nonlinear_arith)
        requires
            b.len() == 2 * n,
    ;
    assert forall|i: int| 0 <= i < n implies enc(dec(#[trigger] piece(b, i, 2))) == piece(
        b,
        i,
        2,
    ) by {
        lemma_piece_bounds(i, n as int, 2);
        lemma_u16_dec(piece(b, i, 2), big);
    }
    lemma_decode_then_encode(b, n as int, enc, dec, 2);
    assert(u16s_from(b, n, big) =~= Seq::new(n, |i: int| dec(piece(b, i, 2))));
}

/// Sample `i` takes bytes `2i` and `2i + 1`: in big-endian order the
/// first holds the high eight bits and the second the low eight, in
/// little-endian order the other way round.
pub proof fn lemma_u16s_bytes_order(p: Seq<u16>, big: bool)
    ensures
        u16s_bytes(p, big).len() == 2 * p.len(),
        forall|i: int|
            0 <= i < p.len() ==> {
                &&& #[trigger] u16s_bytes(p, big)[2 * i] == if big {
                    (p[i] / 256) as u8
                } else {
                    (p[i] % 256) as u8
                }
                &&& u16s_bytes(p, big)[2 * i + 1] == if big {
                    (p[i] % 256) as u8
                } else {
                    (p[i] / 256) as u8
                }
            },
{
    let enc = |x: u16| enc_u16(x, big);
    let es = p.map_values(enc);
    assert forall|i: int| 0 <= i < es.len() implies (#[trigger] es[i]).len() == 2 by {
        lemma_u16_enc(p[i], big);
    }
    lemma_flatten_uniform(es, 2);
    assert(p.len() * 2 == 2 * p.len()) by (nonlinear_arith);
    assert forall|i: int| 0 <= i < p.len() implies {
        &&& #[trigger] u16s_bytes(p, big)[2 * i] == if big {
            (p[i] / 256) as u8
        } else {
            (p[i] % 256) as u8
        }
        &&& u16s_bytes(p, big)[2 * i + 1] == if big {
            (p[i] % 256) as u8
        } else {
            (p[i] / 256) as u8
        }
    } by {
        let x = p[i];
        assert(piece(es.flatten(), i, 2) == es[i]);
        assert(es[i] == enc_u16(x, big));
        assert(i * 2 == 2 * i);
        assert(piece(es.flatten(), i, 2)[0] == es.flatten()[2 * i]);
        assert(piece(es.flatten(), i, 2)[1] == es.flatten()[2 * i + 1]);
        assert(((x >> 8) & 0xff) as u8 == (x / 256) as u8 && (x & 0xff) as u8 == (x % 256) as u8)
            by (bit_vector);
    }
}

} // verus!

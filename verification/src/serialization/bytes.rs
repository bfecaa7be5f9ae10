//! Little-endian fixed-width integers and byte-sequence helpers shared by
//! the wire-format encoders and decoders.

use vstd::prelude::*;

verus! {

/// The two little-endian bytes of `x`.
pub open spec fn u16_le(x: u16) -> Seq<u8> {
    seq![x as u8, (x >> 8u16) as u8]
}

/// The four little-endian bytes of `x`.
pub open spec fn u32_le(x: u32) -> Seq<u8> {
    seq![x as u8, (x >> 8u32) as u8, (x >> 16u32) as u8, (x >> 24u32) as u8]
}

/// The eight little-endian bytes of `x`.
pub open spec fn u64_le(x: u64) -> Seq<u8> {
    seq![
        x as u8,
        (x >> 8u64) as u8,
        (x >> 16u64) as u8,
        (x >> 24u64) as u8,
        (x >> 32u64) as u8,
        (x >> 40u64) as u8,
        (x >> 48u64) as u8,
        (x >> 56u64) as u8,
    ]
}

/// The `u16` whose little-endian bytes are `b0 b1`.
pub open spec fn u16_of(b0: u8, b1: u8) -> u16 {
    (b0 as u16) | ((b1 as u16) << 8u16)
}

/// The `u32` whose little-endian bytes are `b0 .. b3`.
pub open spec fn u32_of(b0: u8, b1: u8, b2: u8, b3: u8) -> u32 {
    (b0 as u32) | ((b1 as u32) << 8u32) | ((b2 as u32) << 16u32) | ((b3 as u32) << 24u32)
}

/// The `u64` whose little-endian bytes are `b0 .. b7`.
pub open spec fn u64_of(b0: u8, b1: u8, b2: u8, b3: u8, b4: u8, b5: u8, b6: u8, b7: u8) -> u64 {
    (b0 as u64) | ((b1 as u64) << 8u64) | ((b2 as u64) << 16u64) | ((b3 as u64) << 24u64) | ((
    b4 as u64) << 32u64) | ((b5 as u64) << 40u64) | ((b6 as u64) << 48u64) | ((b7 as u64)
        << 56u64)
}

/// The little-endian `u16` stored in `s` at position `i`.
pub open spec fn le_u16_at(s: Seq<u8>, i: int) -> u16 {
    u16_of(s[i], s[i + 1])
}

/// The little-endian `u32` stored in `s` at position `i`.
pub open spec fn le_u32_at(s: Seq<u8>, i: int) -> u32 {
    u32_of(s[i], s[i + 1], s[i + 2], s[i + 3])
}

/// The little-endian `u64` stored in `s` at position `i`.
pub open spec fn le_u64_at(s: Seq<u8>, i: int) -> u64 {
    u64_of(s[i], s[i + 1], s[i + 2], s[i + 3], s[i + 4], s[i + 5], s[i + 6], s[i + 7])
}

/// `s` holds the bytes `t` starting at position `off`.
pub open spec fn holds_at(s: Seq<u8>, off: int, t: Seq<u8>) -> bool {
    &&& 0 <= off
    &&& off + t.len() <= s.len()
    &&& s.subrange(off, off + t.len()) == t
}

/// The unsigned integer whose little-endian bytes are `s`: the first byte is
/// the least significant.
pub open spec fn le_value(s: Seq<u8>) -> nat
    decreases s.len(),
{
    if s.len() == 0 {
        0
    } else {
        s[0] as nat + 256 * le_value(s.drop_first())
    }
}

proof fn lemma_le_value_2(s: Seq<u8>)
    requires
        s.len() == 2,
    ensures
        le_value(s) == s[0] + 256 * s[1],
{
    let s1 = s.drop_first();
    let s2 = s1.drop_first();
    assert(s2.len() == 0 && le_value(s2) == 0);
    assert(s1[0] == s[1]);
    assert(le_value(s1) == s1[0] + 256 * le_value(s2));
}

proof fn lemma_le_value_4(s: Seq<u8>)
    requires
        s.len() == 4,
    ensures
        le_value(s) == s[0] + 256 * s[1] + 65536 * s[2] + 16777216 * s[3],
{
    let s1 = s.drop_first();
    lemma_le_value_2(s1.drop_first());
    assert(s1[0] == s[1] && s1.drop_first()[0] == s[2] && s1.drop_first()[1] == s[3]);
    assert(le_value(s1) == s1[0] + 256 * le_value(s1.drop_first()));
}

proof fn lemma_le_value_8(s: Seq<u8>)
    requires
        s.len() == 8,
    ensures
        le_value(s) == s[0] + 256 * s[1] + 65536 * s[2] + 16777216 * s[3] + 0x1_0000_0000
            * s[4] + 0x100_0000_0000 * s[5] + 0x1_0000_0000_0000 * s[6] + 0x100_0000_0000_0000
            * s[7],
{
    let s1 = s.drop_first();
    let s2 = s1.drop_first();
    let s3 = s2.drop_first();
    let s4 = s3.drop_first();
    lemma_le_value_4(s4);
    assert(s1[0] == s[1] && s2[0] == s[2] && s3[0] == s[3]);
    assert(s4[0] == s[4] && s4[1] == s[5] && s4[2] == s[6] && s4[3] == s[7]);
    assert(le_value(s3) == s3[0] + 256 * le_value(s4));
    assert(le_value(s2) == s2[0] + 256 * le_value(s3));
    assert(le_value(s1) == s1[0] + 256 * le_value(s2));
}

/// The little-endian bytes of a `u16` have its value.
pub proof fn lemma_le_value_u16(x: u16)
    ensures
        le_value(u16_le(x)) == x,
{
    lemma_le_value_2(u16_le(x));
    let b0 = x as u8;
    let b1 = (x >> 8u16) as u8;
    assert(x == b0 + 256 * b1) by (bit_vector)
        requires
            b0 == x as u8,
            b1 == (x >> 8u16) as u8,
    ;
}

/// The little-endian bytes of a `u32` have its value.
pub proof fn lemma_le_value_u32(x: u32)
    ensures
        le_value(u32_le(x)) == x,
{
    lemma_le_value_4(u32_le(x));
    let b0 = x as u8;
    let b1 = (x >> 8u32) as u8;
    let b2 = (x >> 16u32) as u8;
    let b3 = (x >> 24u32) as u8;
    assert(x == b0 + 256 * b1 + 65536 * b2 + 16777216 * b3) by (bit_vector)
        requires
            b0 == x as u8,
            b1 == (x >> 8u32) as u8,
            b2 == (x >> 16u32) as u8,
            b3 == (x >> 24u32) as u8,
    ;
}

/// The little-endian bytes of a `u64` have its value.
pub proof fn lemma_le_value_u64(x: u64)
    ensures
        le_value(u64_le(x)) == x,
{
    lemma_le_value_8(u64_le(x));
    let b0 = x as u8;
    let b1 = (x >> 8u64) as u8;
    let b2 = (x >> 16u64) as u8;
    let b3 = (x >> 24u64) as u8;
    let b4 = (x >> 32u64) as u8;
    let b5 = (x >> 40u64) as u8;
    let b6 = (x >> 48u64) as u8;
    let b7 = (x >> 56u64) as u8;
    assert(x == b0 + 256 * b1 + 65536 * b2 + 16777216 * b3 + 0x1_0000_0000 * b4 + 0x100_0000_0000
        * b5 + 0x1_0000_0000_0000 * b6 + 0x100_0000_0000_0000 * b7) by (bit_vector)
        requires
            b0 == x as u8,
            b1 == (x >> 8u64) as u8,
            b2 == (x >> 16u64) as u8,
            b3 == (x >> 24u64) as u8,
            b4 == (x >> 32u64) as u8,
            b5 == (x >> 40u64) as u8,
            b6 == (x >> 48u64) as u8,
            b7 == (x >> 56u64) as u8,
    ;
}

/// Concatenation of a sequence of byte strings.
pub open spec fn concat(parts: Seq<Seq<u8>>) -> Seq<u8>
    decreases parts.len(),
{
    if parts.len() == 0 {
        Seq::empty()
    } else {
        concat(parts.drop_last()) + parts.last()
    }
}

pub proof fn lemma_u16_roundtrip(x: u16)
    ensures
        u16_of(u16_le(x)[0], u16_le(x)[1]) == x,
{
    let b0 = x as u8;
    let b1 = (x >> 8u16) as u8;
    assert(u16_of(b0, b1) == x) by (bit_vector)
        requires
            b0 == x as u8,
            b1 == (x >> 8u16) as u8,
    ;
}

pub proof fn lemma_u32_roundtrip(x: u32)
    ensures
        u32_of(u32_le(x)[0], u32_le(x)[1], u32_le(x)[2], u32_le(x)[3]) == x,
{
    let b0 = x as u8;
    let b1 = (x >> 8u32) as u8;
    let b2 = (x >> 16u32) as u8;
    let b3 = (x >> 24u32) as u8;
    assert(u32_of(b0, b1, b2, b3) == x) by (bit_vector)
        requires
            b0 == x as u8,
            b1 == (x >> 8u32) as u8,
            b2 == (x >> 16u32) as u8,
            b3 == (x >> 24u32) as u8,
    ;
}

pub proof fn lemma_u64_roundtrip(x: u64)
    ensures
        u64_of(
            u64_le(x)[0],
            u64_le(x)[1],
            u64_le(x)[2],
            u64_le(x)[3],
            u64_le(x)[4],
            u64_le(x)[5],
            u64_le(x)[6],
            u64_le(x)[7],
        ) == x,
{
    let b0 = x as u8;
    let b1 = (x >> 8u64) as u8;
    let b2 = (x >> 16u64) as u8;
    let b3 = (x >> 24u64) as u8;
    let b4 = (x >> 32u64) as u8;
    let b5 = (x >> 40u64) as u8;
    let b6 = (x >> 48u64) as u8;
    let b7 = (x >> 56u64) as u8;
    assert(u64_of(b0, b1, b2, b3, b4, b5, b6, b7) == x) by (bit_vector)
        requires
            b0 == x as u8,
            b1 == (x >> 8u64) as u8,
            b2 == (x >> 16u64) as u8,
            b3 == (x >> 24u64) as u8,
            b4 == (x >> 32u64) as u8,
            b5 == (x >> 40u64) as u8,
            b6 == (x >> 48u64) as u8,
            b7 == (x >> 56u64) as u8,
    ;
}

pub proof fn lemma_u16_bytes_roundtrip(b0: u8, b1: u8)
    ensures
        u16_le(u16_of(b0, b1)) == seq![b0, b1],
{
    let x = u16_of(b0, b1);
    assert(x as u8 == b0 && (x >> 8u16) as u8 == b1) by (bit_vector)
        requires
            x == (b0 as u16) | ((b1 as u16) << 8u16),
    ;
    assert(u16_le(x) =~= seq![b0, b1]);
}

pub proof fn lemma_u32_bytes_roundtrip(b0: u8, b1: u8, b2: u8, b3: u8)
    ensures
        u32_le(u32_of(b0, b1, b2, b3)) == seq![b0, b1, b2, b3],
{
    let x = u32_of(b0, b1, b2, b3);
    assert(x as u8 == b0 && (x >> 8u32) as u8 == b1 && (x >> 16u32) as u8 == b2 && (x >> 24u32)
        as u8 == b3) by (bit_vector)
        requires
            x == (b0 as u32) | ((b1 as u32) << 8u32) | ((b2 as u32) << 16u32) | ((b3 as u32)
                << 24u32),
    ;
    assert(u32_le(x) =~= seq![b0, b1, b2, b3]);
}

pub proof fn lemma_u64_bytes_roundtrip(b0: u8, b1: u8, b2: u8, b3: u8, b4: u8, b5: u8, b6: u8, b7: u8)
    ensures
        u64_le(u64_of(b0, b1, b2, b3, b4, b5, b6, b7)) == seq![b0, b1, b2, b3, b4, b5, b6, b7],
{
    let x = u64_of(b0, b1, b2, b3, b4, b5, b6, b7);
    assert(x as u8 == b0 && (x >> 8u64) as u8 == b1 && (x >> 16u64) as u8 == b2 && (x >> 24u64)
        as u8 == b3 && (x >> 32u64) as u8 == b4 && (x >> 40u64) as u8 == b5 && (x >> 48u64) as u8
        == b6 && (x >> 56u64) as u8 == b7) by (bit_vector)
        requires
            x == (b0 as u64) | ((b1 as u64) << 8u64) | ((b2 as u64) << 16u64) | ((b3 as u64)
                << 24u64) | ((b4 as u64) << 32u64) | ((b5 as u64) << 40u64) | ((b6 as u64)
                << 48u64) | ((b7 as u64) << 56u64),
    ;
    assert(u64_le(x) =~= seq![b0, b1, b2, b3, b4, b5, b6, b7]);
}

/// Splitting a held concatenation: if `s` holds `a + b` at `off`, it holds
/// `a` at `off` and `b` right after it.
pub proof fn lemma_holds_at_split(s: Seq<u8>, off: int, a: Seq<u8>, b: Seq<u8>)
    requires
        holds_at(s, off, a + b),
    ensures
        holds_at(s, off, a),
        holds_at(s, off + a.len(), b),
{
    let whole = s.subrange(off, off + (a + b).len());
    assert(whole == a + b);
    assert forall|i: int| 0 <= i < a.len() implies s.subrange(off, off + a.len())[i] == a[i] by {
        assert(whole[i] == (a + b)[i]);
    }
    assert(s.subrange(off, off + a.len()) =~= a);
    assert forall|i: int| 0 <= i < b.len() implies s.subrange(
        off + a.len(),
        off + a.len() + b.len(),
    )[i] == b[i] by {
        assert(whole[a.len() + i] == (a + b)[a.len() + i]);
    }
    assert(s.subrange(off + a.len(), off + a.len() + b.len()) =~= b);
}

/// Reading `n` items one after another with `item`, starting at `off`: the
/// items read and the position after the last, or the first failure.
pub open spec fn parse_many<T, E>(
    item: spec_fn(Seq<u8>, int) -> Result<(T, int), E>,
    s: Seq<u8>,
    off: int,
    n: nat,
) -> Result<(Seq<T>, int), E>
    decreases n,
{
    if n == 0 {
        Ok((Seq::empty(), off))
    } else {
        match parse_many(item, s, off, (n - 1) as nat) {
            Err(e) => Err(e),
            Ok((xs, o)) => match item(s, o) {
                Err(e) => Err(e),
                Ok((x, o2)) => Ok((xs.push(x), o2)),
            },
        }
    }
}

/// Once reading fails, reading more items fails the same way.
pub proof fn lemma_parse_many_err<T, E>(
    item: spec_fn(Seq<u8>, int) -> Result<(T, int), E>,
    s: Seq<u8>,
    off: int,
    k: nat,
    n: nat,
)
    requires
        k <= n,
        parse_many(item, s, off, k) is Err,
    ensures
        parse_many(item, s, off, n) == parse_many(item, s, off, k),
    decreases n,
{
    if n > k {
        lemma_parse_many_err(item, s, off, k, (n - 1) as nat);
    }
}

/// Reading `k + 1` items is reading `k` items and then one more.
pub proof fn lemma_parse_many_step<T, E>(
    item: spec_fn(Seq<u8>, int) -> Result<(T, int), E>,
    s: Seq<u8>,
    off: int,
    k: nat,
)
    ensures
        parse_many(item, s, off, k + 1) == (match parse_many(item, s, off, k) {
            Err(e) => Err(e),
            Ok((xs, o)) => match item(s, o) {
                Err(e) => Err(e),
                Ok((x, o2)) => Ok((xs.push(x), o2)),
            },
        }),
{
}

/// `item` reads back every well-formed `x` from wherever `enc(x)` is held,
/// ending right after it.
pub open spec fn reads_back<T, E>(
    item: spec_fn(Seq<u8>, int) -> Result<(T, int), E>,
    enc: spec_fn(T) -> Seq<u8>,
    wf: spec_fn(T) -> bool,
    s: Seq<u8>,
) -> bool {
    forall|o: int, x: T|
        #![trigger item(s, o), enc(x)]
        wf(x) && holds_at(s, o, enc(x)) ==> item(s, o) == Ok::<(T, int), E>((x, o + enc(x).len()))
}

/// If `item` reads back each well-formed item, reading a held concatenation
/// of encodings gives back all the items.
pub proof fn lemma_parse_many_held<T, E>(
    item: spec_fn(Seq<u8>, int) -> Result<(T, int), E>,
    enc: spec_fn(T) -> Seq<u8>,
    wf: spec_fn(T) -> bool,
    s: Seq<u8>,
    off: int,
    xs: Seq<T>,
)
    requires
        reads_back(item, enc, wf, s),
        forall|i: int| 0 <= i < xs.len() ==> wf(#[trigger] xs[i]),
        holds_at(s, off, concat(xs.map_values(enc))),
    ensures
        parse_many(item, s, off, xs.len()) == Ok::<(Seq<T>, int), E>(
            (xs, off + concat(xs.map_values(enc)).len()),
        ),
    decreases xs.len(),
{
    if xs.len() > 0 {
        let init = xs.drop_last();
        let last = xs.last();
        assert(xs.map_values(enc).drop_last() =~= init.map_values(enc));
        assert(xs.map_values(enc).last() == enc(last));
        lemma_holds_at_split(s, off, concat(init.map_values(enc)), enc(last));
        assert forall|i: int| 0 <= i < init.len() implies wf(#[trigger] init[i]) by {
            assert(init[i] == xs[i]);
        }
        lemma_parse_many_held(item, enc, wf, s, off, init);
        assert(init.len() == (xs.len() - 1) as nat);
        let o = off + concat(init.map_values(enc)).len();
        assert(wf(last));
        assert(item(s, o) == Ok::<(T, int), E>((last, o + enc(last).len())));
        assert(init.push(last) =~= xs);
        assert(concat(xs.map_values(enc)) == concat(init.map_values(enc)) + enc(last));
        assert(parse_many(item, s, off, init.len()) == Ok::<(Seq<T>, int), E>((init, o)));
        lemma_parse_many_step(item, s, off, init.len());
    } else {
        assert(xs.map_values(enc) =~= Seq::<Seq<u8>>::empty());
        assert(xs =~= Seq::<T>::empty());
    }
}

/// Wherever `item` succeeds in `s`, the bytes it took are the encoding of a
/// well-formed item: what it returns.
pub open spec fn reads_only_encodings<T, E>(
    item: spec_fn(Seq<u8>, int) -> Result<(T, int), E>,
    enc: spec_fn(T) -> Seq<u8>,
    wf: spec_fn(T) -> bool,
    s: Seq<u8>,
) -> bool {
    forall|o: int|
        #![trigger item(s, o)]
        0 <= o <= s.len() && item(s, o) is Ok ==> {
            let (x, o2) = item(s, o)->Ok_0;
            &&& o <= o2 <= s.len()
            &&& s.subrange(o, o2) == enc(x)
            &&& wf(x)
        }
}

/// A slice of `s` is the slice up to a middle point followed by the rest.
pub proof fn lemma_subrange_join(s: Seq<u8>, a: int, b: int, c: int)
    requires
        0 <= a <= b <= c <= s.len(),
    ensures
        s.subrange(a, c) == s.subrange(a, b) + s.subrange(b, c),
{
    assert(s.subrange(a, c) =~= s.subrange(a, b) + s.subrange(b, c));
}

/// If `item` takes only encodings, a successful read of `n` items took
/// exactly the concatenation of their encodings.
pub proof fn lemma_parse_many_reads<T, E>(
    item: spec_fn(Seq<u8>, int) -> Result<(T, int), E>,
    enc: spec_fn(T) -> Seq<u8>,
    wf: spec_fn(T) -> bool,
    s: Seq<u8>,
    off: int,
    n: nat,
)
    requires
        reads_only_encodings(item, enc, wf, s),
        0 <= off <= s.len(),
        parse_many(item, s, off, n) is Ok,
    ensures
        ({
            let (xs, o) = parse_many(item, s, off, n)->Ok_0;
            &&& xs.len() == n
            &&& off <= o <= s.len()
            &&& s.subrange(off, o) == concat(xs.map_values(enc))
            &&& forall|i: int| 0 <= i < xs.len() ==> wf(#[trigger] xs[i])
        }),
    decreases n,
{
    if n == 0 {
        let (xs, o) = parse_many(item, s, off, n)->Ok_0;
        assert(xs.map_values(enc) =~= Seq::<Seq<u8>>::empty());
        assert(s.subrange(off, o) =~= Seq::<u8>::empty());
    } else {
        let m = (n - 1) as nat;
        assert(parse_many(item, s, off, m) is Ok);
        lemma_parse_many_reads(item, enc, wf, s, off, m);
        let (xs, o) = parse_many(item, s, off, m)->Ok_0;
        assert(item(s, o) is Ok);
        let (x, o2) = item(s, o)->Ok_0;
        assert(parse_many(item, s, off, n)->Ok_0 == (xs.push(x), o2));
        lemma_subrange_join(s, off, o, o2);
        assert(xs.push(x).map_values(enc).drop_last() =~= xs.map_values(enc));
        assert forall|i: int| 0 <= i < xs.push(x).len() implies wf(#[trigger] xs.push(x)[i]) by {
            if i < xs.len() {
                assert(xs.push(x)[i] == xs[i]);
            }
        }
    }
}

/// A successful read of `n` items gives `n` items.
pub proof fn lemma_parse_many_len<T, E>(
    item: spec_fn(Seq<u8>, int) -> Result<(T, int), E>,
    s: Seq<u8>,
    off: int,
    n: nat,
)
    requires
        parse_many(item, s, off, n) is Ok,
    ensures
        parse_many(item, s, off, n)->Ok_0.0.len() == n,
    decreases n,
{
    if n > 0 {
        lemma_parse_many_len(item, s, off, (n - 1) as nat);
    }
}

/// A concatenation starts with its first part.
pub proof fn lemma_concat_front(parts: Seq<Seq<u8>>)
    requires
        parts.len() > 0,
    ensures
        concat(parts) == parts[0] + concat(parts.drop_first()),
    decreases parts.len(),
{
    if parts.len() == 1 {
        assert(parts.drop_last() =~= Seq::<Seq<u8>>::empty());
        assert(parts.drop_first() =~= Seq::<Seq<u8>>::empty());
        assert(concat(parts) =~= parts[0] + concat(parts.drop_first()));
    } else {
        let init = parts.drop_last();
        lemma_concat_front(init);
        assert(parts.drop_first().drop_last() =~= init.drop_first());
        assert(parts.drop_first().last() == parts.last());
        assert(init[0] == parts[0]);
        assert(concat(parts) =~= parts[0] + concat(parts.drop_first()));
    }
}

/// Reading `n > 0` items reads the first item at `off`, then the other
/// `n - 1` right after it: the items come out in the order they are held.
pub proof fn lemma_parse_many_front<T, E>(
    item: spec_fn(Seq<u8>, int) -> Result<(T, int), E>,
    s: Seq<u8>,
    off: int,
    n: nat,
)
    requires
        n > 0,
        parse_many(item, s, off, n) is Ok,
    ensures
        item(s, off) is Ok,
        parse_many(item, s, off, n)->Ok_0.0[0] == item(s, off)->Ok_0.0,
        parse_many(item, s, item(s, off)->Ok_0.1, (n - 1) as nat) == Ok::<(Seq<T>, int), E>(
            (
                parse_many(item, s, off, n)->Ok_0.0.drop_first(),
                parse_many(item, s, off, n)->Ok_0.1,
            ),
        ),
    decreases n,
{
    let m = (n - 1) as nat;
    assert(parse_many(item, s, off, m) is Ok);
    let (ys, o) = parse_many(item, s, off, m)->Ok_0;
    let (y, o2) = item(s, o)->Ok_0;
    let xs = ys.push(y);
    assert(parse_many(item, s, off, n)->Ok_0 == (xs, o2));
    if n == 1 {
        assert(ys =~= Seq::<T>::empty());
        assert(xs.drop_first() =~= Seq::<T>::empty());
    } else {
        lemma_parse_many_front(item, s, off, m);
        let o1 = item(s, off)->Ok_0.1;
        let mm = (m - 1) as nat;
        assert(parse_many(item, s, o1, mm) == Ok::<(Seq<T>, int), E>((ys.drop_first(), o)));
        lemma_parse_many_step(item, s, o1, mm);
        assert(ys.drop_first().push(y) =~= xs.drop_first());
        assert(xs[0] == ys[0]);
    }
}

/// Concatenating one more mapped item.
pub proof fn lemma_concat_map_take<T>(xs: Seq<T>, f: spec_fn(T) -> Seq<u8>, k: int)
    requires
        0 <= k < xs.len(),
    ensures
        concat(xs.take(k + 1).map_values(f)) == concat(xs.take(k).map_values(f)) + f(xs[k]),
{
    assert(xs.take(k + 1).map_values(f).drop_last() =~= xs.take(k).map_values(f));
}

/// Appends the bytes of `bytes` to `out`.
pub fn append_bytes(out: &mut Vec<u8>, bytes: &[u8])
    ensures
        final(out)@ == old(out)@ + bytes@,
{
    let n = bytes.len();
    let mut i: usize = 0;
    while i < n
        invariant
            n == bytes@.len(),
            i <= n,
            out@ == old(out)@ + bytes@.subrange(0, i as int),
        decreases n - i,
    {
        out.push(bytes[i]);
        i = i + 1;
        assert(out@ =~= old(out)@ + bytes@.subrange(0, i as int));
    }
    assert(bytes@.subrange(0, n as int) =~= bytes@);
}

/// Appends the little-endian bytes of `x`.
pub fn push_u16_le(out: &mut Vec<u8>, x: u16)
    ensures
        final(out)@ == old(out)@ + u16_le(x),
{
    out.push(x as u8);
    out.push((x >> 8u16) as u8);
    assert(out@ =~= old(out)@ + u16_le(x));
}

/// Appends the little-endian bytes of `x`.
pub fn push_u32_le(out: &mut Vec<u8>, x: u32)
    ensures
        final(out)@ == old(out)@ + u32_le(x),
{
    out.push(x as u8);
    out.push((x >> 8u32) as u8);
    out.push((x >> 16u32) as u8);
    out.push((x >> 24u32) as u8);
    assert(out@ =~= old(out)@ + u32_le(x));
}

/// Appends the little-endian bytes of `x`.
pub fn push_u64_le(out: &mut Vec<u8>, x: u64)
    ensures
        final(out)@ == old(out)@ + u64_le(x),
{
    out.push(x as u8);
    out.push((x >> 8u64) as u8);
    out.push((x >> 16u64) as u8);
    out.push((x >> 24u64) as u8);
    out.push((x >> 32u64) as u8);
    out.push((x >> 40u64) as u8);
    out.push((x >> 48u64) as u8);
    out.push((x >> 56u64) as u8);
    assert(out@ =~= old(out)@ + u64_le(x));
}

/// Reads the little-endian `u16` at position `i` of `data`.
pub fn read_u16_le(data: &[u8], i: usize) -> (x: u16)
    requires
        i + 2 <= data@.len(),
    ensures
        x == le_u16_at(data@, i as int),
{
    (data[i] as u16) | ((data[i + 1] as u16) << 8u16)
}

/// Reads the little-endian `u32` at position `i` of `data`.
pub fn read_u32_le(data: &[u8], i: usize) -> (x: u32)
    requires
        i + 4 <= data@.len(),
    ensures
        x == le_u32_at(data@, i as int),
{
    (data[i] as u32) | ((data[i + 1] as u32) << 8u32) | ((data[i + 2] as u32) << 16u32) | ((data[i
        + 3] as u32) << 24u32)
}

/// Reads the little-endian `u64` at position `i` of `data`.
pub fn read_u64_le(data: &[u8], i: usize) -> (x: u64)
    requires
        i + 8 <= data@.len(),
    ensures
        x == le_u64_at(data@, i as int),
{
    (data[i] as u64) | ((data[i + 1] as u64) << 8u64) | ((data[i + 2] as u64) << 16u64) | ((data[i
        + 3] as u64) << 24u64) | ((data[i + 4] as u64) << 32u64) | ((data[i + 5] as u64) << 40u64)
        | ((data[i + 6] as u64) << 48u64) | ((data[i + 7] as u64) << 56u64)
}

} // verus!

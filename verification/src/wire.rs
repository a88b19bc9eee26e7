use vstd::prelude::*;
use crate::order::ByteOrder;

verus! {

/// 256 to the power `n`.
pub open spec fn pow256(n: nat) -> nat
    decreases n,
{
    if n == 0 {
        1
    } else {
        256 * pow256((n - 1) as nat)
    }
}

/// The `n` low bytes of `v`, least significant first.
pub open spec fn le_bytes(v: nat, n: nat) -> Seq<u8>
    decreases n,
{
    if n == 0 {
        Seq::empty()
    } else {
        seq![(v % 256) as u8] + le_bytes(v / 256, (n - 1) as nat)
    }
}

/// The number whose bytes, least significant first, are `b`.
pub open spec fn le_value(b: Seq<u8>) -> nat
    decreases b.len(),
{
    if b.len() == 0 {
        0
    } else {
        b[0] as nat + 256 * le_value(b.skip(1))
    }
}

/// The `n` low bytes of `v` in the given byte order.
pub open spec fn uint_bytes(v: nat, n: nat, order: ByteOrder) -> Seq<u8> {
    match order {
        ByteOrder::Little => le_bytes(v, n),
        ByteOrder::Big => le_bytes(v, n).reverse(),
    }
}

/// The number that `b` holds in the given byte order.
pub open spec fn uint_value(b: Seq<u8>, order: ByteOrder) -> nat {
    match order {
        ByteOrder::Little => le_value(b),
        ByteOrder::Big => le_value(b.reverse()),
    }
}

/// The powers of 256 that bound the integer widths.
pub proof fn lemma_pow256_values()
    ensures
        pow256(0) == 1,
        pow256(1) == 0x100,
        pow256(2) == 0x1_0000,
        pow256(4) == 0x1_0000_0000,
        pow256(8) == 0x1_0000_0000_0000_0000,
{
    assert(pow256(1) == 256 * pow256(0));
    assert(pow256(2) == 256 * pow256(1));
    assert(pow256(3) == 256 * pow256(2));
    assert(pow256(4) == 256 * pow256(3));
    assert(pow256(5) == 256 * pow256(4));
    assert(pow256(6) == 256 * pow256(5));
    assert(pow256(7) == 256 * pow256(6));
    assert(pow256(8) == 256 * pow256(7));
}

/// The powers of 256 grow with the exponent.
pub proof fn lemma_pow256_grows(a: nat, b: nat)
    requires
        a <= b,
    ensures
        1 <= pow256(a) <= pow256(b),
    decreases b,
{
    if b == 0 {
    } else if a == b {
        lemma_pow256_grows((a - 1) as nat, (b - 1) as nat);
    } else {
        lemma_pow256_grows(a, (b - 1) as nat);
    }
}

/// An encoding of width `n` has `n` bytes.
pub proof fn lemma_le_bytes_len(v: nat, n: nat)
    ensures
        le_bytes(v, n).len() == n,
    decreases n,
{
    if n > 0 {
        lemma_le_bytes_len(v / 256, (n - 1) as nat);
    }
}

/// An encoding of width `n` has `n` bytes in either byte order.
pub proof fn lemma_uint_bytes_len(v: nat, n: nat, order: ByteOrder)
    ensures
        uint_bytes(v, n, order).len() == n,
{
    lemma_le_bytes_len(v, n);
}

/// What `n` bytes hold is below 256 to the power `n`.
pub proof fn lemma_le_value_bound(b: Seq<u8>)
    ensures
        le_value(b) < pow256(b.len()),
    decreases b.len(),
{
    if b.len() > 0 {
        lemma_le_value_bound(b.skip(1));
    }
}

/// What `n` bytes hold is below 256 to the power `n`, in either byte order.
pub proof fn lemma_uint_value_bound(b: Seq<u8>, order: ByteOrder)
    ensures
        uint_value(b, order) < pow256(b.len()),
{
    lemma_le_value_bound(b);
    lemma_le_value_bound(b.reverse());
}

/// Decoding the little-endian bytes of a number that fits gives it back.
pub proof fn lemma_le_round_trip(v: nat, n: nat)
    requires
        v < pow256(n),
    ensures
        le_value(le_bytes(v, n)) == v,
    decreases n,
{
    if n > 0 {
        let rest = le_bytes(v / 256, (n - 1) as nat);
        lemma_le_round_trip(v / 256, (n - 1) as nat);
        lemma_le_bytes_len(v / 256, (n - 1) as nat);
        assert(le_bytes(v, n).skip(1) =~= rest);
    }
}

/// Encoding what little-endian bytes hold gives the bytes back.
pub proof fn lemma_le_bytes_of_value(b: Seq<u8>)
    ensures
        le_bytes(le_value(b), b.len()) == b,
    decreases b.len(),
{
    if b.len() > 0 {
        lemma_le_bytes_of_value(b.skip(1));
        let rest = le_value(b.skip(1));
        assert((b[0] as nat + 256 * rest) % 256 == b[0] as nat);
        assert((b[0] as nat + 256 * rest) / 256 == rest);
        assert(le_bytes(le_value(b), b.len()) =~= b);
    } else {
        assert(le_bytes(le_value(b), b.len()) =~= b);
    }
}

/// Reversing twice changes nothing.
pub proof fn lemma_reverse_twice(b: Seq<u8>)
    ensures
        b.reverse().reverse() == b,
{
    assert(b.reverse().reverse() =~= b);
}

/// Decoding the bytes of a number that fits, in the byte order they were
/// written in, gives the number back.
pub proof fn lemma_uint_round_trip(v: nat, n: nat, order: ByteOrder)
    requires
        v < pow256(n),
    ensures
        uint_value(uint_bytes(v, n, order), order) == v,
{
    lemma_le_round_trip(v, n);
    lemma_reverse_twice(le_bytes(v, n));
}

/// A number whose two encodings differ is not given back by the decoder of
/// the other byte order.
pub proof fn lemma_uint_cross_decode(v: nat, n: nat, order: ByteOrder, other: ByteOrder)
    requires
        v < pow256(n),
        uint_bytes(v, n, ByteOrder::Little) != uint_bytes(v, n, ByteOrder::Big),
        order != other,
    ensures
        uint_value(uint_bytes(v, n, order), other) != v,
{
    let le = le_bytes(v, n);
    lemma_le_bytes_len(v, n);
    lemma_reverse_twice(le);
    // Either way the other decoder reads the reversed little-endian bytes.
    assert(uint_value(uint_bytes(v, n, order), other) == le_value(le.reverse()));
    if le_value(le.reverse()) == v {
        lemma_le_bytes_of_value(le.reverse());
        assert(le.reverse().len() == n);
        assert(le.reverse() == le);
    }
}

/// The bytes of `v` in reverse.
pub fn reversed(v: &Vec<u8>) -> (r: Vec<u8>)
    ensures
        r@ == v@.reverse(),
{
    let mut r: Vec<u8> = Vec::new();
    let mut i: usize = v.len();
    while i > 0
        invariant
            i <= v.len(),
            r.len() == v.len() - i,
            forall|j: int| 0 <= j < r.len() ==> r@[j] == v@[v.len() - 1 - j],
        decreases i,
    {
        i -= 1;
        r.push(v[i]);
    }
    assert(r@ =~= v@.reverse());
    r
}

/// The `n` low bytes of `v` in the given byte order.
pub fn encode_uint(v: u64, n: usize, order: ByteOrder) -> (out: Vec<u8>)
    ensures
        out@ == uint_bytes(v as nat, n as nat, order),
{
    let mut le: Vec<u8> = Vec::new();
    let mut rest: u64 = v;
    let mut i: usize = 0;
    while i < n
        invariant
            i <= n,
            le@ + le_bytes(rest as nat, (n - i) as nat) == le_bytes(v as nat, n as nat),
        decreases n - i,
    {
        let ghost before = le@;
        le.push((rest % 256) as u8);
        proof {
            let tail = le_bytes((rest / 256) as nat, (n - i - 1) as nat);
            assert(le@ + tail =~= before + (seq![(rest % 256) as u8] + tail));
        }
        rest = rest / 256;
        i += 1;
    }
    assert(le@ =~= le@ + le_bytes(rest as nat, 0));
    match order {
        ByteOrder::Little => le,
        ByteOrder::Big => reversed(&le),
    }
}

/// The number that the `n` bytes of `src` from `pos` on hold in the given
/// byte order.
pub fn decode_uint(src: &Vec<u8>, pos: usize, n: usize, order: ByteOrder) -> (v: u64)
    requires
        n <= 8,
        pos + n <= src.len(),
    ensures
        v == uint_value(src@.subrange(pos as int, pos + n), order),
{
    let ghost sub = src@.subrange(pos as int, pos + n);
    let mut acc: u64 = 0;
    let mut i: usize = 0;
    match order {
        ByteOrder::Little => {
            while i < n
                invariant
                    i <= n <= 8,
                    pos + n <= src.len(),
                    sub == src@.subrange(pos as int, pos + n),
                    acc == le_value(sub.skip(n - i)),
                decreases n - i,
            {
                proof {
                    lemma_le_value_bound(sub.skip(n - i));
                    lemma_pow256_grows(i as nat, 7);
                    lemma_pow256_values();
                    assert(pow256(7) * 256 == pow256(8));
                    assert(sub.skip(n - i - 1).skip(1) =~= sub.skip(n - i));
                }
                acc = acc * 256 + src[pos + (n - i - 1)] as u64;
                i += 1;
            }
            assert(sub.skip(0) =~= sub);
        },
        ByteOrder::Big => {
            while i < n
                invariant
                    i <= n <= 8,
                    pos + n <= src.len(),
                    sub == src@.subrange(pos as int, pos + n),
                    acc == le_value(sub.take(i as int).reverse()),
                decreases n - i,
            {
                proof {
                    lemma_le_value_bound(sub.take(i as int).reverse());
                    lemma_pow256_grows(i as nat, 7);
                    lemma_pow256_values();
                    assert(pow256(7) * 256 == pow256(8));
                    assert(sub.take(i + 1).reverse().skip(1) =~= sub.take(i as int).reverse());
                }
                acc = acc * 256 + src[pos + i] as u64;
                i += 1;
            }
            assert(sub.take(n as int) =~= sub);
        },
    }
    acc
}

} // verus!

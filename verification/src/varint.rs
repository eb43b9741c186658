//! Variable-length integers.
//!
//! Every byte carries seven bits of payload, least significant group first. The
//! high bit marks the last byte. Each byte that is not the last one stands for
//! one more than its payload, so that every integer has exactly one encoding.
use vstd::arithmetic::power2::{
    lemma2_to64, lemma_pow2_adds, lemma_pow2_pos, lemma_pow2_strictly_increases, pow2,
};
use vstd::bits::{lemma_u64_mul_pow2_le_max_iff_max_shr, lemma_u64_shl_is_mul};
use vstd::prelude::*;
use vstd::slice::slice_subrange;

verus! {

/// The integer that the varint at the front of `bytes` stands for, with the
/// number of bytes it takes up. `None` where `bytes` ends before a byte with
/// the high bit set.
pub open spec fn decode(bytes: Seq<u8>) -> Option<(nat, nat)>
    decreases bytes.len(),
{
    if bytes.len() == 0 {
        None
    } else if bytes[0] >= 0x80 {
        Some(((bytes[0] - 0x80) as nat, 1nat))
    } else {
        match decode(bytes.skip(1)) {
            Some((v, n)) => Some(((bytes[0] + 0x80 + 0x80 * v) as nat, n + 1)),
            None => None,
        }
    }
}

/// The bytes that stand for `v`.
pub open spec fn encode(v: nat) -> Seq<u8>
    decreases v,
{
    if v < 0x80 {
        seq![(v + 0x80) as u8]
    } else {
        seq![(v % 0x80) as u8] + encode((v / 0x80 - 1) as nat)
    }
}

/// What reading a varint from `input` gives: the integer, with `left` what
/// follows it, where there is one and a machine word holds it; else nothing,
/// with `left` the whole of `input`.
pub open spec fn reads(input: Seq<u8>, r: Option<usize>, left: Seq<u8>) -> bool {
    match r {
        Some(v) => decode(input) matches Some((value, len)) && value == v && left == input.skip(
            len as int,
        ),
        None => left == input && (decode(input) matches Some((value, _)) ==> value > usize::MAX),
    }
}

/// What `decode` gives for the whole input once the first bytes, none of them
/// the last of the varint, have added up to `acc` and `rest` is what `decode`
/// finds behind them, `count` bytes in and worth `scale` each.
pub open spec fn resume(acc: nat, scale: nat, count: nat, rest: Option<(nat, nat)>) -> Option<
    (nat, nat),
> {
    match rest {
        Some((v, n)) => Some((acc + scale * v, n + count)),
        None => None,
    }
}

/// Decoding an encoded integer gives the integer back and stops where the
/// encoding ends, whatever follows it.
pub proof fn lemma_decode_encode(v: nat, rest: Seq<u8>)
    ensures
        decode(encode(v) + rest) == Some((v, encode(v).len())),
    decreases v,
{
    let bytes = encode(v) + rest;
    if v < 0x80 {
        assert(bytes[0] == (v + 0x80) as u8);
    } else {
        let w = (v / 0x80 - 1) as nat;
        lemma_decode_encode(w, rest);
        assert(bytes[0] == (v % 0x80) as u8);
        assert(bytes.skip(1) =~= encode(w) + rest);
        assert(encode(v).len() == encode(w).len() + 1);
    }
}

/// A varint takes up at least one byte, and no more bytes than there are.
pub proof fn lemma_decode_len(bytes: Seq<u8>)
    ensures
        decode(bytes) matches Some((_, len)) ==> 1 <= len <= bytes.len(),
    decreases bytes.len(),
{
    if bytes.len() > 0 && bytes[0] < 0x80 {
        lemma_decode_len(bytes.skip(1));
    }
}

/// An encoding is never empty, and only its last byte has the high bit set.
pub proof fn lemma_encode_shape(v: nat)
    ensures
        encode(v).len() >= 1,
        encode(v).last() >= 0x80,
        forall|i: int| 0 <= i < encode(v).len() - 1 ==> encode(v)[i] < 0x80,
    decreases v,
{
    if v >= 0x80 {
        let w = (v / 0x80 - 1) as nat;
        lemma_encode_shape(w);
        assert forall|i: int| 0 <= i < encode(v).len() - 1 implies encode(v)[i] < 0x80 by {
            if i > 0 {
                assert(encode(v)[i] == encode(w)[i - 1]);
            }
        }
        assert(encode(v).last() == encode(w).last());
    }
}

/// Returns `current + x * 2^shift`, or `None` where that is more than a
/// `usize` holds.
pub fn varint_add_shifted(current: usize, x: u8, shift: u32) -> (r: Option<usize>)
    ensures
        r == if current + x * pow2(shift as nat) <= usize::MAX {
            Some((current + x * pow2(shift as nat)) as usize)
        } else {
            None::<usize>
        },
{
    proof {
        lemma_pow2_pos(shift as nat);
    }
    if x == 0 {
        return Some(current);
    }
    if shift >= 64 {
        proof {
            lemma2_to64();
            if shift > 64 {
                lemma_pow2_strictly_increases(64, shift as nat);
            }
            assert(x * pow2(shift as nat) >= pow2(shift as nat)) by (nonlinear_arith)
                requires
                    x >= 1,
            ;
        }
        return None;
    }
    let wide: u64 = x as u64;
    let max: u64 = usize::MAX as u64;
    proof {
        lemma_u64_mul_pow2_le_max_iff_max_shr(wide, shift as u64, max);
    }
    if wide > (max >> (shift as u64)) {
        return None;
    }
    proof {
        lemma_u64_shl_is_mul(wide, shift as u64);
    }
    let term: u64 = wide << (shift as u64);
    current.checked_add(term as usize)
}

/// Reads one varint from the front of `buf` and moves `buf` past it. Gives
/// `None`, and leaves `buf` where it was, where the input ends inside the
/// varint or the integer is more than a `usize` holds.
pub fn read_bytes(buf: &mut &[u8]) -> (r: Option<usize>)
    ensures
        reads(old(buf)@, r, final(buf)@),
{
    let input: &[u8] = *buf;
    let mut varint: usize = 0;
    let mut shift: u32 = 0;
    let mut i: usize = 0;
    proof {
        lemma2_to64();
        assert(input@.skip(0) =~= input@);
    }
    while i < input.len()
        invariant
            i <= input@.len(),
            shift == 7 * i,
            shift <= 63,
            *buf == input,
            old(buf)@ == input@,
            decode(input@) == resume(
                varint as nat,
                pow2(shift as nat),
                i as nat,
                decode(input@.skip(i as int)),
            ),
        decreases input@.len() - i,
    {
        let c: u8 = input[i];
        let ghost tail = input@.skip(i as int);
        let ghost scale = pow2(shift as nat);
        proof {
            assert(tail[0] == c);
            assert(tail.skip(1) =~= input@.skip(i + 1));
            assert((c & 0x80 != 0) <==> c >= 0x80) by (bit_vector);
            assert(c >= 0x80 ==> c & 0x7f == c - 0x80) by (bit_vector);
            assert(c < 0x80 ==> c | 0x80 == c + 0x80) by (bit_vector);
            lemma_pow2_pos(shift as nat);
            lemma2_to64();
            assert((c & 0x7f) * scale == scale * (c & 0x7f)) by (nonlinear_arith);
            assert((c | 0x80) * scale == scale * (c | 0x80)) by (nonlinear_arith);
        }
        if c & 0x80 != 0 {
            return match varint_add_shifted(varint, c & 0x7f, shift) {
                Some(v) => {
                    *buf = slice_subrange(input, i + 1, input.len());
                    assert(buf@ =~= input@.skip(i + 1));
                    Some(v)
                },
                None => None,
            };
        }
        let next = varint_add_shifted(varint, c | 0x80, shift);
        proof {
            match decode(input@.skip(i + 1)) {
                Some((v, n)) => {
                    assert(scale * (c + 0x80 + 0x80 * v) == scale * (c + 0x80) + (scale * 0x80)
                        * v) by (nonlinear_arith);
                    assert((scale * 0x80) * v >= 0) by (nonlinear_arith);
                },
                None => {},
            }
        }
        match next {
            Some(v) => {
                proof {
                    lemma_pow2_adds(shift as nat, 7);
                    assert(scale * 0x80 <= scale * (c + 0x80)) by (nonlinear_arith)
                        requires
                            c >= 0,
                            scale >= 0,
                    ;
                    assert(pow2((shift + 7) as nat) == scale * 0x80);
                    if shift + 7 > 64 {
                        lemma_pow2_strictly_increases(64, (shift + 7) as nat);
                    }
                }
                varint = v;
            },
            None => {
                return None;
            },
        }
        shift += 7;
        i += 1;
    }
    None
}

/// Appends the encoding of `varint` to `buf`.
pub fn write_bytes(buf: &mut Vec<u8>, varint: usize)
    ensures
        final(buf)@ == old(buf)@ + encode(varint as nat),
{
    let mut rest: usize = varint;
    loop
        invariant_except_break
            old(buf)@ + encode(varint as nat) == buf@ + encode(rest as nat),
        ensures
            buf@ == old(buf)@ + encode(varint as nat),
        decreases rest,
    {
        assert(rest & 0x7f == rest % 0x80) by (bit_vector);
        let x: u8 = (rest & 0x7f) as u8;
        proof {
            assert(rest >> 7 == rest / 0x80) by (bit_vector);
            assert(x < 0x80 ==> x | 0x80 == x + 0x80) by (bit_vector);
        }
        let ghost before = buf@;
        let ghost whole = rest;
        rest = rest >> 7;
        if rest == 0 {
            buf.push(x | 0x80);
            assert(buf@ =~= before + encode(whole as nat));
            break;
        }
        buf.push(x);
        rest -= 1;
        assert(buf@ + encode(rest as nat) =~= before + encode(whole as nat));
    }
}

/// The encoding of `varint`, in a buffer of its own.
pub fn to_vec(varint: usize) -> (r: Vec<u8>)
    ensures
        r@ == encode(varint as nat),
{
    let mut result: Vec<u8> = Vec::new();
    write_bytes(&mut result, varint);
    assert(result@ =~= encode(varint as nat));
    result
}

} // verus!

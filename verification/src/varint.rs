//! The variable-length signed integer of the wire format.
//!
//! The first byte holds six value bits, a sign bit (64) and a continuation
//! bit (128). Every further byte holds seven value bits and a continuation
//! bit. The magnitude is assembled least significant group first, and the
//! sign is applied last.

use crate::byte_buffer::ReadError;
use vstd::prelude::*;

verus! {

/// The number of bytes of the integer that starts `s`: up to and including
/// the first byte without a continuation bit. `None` if every byte of `s`
/// has the continuation bit set.
pub open spec fn varint_width(s: Seq<u8>) -> Option<int>
    decreases s.len(),
{
    if s.len() == 0 {
        None
    } else if s[0] < 128 {
        Some(1)
    } else {
        match varint_width(s.drop_first()) {
            Some(n) => Some(n + 1),
            None => None,
        }
    }
}

/// The number spelled by seven-bit groups, least significant first, that
/// ends at the first byte without a continuation bit.
pub open spec fn septets_value(s: Seq<u8>) -> nat
    decreases s.len(),
{
    if s.len() == 0 {
        0
    } else if s[0] < 128 {
        s[0] as nat
    } else {
        ((s[0] - 128) + 128 * septets_value(s.drop_first())) as nat
    }
}

/// The magnitude of the integer that starts `s`.
pub open spec fn varint_magnitude(s: Seq<u8>) -> nat {
    if s.len() == 0 {
        0
    } else if s[0] < 128 {
        (s[0] % 64) as nat
    } else {
        (s[0] % 64 + 64 * septets_value(s.drop_first())) as nat
    }
}

/// Whether the sign bit of the integer that starts `s` is set.
pub open spec fn varint_is_negative(s: Seq<u8>) -> bool {
    s.len() > 0 && s[0] % 128 >= 64
}

/// The integer that starts `s`.
pub open spec fn varint_value(s: Seq<u8>) -> int {
    if varint_is_negative(s) {
        -(varint_magnitude(s) as int)
    } else {
        varint_magnitude(s) as int
    }
}

/// What decoding the start of `s` yields when the value has to lie in
/// `min..=max`: the value and the number of bytes it took.
pub open spec fn decode_varint(s: Seq<u8>, min: int, max: int) -> Result<(int, int), ReadError> {
    match varint_width(s) {
        None => Err(ReadError::ShortRead),
        Some(n) => {
            let v = varint_value(s);
            if min <= v <= max {
                Ok((v, n))
            } else {
                Err(ReadError::BadVarint)
            }
        },
    }
}

/// The seven-bit groups of `m`, least significant first, each but the last
/// with the continuation bit.
pub open spec fn septets_encoding(m: nat) -> Seq<u8>
    decreases m,
{
    if m < 128 {
        seq![m as u8]
    } else {
        seq![(128 + m % 128) as u8] + septets_encoding(m / 128)
    }
}

/// The encoding of `v`, in as few bytes as its magnitude needs.
pub open spec fn varint_encoding(v: int) -> Seq<u8> {
    let m: nat = if v < 0 { (-v) as nat } else { v as nat };
    let sign: nat = if v < 0 { 64 } else { 0 };
    if m < 64 {
        seq![(sign + m) as u8]
    } else {
        seq![(128 + sign + m % 64) as u8] + septets_encoding(m / 64)
    }
}

/// An integer takes at least one byte and no more than there are.
pub proof fn lemma_varint_width_bounds(s: Seq<u8>)
    ensures
        match varint_width(s) {
            Some(n) => 1 <= n <= s.len(),
            None => true,
        },
    decreases s.len(),
{
    if s.len() > 0 && s[0] >= 128 {
        lemma_varint_width_bounds(s.drop_first());
    }
}

/// Groups encoded from `m` and followed by anything decode to `m`, and take
/// exactly the encoded bytes.
pub proof fn lemma_septets_round_trip(m: nat, rest: Seq<u8>)
    ensures
        septets_value(septets_encoding(m) + rest) == m,
        varint_width(septets_encoding(m) + rest) == Some(septets_encoding(m).len() as int),
    decreases m,
{
    let s = septets_encoding(m) + rest;
    if m < 128 {
        assert(s[0] == m as u8);
    } else {
        let tail = septets_encoding(m / 128);
        lemma_septets_round_trip(m / 128, rest);
        assert(s[0] == (128 + m % 128) as u8);
        assert(s.drop_first() =~= tail + rest);
    }
}

/// Encoding then decoding yields the value and consumes exactly the bytes
/// that encoding produced, whatever follows them.
pub proof fn lemma_varint_round_trip(v: int, rest: Seq<u8>)
    ensures
        varint_value(varint_encoding(v) + rest) == v,
        varint_width(varint_encoding(v) + rest) == Some(varint_encoding(v).len() as int),
{
    let s = varint_encoding(v) + rest;
    let m: nat = if v < 0 { (-v) as nat } else { v as nat };
    let sign: nat = if v < 0 { 64 } else { 0 };
    if m < 64 {
        assert(s[0] == (sign + m) as u8);
    } else {
        lemma_septets_round_trip(m / 64, rest);
        assert(s[0] == (128 + sign + m % 64) as u8);
        assert(s.drop_first() =~= septets_encoding(m / 64) + rest);
    }
}

/// Encoding a value within the limits and decoding the bytes, whatever
/// follows them, yields the value and the width of its encoding.
pub proof fn lemma_encode_then_decode(v: int, rest: Seq<u8>, min: int, max: int)
    requires
        min <= v <= max,
    ensures
        decode_varint(varint_encoding(v) + rest, min, max) == Ok::<(int, int), ReadError>(
            (v, varint_encoding(v).len() as int),
        ),
{
    lemma_varint_round_trip(v, rest);
}

/// Whether `r` is what decoding a 64-bit integer from the start of `s` yields.
pub open spec fn is_decoding_of(r: Result<(i64, usize), ReadError>, s: Seq<u8>) -> bool {
    match decode_varint(s, i64::MIN as int, i64::MAX as int) {
        Ok((v, n)) => r == Ok::<(i64, usize), ReadError>((v as i64, n as usize)),
        Err(e) => r == Err::<(i64, usize), ReadError>(e),
    }
}

/// Decode the integer at the start of `s`: its value and its width in bytes.
///
/// Fails with `ShortRead` when `s` ends before a byte without a continuation
/// bit, and with `BadVarint` when the value does not fit in 64 bits.
pub fn scan_varint(s: &[u8]) -> (r: Result<(i64, usize), ReadError>)
    ensures
        is_decoding_of(r, s@),
{
    if s.len() == 0 {
        return Err(ReadError::ShortRead);
    }
    let first: u8 = s[0];
    let negative: bool = first % 128 >= 64;
    // `mag` is the magnitude gathered so far and `w` the place value of the
    // next group. Neither is followed beyond 2^63, past which no value fits:
    // `too_big` and `w_big` record that they have passed it.
    let mut mag: u128 = (first % 64) as u128;
    let mut too_big: bool = false;
    let mut w: u128 = 64;
    let mut w_big: bool = false;
    let ghost mut weight: int = 64;
    let mut i: usize = 1;
    let mut done: bool = first < 128;
    proof {
        assert(s@.drop_first() =~= s@.skip(1));
    }
    while !done && i < s.len()
        invariant
            1 <= i <= s.len(),
            weight >= 64,
            !w_big ==> w == weight && w <= 0x8000_0000_0000_0000,
            w_big ==> weight > 0x8000_0000_0000_0000,
            mag <= 0x8000_0000_0000_0000,
            done ==> varint_width(s@) == Some(i as int),
            done && !too_big ==> varint_magnitude(s@) == mag,
            !done ==> varint_width(s@) == match varint_width(s@.skip(i as int)) {
                Some(n) => Some(n + i),
                None => None,
            },
            !done && !too_big ==> varint_magnitude(s@) == mag + weight * septets_value(
                s@.skip(i as int),
            ),
            too_big ==> varint_magnitude(s@) > 0x8000_0000_0000_0000,
        decreases s.len() - i + (if done { 0int } else { 1int }),
    {
        let b: u8 = s[i];
        let sept: u8 = b % 128;
        let ghost rest = s@.skip(i as int + 1);
        let ghost tail = septets_value(rest);
        proof {
            assert(s@.skip(i as int).drop_first() =~= rest);
            assert(s@.skip(i as int)[0] == b);
            assert(septets_value(s@.skip(i as int)) == if b < 128 {
                sept as int
            } else {
                sept + 128 * tail
            });
            assert(weight * (sept + 128 * tail) == weight * sept + (weight * 128) * tail)
                by (nonlinear_arith);
            assert(sept >= 1 ==> weight * sept >= weight) by (nonlinear_arith)
                requires
                    weight >= 0,
            ;
            assert((weight * 128) * tail >= 0) by (nonlinear_arith)
                requires
                    weight >= 0,
                    tail >= 0,
            ;
            assert(sept == 0 ==> weight * sept == 0) by (nonlinear_arith);
            assert(weight * sept == sept * weight) by (nonlinear_arith);
            assert(b < 128 ==> weight * septets_value(s@.skip(i as int)) == weight * sept);
            assert(b >= 128 ==> weight * septets_value(s@.skip(i as int)) == weight * sept + (
            weight * 128) * tail);
        }
        if !too_big && sept != 0 {
            if w_big {
                too_big = true;
            } else {
                assert(sept * w <= 127 * 0x8000_0000_0000_0000) by (nonlinear_arith)
                    requires
                        0 <= sept <= 127,
                        0 <= w <= 0x8000_0000_0000_0000,
                ;
                let add: u128 = (sept as u128) * w;
                if mag + add > 0x8000_0000_0000_0000 {
                    too_big = true;
                } else {
                    mag = mag + add;
                }
            }
        }
        if b < 128 {
            done = true;
        } else {
            if !w_big {
                w = w * 128;
                if w > 0x8000_0000_0000_0000 {
                    w_big = true;
                }
            }
            proof {
                assert(weight * 128 > weight) by (nonlinear_arith)
                    requires
                        weight >= 64,
                ;
                weight = weight * 128;
            }
        }
        i = i + 1;
    }
    if !done {
        proof {
            assert(s@.skip(s@.len() as int).len() == 0);
        }
        return Err(ReadError::ShortRead);
    }
    if too_big {
        return Err(ReadError::BadVarint);
    }
    if negative {
        if mag == 0x8000_0000_0000_0000 {
            Ok((i64::MIN, i))
        } else {
            Ok((-(mag as i64), i))
        }
    } else if mag == 0x8000_0000_0000_0000 {
        Err(ReadError::BadVarint)
    } else {
        Ok((mag as i64, i))
    }
}

/// Encode `v` in as few bytes as its magnitude needs.
pub fn encode_varint(v: i64) -> (out: Vec<u8>)
    ensures
        out@ == varint_encoding(v as int),
{
    let m: u64 = if v == i64::MIN {
        0x8000_0000_0000_0000
    } else if v < 0 {
        (-v) as u64
    } else {
        v as u64
    };
    let sign: u8 = if v < 0 { 64 } else { 0 };
    let mut out: Vec<u8> = Vec::new();
    if m < 64 {
        out.push(sign + (m as u8));
        return out;
    }
    out.push(128 + sign + ((m % 64) as u8));
    let mut rest: u64 = m / 64;
    while rest >= 128
        invariant
            out@ + septets_encoding(rest as nat) == varint_encoding(v as int),
        decreases rest,
    {
        let ghost before = out@;
        out.push(128 + ((rest % 128) as u8));
        proof {
            assert(septets_encoding(rest as nat) == seq![(128 + rest % 128) as u8]
                + septets_encoding((rest / 128) as nat));
            assert(out@ + septets_encoding((rest / 128) as nat) =~= before + septets_encoding(
                rest as nat,
            ));
        }
        rest = rest / 128;
    }
    out.push(rest as u8);
    proof {
        assert(septets_encoding(rest as nat) =~= seq![rest as u8]);
    }
    out
}

} // verus!

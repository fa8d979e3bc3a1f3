//! The variable-length integer codec.
//!
//! A signed 32-bit value travels as one to five bytes: seven payload bits per
//! byte, least significant group first, the high bit set on every byte except
//! the last. The integer's bit pattern is treated as unsigned, so negative
//! values always occupy the full five bytes.

use vstd::arithmetic::power::pow;
use vstd::prelude::*;

verus! {

/// A failed attempt to decode a variable-length integer.
#[derive(Debug, PartialEq, Eq, Structural, Clone, Copy)]
pub enum VarIntError {
    /// The buffer ran out before a terminating byte: buffer more and retry.
    NotEnoughData,
    /// A sixth byte would be needed: the peer is corrupt or non-conforming.
    TooLong,
}

/// The encoding of `n`: low seven-bit groups first, the high bit set on every
/// byte except the last.
pub open spec fn varint_bytes(n: u32) -> Seq<u8>
    decreases n,
{
    if n < 0x80 {
        seq![n as u8]
    } else {
        seq![(0x80 + n % 0x80) as u8] + varint_bytes(n / 0x80)
    }
}

/// The accumulator of the seven-bit groups of `b`, least significant first.
pub open spec fn varint_value_int(b: Seq<u8>) -> int
    decreases b.len(),
{
    if b.len() == 0 {
        0
    } else {
        b[0] % 0x80 + 0x80 * varint_value_int(b.drop_first())
    }
}

/// The decoded 32-bit value of `b`: the accumulator truncated to 32 bits, as
/// a fifth byte's upper groups fall outside the word.
pub open spec fn varint_value(b: Seq<u8>) -> u32 {
    (varint_value_int(b) % 0x1_0000_0000) as u32
}

/// Where the varint at the front of `b` ends: `Ok(l)` when `b[l - 1]` is the
/// first byte with a clear continuation bit and `l <= 5`.
pub open spec fn varint_split(b: Seq<u8>) -> Result<int, VarIntError> {
    if b.len() >= 1 && b[0] < 0x80 {
        Ok(1)
    } else if b.len() >= 2 && b[1] < 0x80 {
        Ok(2)
    } else if b.len() >= 3 && b[2] < 0x80 {
        Ok(3)
    } else if b.len() >= 4 && b[3] < 0x80 {
        Ok(4)
    } else if b.len() >= 5 && b[4] < 0x80 {
        Ok(5)
    } else if b.len() < 5 {
        Err(VarIntError::NotEnoughData)
    } else {
        Err(VarIntError::TooLong)
    }
}

/// What decoding the front of `b` yields: the value and the bytes consumed.
pub open spec fn spec_from_varint(b: Seq<u8>) -> Result<(i32, int), VarIntError> {
    match varint_split(b) {
        Ok(l) => Ok((varint_value(b.take(l)) as i32, l)),
        Err(e) => Err(e),
    }
}

/// The encoding is one to five bytes long.
pub proof fn lemma_varint_bytes_len(n: u32)
    ensures
        1 <= varint_bytes(n).len() <= 5,
{
    let n1 = n / 0x80;
    let n2 = n1 / 0x80;
    let n3 = n2 / 0x80;
    let n4 = n3 / 0x80;
    assert(n1 <= 0x01ff_ffff && n2 <= 0x0003_ffff && n3 <= 0x07ff && n4 <= 0x0f);
    assert(varint_bytes(n4).len() == 1);
    if n3 >= 0x80 {
        assert(varint_bytes(n3).len() == 1 + varint_bytes(n4).len());
    } else {
        assert(varint_bytes(n3).len() == 1);
    }
    if n2 >= 0x80 {
        assert(varint_bytes(n2).len() == 1 + varint_bytes(n3).len());
    } else {
        assert(varint_bytes(n2).len() == 1);
    }
    if n1 >= 0x80 {
        assert(varint_bytes(n1).len() == 1 + varint_bytes(n2).len());
    } else {
        assert(varint_bytes(n1).len() == 1);
    }
    if n >= 0x80 {
        assert(varint_bytes(n).len() == 1 + varint_bytes(n1).len());
    } else {
        assert(varint_bytes(n).len() == 1);
    }
}

/// The shape and the value of an encoding: every byte but the last carries the
/// continuation bit, the last does not, and the groups reassemble to `n`.
pub proof fn lemma_varint_bytes_decode(n: u32)
    ensures
        varint_value_int(varint_bytes(n)) == n,
        varint_bytes(n).last() < 0x80,
        forall|j: int| 0 <= j < varint_bytes(n).len() - 1 ==> varint_bytes(n)[j] >= 0x80,
    decreases n,
{
    if n < 0x80 {
        assert(varint_bytes(n) == seq![n as u8]);
        assert(seq![n as u8].drop_first() =~= Seq::<u8>::empty());
        assert(varint_value_int(Seq::<u8>::empty()) == 0);
        assert(varint_value_int(varint_bytes(n)) == (n as u8) % 0x80 + 0x80 * 0);
    } else {
        let rest = varint_bytes(n / 0x80);
        lemma_varint_bytes_decode(n / 0x80);
        assert(varint_bytes(n).drop_first() =~= rest);
        assert(varint_bytes(n)[0] == (0x80 + n % 0x80) as u8);
        assert(((0x80 + n % 0x80) as u8) % 0x80 == n % 0x80);
        assert(varint_value_int(varint_bytes(n)) == n % 0x80 + 0x80 * varint_value_int(rest));
        assert(n % 0x80 + 0x80 * ((n / 0x80) as int) == n);
    }
}

/// Decoding a buffer that begins with the encoding of `n` yields `n` and
/// consumes exactly the encoding, whatever bytes follow.
pub proof fn lemma_varint_decode_prefix(n: u32, rest: Seq<u8>)
    ensures
        spec_from_varint(varint_bytes(n) + rest) == Ok::<(i32, int), VarIntError>(
            (n as i32, varint_bytes(n).len() as int),
        ),
{
    let enc = varint_bytes(n);
    let b = enc + rest;
    let l = enc.len() as int;
    lemma_varint_bytes_len(n);
    lemma_varint_bytes_decode(n);
    assert(b[l - 1] == enc.last());
    assert(forall|j: int| 0 <= j < l - 1 ==> b[j] >= 0x80);
    assert(varint_split(b) == Ok::<int, VarIntError>(l));
    assert(b.take(l) =~= enc);
    assert(varint_value_int(enc) % 0x1_0000_0000 == n);
}

/// A strict prefix of an encoding never decodes: it still awaits data.
pub proof fn lemma_varint_strict_prefix(n: u32, k: int)
    requires
        0 <= k < varint_bytes(n).len(),
    ensures
        spec_from_varint(varint_bytes(n).take(k)) == Err::<(i32, int), VarIntError>(
            VarIntError::NotEnoughData,
        ),
{
    let enc = varint_bytes(n);
    let p = enc.take(k);
    lemma_varint_bytes_len(n);
    lemma_varint_bytes_decode(n);
    assert(forall|j: int| 0 <= j < k ==> p[j] >= 0x80);
    assert(p.len() < 5);
}

/// Decoding an encoding yields the value and the encoded length back, and the
/// encoding is one to five bytes long.
pub proof fn lemma_varint_round_trip(n: i32)
    ensures
        1 <= varint_bytes(n as u32).len() <= 5,
        spec_from_varint(varint_bytes(n as u32)) == Ok::<(i32, int), VarIntError>(
            (n, varint_bytes(n as u32).len() as int),
        ),
{
    let enc = varint_bytes(n as u32);
    lemma_varint_bytes_len(n as u32);
    lemma_varint_decode_prefix(n as u32, Seq::empty());
    assert(enc + Seq::<u8>::empty() =~= enc);
    assert((n as u32) as i32 == n) by (bit_vector);
}

/// Encodes `n`: emits the low seven-bit group of the unsigned remainder and
/// shifts it away until nothing is left.
pub fn to_varint(n: i32) -> (r: Vec<u8>)
    ensures
        r@ == varint_bytes(n as u32),
        1 <= r@.len() <= 5,
{
    let mut v: Vec<u8> = Vec::new();
    let mut m: u32 = n as u32;
    proof {
        assert(Seq::<u8>::empty() + varint_bytes(m) =~= varint_bytes(m));
    }
    loop
        invariant_except_break
            varint_bytes(n as u32) == v@ + varint_bytes(m),
        ensures
            v@ == varint_bytes(n as u32),
        decreases m,
    {
        let b: u8 = (m % 0x80) as u8;
        let m2: u32 = m / 0x80;
        if m2 == 0 {
            proof {
                assert(varint_bytes(m) =~= seq![b]);
                assert((v@ + varint_bytes(m)) =~= v@.push(b));
            }
            v.push(b);
            break ;
        }
        proof {
            assert(varint_bytes(m) =~= seq![(0x80 + m % 0x80) as u8] + varint_bytes(m2));
            assert(v@ + varint_bytes(m) =~= v@.push((0x80 + m % 0x80) as u8) + varint_bytes(m2));
        }
        v.push(b + 0x80);
        m = m2;
    }
    proof {
        lemma_varint_bytes_len(n as u32);
    }
    v
}

/// The group accumulator stays below the scale of the next group.
proof fn lemma_varint_value_bound(b: Seq<u8>)
    ensures
        0 <= varint_value_int(b) < pow(0x80, b.len()),
    decreases b.len(),
{
    reveal_with_fuel(pow, 2);
    if b.len() == 0 {
    } else {
        let rest = b.drop_first();
        lemma_varint_value_bound(rest);
        assert(0x80 * varint_value_int(rest) <= 0x80 * (pow(0x80, rest.len()) - 1)
            && 0 <= 0x80 * varint_value_int(rest)) by (nonlinear_arith)
            requires
                0 <= varint_value_int(rest) <= pow(0x80, rest.len()) - 1,
        ;
        assert(pow(0x80, b.len()) == 0x80 * pow(0x80, rest.len()));
    }
}

/// Appending a byte adds its group at the scale of the former length.
#[verifier::rlimit(30)]
proof fn lemma_varint_value_push(b: Seq<u8>, x: u8)
    ensures
        varint_value_int(b.push(x)) == varint_value_int(b) + (x % 0x80) * pow(0x80, b.len()),
    decreases b.len(),
{
    reveal_with_fuel(pow, 2);
    if b.len() == 0 {
        assert(b.push(x) =~= seq![x]);
        assert(seq![x].drop_first() =~= Seq::<u8>::empty());
        assert(varint_value_int(Seq::<u8>::empty()) == 0);
        assert(varint_value_int(b.push(x)) == x % 0x80 + 0x80 * 0);
        assert(varint_value_int(b) == 0);
        assert(pow(0x80, b.len()) == 1);
        assert(varint_value_int(b.push(x)) == varint_value_int(b) + (x % 0x80) * pow(
            0x80,
            b.len(),
        ));
    } else {
        let rest = b.drop_first();
        assert(b.push(x).drop_first() =~= rest.push(x));
        assert(b.push(x)[0] == b[0]);
        lemma_varint_value_push(rest, x);
        let a = varint_value_int(rest);
        let g = (x % 0x80) as int;
        let p = pow(0x80, rest.len());
        assert(varint_value_int(b.push(x)) == b[0] % 0x80 + 0x80 * varint_value_int(
            rest.push(x),
        ));
        assert(varint_value_int(rest.push(x)) == a + g * p);
        assert(varint_value_int(b.push(x)) == b[0] % 0x80 + 0x80 * (a + g * p));
        assert(0x80 * (a + g * p) == 0x80 * a + g * (0x80 * p)) by (nonlinear_arith);
        assert(pow(0x80, b.len()) == 0x80 * p);
        assert(g * (0x80 * p) == g * pow(0x80, b.len()));
        assert(varint_value_int(b) == b[0] % 0x80 + 0x80 * a);
        assert(varint_value_int(b.push(x)) == varint_value_int(b) + g * pow(0x80, b.len()));
    }
}

/// The concrete scales of the first six groups.
proof fn lemma_pow128_values()
    ensures
        pow(0x80, 0) == 1,
        pow(0x80, 1) == 0x80,
        pow(0x80, 2) == 0x4000,
        pow(0x80, 3) == 0x20_0000,
        pow(0x80, 4) == 0x1000_0000,
        pow(0x80, 5) == 0x8_0000_0000,
{
    reveal_with_fuel(pow, 6);
}

/// Decodes the varint at the front of `buf`: reads up to five bytes,
/// accumulating seven-bit groups, until a byte with a clear high bit ends the
/// field. `NotEnoughData` asks a streaming caller for more input; `TooLong`
/// is fatal.
pub fn from_varint(buf: &[u8]) -> (r: Result<(i32, usize), VarIntError>)
    ensures
        r matches Ok((v, l)) ==> spec_from_varint(buf@) == Ok::<(i32, int), VarIntError>(
            (v, l as int),
        ),
        r matches Err(e) ==> spec_from_varint(buf@) == Err::<(i32, int), VarIntError>(e),
{
    proof {
        lemma_pow128_values();
    }
    let mut acc: u64 = 0;
    let mut mult: u64 = 1;
    let mut i: usize = 0;
    while i < 5
        invariant
            0 <= i <= 5,
            i <= buf@.len(),
            acc == varint_value_int(buf@.take(i as int)),
            mult == pow(0x80, i as nat),
            forall|j: int| 0 <= j < i ==> buf@[j] >= 0x80,
            pow(0x80, 0) == 1 && pow(0x80, 1) == 0x80 && pow(0x80, 2) == 0x4000 && pow(
                0x80,
                3,
            ) == 0x20_0000 && pow(0x80, 4) == 0x1000_0000 && pow(0x80, 5) == 0x8_0000_0000,
        decreases 5 - i,
    {
        if i >= buf.len() {
            return Err(VarIntError::NotEnoughData);
        }
        let n: u8 = *vstd::slice::slice_index_get(buf, i);
        proof {
            lemma_varint_value_push(buf@.take(i as int), n);
            lemma_varint_value_bound(buf@.take(i as int));
            assert(buf@.take(i as int).push(n) =~= buf@.take(i as int + 1));
        }
        acc = acc + ((n % 0x80) as u64) * mult;
        if n < 0x80 {
            let v: u32 = (acc % 0x1_0000_0000) as u32;
            return Ok((v as i32, i + 1));
        }
        if i < 4 {
            mult = mult * 0x80;
        } else {
            proof {
                reveal_with_fuel(pow, 6);
            }
            mult = 0x8_0000_0000;
        }
        i = i + 1;
    }
    Err(VarIntError::TooLong)
}

} // verus!

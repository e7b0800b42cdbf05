//! Variable-length integers: base-128 groups, low group first, seven value
//! bits to a byte and the top bit set on every byte but the last.
//!
//! A 32-bit value takes one to five bytes, a 64-bit value one to ten. The
//! groups are or-ed into place without regard to sign: a negative value is
//! written as its two's-complement pattern and comes back by wrapping.

use vstd::arithmetic::div_mod::lemma_fundamental_div_mod_converse;
use vstd::arithmetic::div_mod::lemma_small_mod;
use vstd::prelude::*;
use crate::error::InvalidData;
use crate::error::ProtocolError;
use crate::wire::signed32;
use crate::wire::signed64;

verus! {

/// Mask of the seven value bits of a byte.
pub const SEGMENT_BITS: u8 = 0x7F;

/// The bit that announces another byte.
pub const CONTINUE_BIT: u8 = 0x80;

/// The most bytes a 32-bit value takes.
pub const VARINT_MAX_BYTES: usize = 5;

/// The most bytes a 64-bit value takes.
pub const VARLONG_MAX_BYTES: usize = 10;

/// The value bits of a byte.
pub open spec fn segment(b: u8) -> nat {
    (b % 128) as nat
}

/// Whether a byte announces another one.
pub open spec fn continues(b: u8) -> bool {
    b >= 128
}

/// The number that the groups of `s` spell, the first byte weighing least.
/// Continuation bits play no part.
pub open spec fn groups_value(s: Seq<u8>) -> nat
    decreases s.len(),
{
    if s.len() == 0 {
        0
    } else {
        segment(s[0]) + 128 * groups_value(s.drop_first())
    }
}

/// How many bytes at the front of `s` announce a successor.
pub open spec fn continuation_run(s: Seq<u8>) -> nat
    decreases s.len(),
{
    if s.len() > 0 && continues(s[0]) {
        1 + continuation_run(s.drop_first())
    } else {
        0
    }
}

/// The 32-bit value that `n` wraps to: its low 32 bits in two's complement.
pub open spec fn wrap32(n: nat) -> i32 {
    signed32(n % 0x1_0000_0000) as i32
}

/// The 64-bit value that `n` wraps to: its low 64 bits in two's complement.
pub open spec fn wrap64(n: nat) -> i64 {
    signed64(n % 0x1_0000_0000_0000_0000) as i64
}

/// The two's-complement pattern of a 32-bit value, as a number.
pub open spec fn pattern32(value: i32) -> nat {
    if value < 0 {
        (value + 0x1_0000_0000) as nat
    } else {
        value as nat
    }
}

/// The two's-complement pattern of a 64-bit value, as a number.
pub open spec fn pattern64(value: i64) -> nat {
    if value < 0 {
        (value + 0x1_0000_0000_0000_0000) as nat
    } else {
        value as nat
    }
}

/// What the front of `s` decodes to as a 32-bit value: the value and the
/// number of bytes it occupies. Five announcing bytes in a row are too many,
/// whatever follows; a shorter run that reaches the end of `s` is cut short.
pub open spec fn varint_decoding(s: Seq<u8>) -> Result<(i32, usize), ProtocolError> {
    let run = continuation_run(s) as int;
    if run >= VARINT_MAX_BYTES {
        Err(ProtocolError::Io(InvalidData::VarIntTooLong))
    } else if run >= s.len() {
        Err(ProtocolError::Io(InvalidData::VarIntCutShort))
    } else {
        Ok((wrap32(groups_value(s.take(run + 1))), (run + 1) as usize))
    }
}

/// What the front of `s` decodes to as a 64-bit value: the value and the
/// number of bytes it occupies. Ten announcing bytes in a row are too many.
pub open spec fn varlong_decoding(s: Seq<u8>) -> Result<(i64, usize), ProtocolError> {
    let run = continuation_run(s) as int;
    if run >= VARLONG_MAX_BYTES {
        Err(ProtocolError::Io(InvalidData::VarLongTooLong))
    } else if run >= s.len() {
        Err(ProtocolError::Io(InvalidData::VarLongCutShort))
    } else {
        Ok((wrap64(groups_value(s.take(run + 1))), (run + 1) as usize))
    }
}

/// The bytes that spell `n`: groups of seven bits from the low end, as many
/// as it takes.
pub open spec fn encoding(n: nat) -> Seq<u8>
    decreases n,
{
    if n < 128 {
        seq![n as u8]
    } else {
        seq![(128 + n % 128) as u8] + encoding(n / 128)
    }
}

/// The bytes of a 32-bit value: those of its two's-complement pattern.
pub open spec fn varint_encoding(value: i32) -> Seq<u8> {
    encoding(pattern32(value))
}

/// The bytes of a 64-bit value: those of its two's-complement pattern.
pub open spec fn varlong_encoding(value: i64) -> Seq<u8> {
    encoding(pattern64(value))
}

/// 128 to the power `k`: the weight of group `k`.
spec fn weight(k: nat) -> nat
    decreases k,
{
    if k == 0 {
        1
    } else {
        128 * weight((k - 1) as nat)
    }
}

proof fn lemma_weights()
    ensures
        weight(0) == 1,
        weight(1) == 0x80,
        weight(2) == 0x4000,
        weight(3) == 0x20_0000,
        weight(4) == 0x1000_0000,
        weight(5) == 0x8_0000_0000,
        weight(6) == 0x400_0000_0000,
        weight(7) == 0x2_0000_0000_0000,
        weight(8) == 0x100_0000_0000_0000,
        weight(9) == 0x8000_0000_0000_0000,
        weight(10) == 0x40_0000_0000_0000_0000,
{
    reveal_with_fuel(weight, 11);
}

/// One more byte at the end adds its group at the next weight.
proof fn lemma_groups_value_push(s: Seq<u8>, b: u8)
    ensures
        groups_value(s.push(b)) == groups_value(s) + segment(b) * weight(s.len()),
        groups_value(s) < weight(s.len()),
    decreases s.len(),
{
    if s.len() == 0 {
        assert(s.push(b).drop_first() =~= s);
        assert(groups_value(s.push(b)) == segment(b) + 128 * groups_value(s));
    } else {
        lemma_groups_value_push(s.drop_first(), b);
        assert(s.push(b).drop_first() =~= s.drop_first().push(b));
        let k = (s.len() - 1) as nat;
        assert(weight(s.len()) == 128 * weight(k));
        assert(128 * (segment(b) * weight(k)) == segment(b) * (128 * weight(k)))
            by (nonlinear_arith);
    }
}

/// A run of announcing bytes found by looking at each byte is the run that
/// `continuation_run` counts.
pub proof fn lemma_continuation_run(s: Seq<u8>, k: int)
    requires
        0 <= k <= s.len(),
        forall|j: int| 0 <= j < k ==> continues(#[trigger] s[j]),
    ensures
        continuation_run(s) >= k,
        k == s.len() || !continues(s[k]) ==> continuation_run(s) == k,
    decreases k,
{
    if k > 0 {
        let rest = s.drop_first();
        assert forall|j: int| 0 <= j < k - 1 implies continues(#[trigger] rest[j]) by {
            assert(rest[j] == s[j + 1]);
        }
        lemma_continuation_run(rest, k - 1);
        assert(continues(s[0]));
        if k < s.len() {
            assert(rest[k - 1] == s[k]);
        }
    }
}

/// The byte after the run of announcing bytes, if there is one, announces
/// nothing.
proof fn lemma_run_ends(s: Seq<u8>)
    requires
        continuation_run(s) < s.len(),
    ensures
        !continues(s[continuation_run(s) as int]),
    decreases s.len(),
{
    if continues(s[0]) {
        lemma_run_ends(s.drop_first());
    }
}

/// Every byte within the run of announcing bytes announces a successor.
proof fn lemma_run_announces(s: Seq<u8>, j: int)
    requires
        0 <= j < continuation_run(s),
    ensures
        j < s.len(),
        continues(s[j]),
    decreases j,
{
    if j > 0 {
        lemma_run_announces(s.drop_first(), j - 1);
    }
}

/// Or-ing a group into a 32-bit accumulator below the top group adds it at
/// its weight: the bits it lands on are still clear, and nothing is lost.
proof fn lemma_low_group32(value: i32, b: u8, k: nat)
    requires
        k <= 3,
        0 <= value < weight(k),
    ensures
        (value | (((b & SEGMENT_BITS) as i32) << ((7 * k) as u32))) == value + segment(b)
            * weight(k),
        value + segment(b) * weight(k) < weight(k + 1),
{
    lemma_weights();
    if k == 0 {
        assert(value == 0 ==> (value | (((b & 0x7F) as i32) << 0u32)) == (b % 128) as i32)
            by (bit_vector);
    } else if k == 1 {
        assert(0 <= value < 0x80 ==> (value | (((b & 0x7F) as i32) << 7u32)) == value
            + ((b % 128) as i32) * 0x80) by (bit_vector);
    } else if k == 2 {
        assert(0 <= value < 0x4000 ==> (value | (((b & 0x7F) as i32) << 14u32)) == value
            + ((b % 128) as i32) * 0x4000) by (bit_vector);
    } else if k == 3 {
        assert(0 <= value < 0x20_0000 ==> (value | (((b & 0x7F) as i32) << 21u32)) == value
            + ((b % 128) as i32) * 0x20_0000) by (bit_vector);
    }
}

/// Or-ing the fifth group into a 32-bit accumulator keeps its low four bits,
/// at bits 28 to 31, and loses the three above them: the sum wrapped to 32
/// bits.
proof fn lemma_top_group32(value: i32, b: u8)
    requires
        0 <= value < 0x1000_0000,
    ensures
        (value | (((b & SEGMENT_BITS) as i32) << 28u32)) == wrap32(
            (value + segment(b) * 0x1000_0000) as nat,
        ),
{
    let low = (b % 16) as int;
    let high = ((b % 128) / 16) as int;
    let kept = value + low * 0x1000_0000;
    assert(0 <= value < 0x1000_0000 && b % 16 < 8 ==> (value | (((b & 0x7F) as i32) << 28u32))
        == value + ((b % 16) as i32) * 0x1000_0000) by (bit_vector);
    assert(0 <= value < 0x1000_0000 && b % 16 >= 8 ==> (value | (((b & 0x7F) as i32) << 28u32))
        == value + ((b % 16) as i32 - 16) * 0x1000_0000) by (bit_vector);
    assert(segment(b) == low + 16 * high);
    assert(0 <= kept < 0x1_0000_0000);
    lemma_fundamental_div_mod_converse(
        value + segment(b) * 0x1000_0000,
        0x1_0000_0000,
        high,
        kept,
    );
}

/// Or-ing the next group into a 32-bit accumulator adds it at its weight,
/// wrapping at 32 bits as two's complement does.
proof fn lemma_accumulate32(value: i32, b: u8, k: nat)
    requires
        k <= 4,
        0 <= value < weight(k),
    ensures
        (value | (((b & SEGMENT_BITS) as i32) << ((7 * k) as u32))) == wrap32(
            (value + segment(b) * weight(k)) as nat,
        ),
        k < 4 ==> value + segment(b) * weight(k) < weight(k + 1),
{
    lemma_weights();
    if k < 4 {
        lemma_low_group32(value, b, k);
        let total = value + segment(b) * weight(k);
        assert(0 <= total < 0x1000_0000);
        lemma_small_mod(total as nat, 0x1_0000_0000);
    } else {
        lemma_top_group32(value, b);
    }
}

/// Or-ing a group into a 64-bit accumulator below the top group adds it at
/// its weight: the bits it lands on are still clear, and nothing is lost.
proof fn lemma_low_group64(value: i64, b: u8, k: nat)
    requires
        k <= 8,
        0 <= value < weight(k),
    ensures
        (value | (((b & SEGMENT_BITS) as i64) << ((7 * k) as u32))) == value + segment(b)
            * weight(k),
        value + segment(b) * weight(k) < weight(k + 1),
{
    lemma_weights();
    if k == 0 {
        assert(value == 0 ==> (value | (((b & 0x7F) as i64) << 0u32)) == (b % 128) as i64)
            by (bit_vector);
    } else if k == 1 {
        assert(0 <= value < 0x80 ==> (value | (((b & 0x7F) as i64) << 7u32)) == value
            + ((b % 128) as i64) * 0x80) by (bit_vector);
    } else if k == 2 {
        assert(0 <= value < 0x4000 ==> (value | (((b & 0x7F) as i64) << 14u32)) == value
            + ((b % 128) as i64) * 0x4000) by (bit_vector);
    } else if k == 3 {
        assert(0 <= value < 0x20_0000 ==> (value | (((b & 0x7F) as i64) << 21u32)) == value
            + ((b % 128) as i64) * 0x20_0000) by (bit_vector);
    } else if k == 4 {
        assert(0 <= value < 0x1000_0000 ==> (value | (((b & 0x7F) as i64) << 28u32)) == value
            + ((b % 128) as i64) * 0x1000_0000) by (bit_vector);
    } else if k == 5 {
        assert(0 <= value < 0x8_0000_0000 ==> (value | (((b & 0x7F) as i64) << 35u32)) == value
            + ((b % 128) as i64) * 0x8_0000_0000) by (bit_vector);
    } else if k == 6 {
        assert(0 <= value < 0x400_0000_0000 ==> (value | (((b & 0x7F) as i64) << 42u32)) == value
            + ((b % 128) as i64) * 0x400_0000_0000) by (bit_vector);
    } else if k == 7 {
        assert(0 <= value < 0x2_0000_0000_0000 ==> (value | (((b & 0x7F) as i64) << 49u32)) == value
            + ((b % 128) as i64) * 0x2_0000_0000_0000) by (bit_vector);
    } else if k == 8 {
        assert(0 <= value < 0x100_0000_0000_0000 ==> (value | (((b & 0x7F) as i64) << 56u32)) == value
            + ((b % 128) as i64) * 0x100_0000_0000_0000) by (bit_vector);
    }
}

/// Or-ing the tenth group into a 64-bit accumulator keeps its lowest bit, at
/// bit 63, and loses the six above it: the sum wrapped to 64 bits.
proof fn lemma_top_group64(value: i64, b: u8)
    requires
        0 <= value < 0x8000_0000_0000_0000,
    ensures
        (value | (((b & SEGMENT_BITS) as i64) << 63u32)) == wrap64(
            (value + segment(b) * 0x8000_0000_0000_0000) as nat,
        ),
{
    let low = (b % 2) as int;
    let high = ((b % 128) / 2) as int;
    let kept = value + low * 0x8000_0000_0000_0000;
    assert(0 <= value < 0x8000_0000_0000_0000 && b % 2 == 0 ==> (value | (((b & 0x7F) as i64)
        << 63u32)) == value) by (bit_vector);
    assert(0 <= value < 0x8000_0000_0000_0000 && b % 2 == 1 ==> (value | (((b & 0x7F) as i64)
        << 63u32)) == value - 0x8000_0000_0000_0000) by (bit_vector);
    assert(segment(b) == low + 2 * high);
    assert(0 <= kept < 0x1_0000_0000_0000_0000);
    lemma_fundamental_div_mod_converse(
        value + segment(b) * 0x8000_0000_0000_0000,
        0x1_0000_0000_0000_0000,
        high,
        kept,
    );
}

/// Or-ing the next group into a 64-bit accumulator adds it at its weight,
/// wrapping at 64 bits as two's complement does.
proof fn lemma_accumulate64(value: i64, b: u8, k: nat)
    requires
        k <= 9,
        0 <= value < weight(k),
    ensures
        (value | (((b & SEGMENT_BITS) as i64) << ((7 * k) as u32))) == wrap64(
            (value + segment(b) * weight(k)) as nat,
        ),
        k < 9 ==> value + segment(b) * weight(k) < weight(k + 1),
{
    lemma_weights();
    if k < 9 {
        lemma_low_group64(value, b, k);
        let total = value + segment(b) * weight(k);
        assert(0 <= total < 0x8000_0000_0000_0000);
        lemma_small_mod(total as nat, 0x1_0000_0000_0000_0000);
    } else {
        lemma_top_group64(value, b);
    }
}

/// Decodes a 32-bit value from the front of `bytes` and reports how many
/// bytes it occupies. The bytes are only looked at.
pub fn decode_varint(bytes: &[u8]) -> (r: Result<(i32, usize), ProtocolError>)
    ensures
        r == varint_decoding(bytes@),
{
    let mut value: i32 = 0;
    let mut position: u32 = 0;
    let mut consumed: usize = 0;
    loop
        invariant
            consumed <= 4,
            consumed <= bytes.len(),
            position == 7 * consumed,
            forall|j: int| 0 <= j < consumed ==> continues(#[trigger] bytes@[j]),
            value == groups_value(bytes@.take(consumed as int)),
        decreases 5 - consumed,
    {
        proof {
            lemma_continuation_run(bytes@, consumed as int);
        }
        if consumed >= bytes.len() {
            return Err(ProtocolError::Io(InvalidData::VarIntCutShort));
        }
        let current: u8 = bytes[consumed];
        proof {
            let seen = bytes@.take(consumed as int);
            assert(bytes@.take(consumed + 1) =~= seen.push(current));
            lemma_groups_value_push(seen, current);
            lemma_accumulate32(value, current, consumed as nat);
            assert(current & CONTINUE_BIT == 0 <==> current < 128) by (bit_vector);
        }
        value = value | (((current & SEGMENT_BITS) as i32) << position);
        consumed = consumed + 1;
        if current & CONTINUE_BIT == 0 {
            return Ok((value, consumed));
        }
        position = position + 7;
        if position >= 32 {
            proof {
                lemma_continuation_run(bytes@, consumed as int);
            }
            return Err(ProtocolError::Io(InvalidData::VarIntTooLong));
        }
        proof {
            lemma_weights();
        }
    }
}

/// Decodes a 64-bit value from the front of `bytes` and reports how many
/// bytes it occupies. The bytes are only looked at.
pub fn decode_varlong(bytes: &[u8]) -> (r: Result<(i64, usize), ProtocolError>)
    ensures
        r == varlong_decoding(bytes@),
{
    let mut value: i64 = 0;
    let mut position: u32 = 0;
    let mut consumed: usize = 0;
    loop
        invariant
            consumed <= 9,
            consumed <= bytes.len(),
            position == 7 * consumed,
            forall|j: int| 0 <= j < consumed ==> continues(#[trigger] bytes@[j]),
            value == groups_value(bytes@.take(consumed as int)),
        decreases 10 - consumed,
    {
        proof {
            lemma_continuation_run(bytes@, consumed as int);
        }
        if consumed >= bytes.len() {
            return Err(ProtocolError::Io(InvalidData::VarLongCutShort));
        }
        let current: u8 = bytes[consumed];
        proof {
            let seen = bytes@.take(consumed as int);
            assert(bytes@.take(consumed + 1) =~= seen.push(current));
            lemma_groups_value_push(seen, current);
            lemma_accumulate64(value, current, consumed as nat);
            assert(current & CONTINUE_BIT == 0 <==> current < 128) by (bit_vector);
        }
        value = value | (((current & SEGMENT_BITS) as i64) << position);
        consumed = consumed + 1;
        if current & CONTINUE_BIT == 0 {
            return Ok((value, consumed));
        }
        position = position + 7;
        if position >= 64 {
            proof {
                lemma_continuation_run(bytes@, consumed as int);
            }
            return Err(ProtocolError::Io(InvalidData::VarLongTooLong));
        }
        proof {
            lemma_weights();
        }
    }
}

/// Spells a 32-bit value in one to five bytes.
pub fn encode_varint(value: i32) -> (out: Vec<u8>)
    ensures
        out@ == varint_encoding(value),
{
    let mut rest: u32 = value as u32;
    let mut out: Vec<u8> = Vec::new();
    proof {
        assert(value < 0 ==> (value as u32) == value + 0x1_0000_0000) by (bit_vector);
        assert(value >= 0 ==> (value as u32) == value) by (bit_vector);
    }
    while rest >= 0x80
        invariant
            out@ + encoding(rest as nat) == varint_encoding(value),
        decreases rest,
    {
        proof {
            assert(((rest & 0x7F) as u8 | 0x80u8) == 128 + rest % 128) by (bit_vector);
            assert(rest >> 7u32 == rest / 128) by (bit_vector);
        }
        let ghost before = out@;
        out.push((rest & 0x7F) as u8 | CONTINUE_BIT);
        assert(out@ + encoding((rest / 128) as nat) =~= before + encoding(rest as nat));
        rest = rest >> 7;
    }
    let ghost before = out@;
    out.push(rest as u8);
    assert(out@ =~= before + encoding(rest as nat));
    out
}

/// Spells a 64-bit value in one to ten bytes.
pub fn encode_varlong(value: i64) -> (out: Vec<u8>)
    ensures
        out@ == varlong_encoding(value),
{
    let mut rest: u64 = value as u64;
    let mut out: Vec<u8> = Vec::new();
    proof {
        assert(value < 0 ==> (value as u64) == value + 0x1_0000_0000_0000_0000) by (bit_vector);
        assert(value >= 0 ==> (value as u64) == value) by (bit_vector);
    }
    while rest >= 0x80
        invariant
            out@ + encoding(rest as nat) == varlong_encoding(value),
        decreases rest,
    {
        proof {
            assert(((rest & 0x7F) as u8 | 0x80u8) == 128 + rest % 128) by (bit_vector);
            assert(rest >> 7u64 == rest / 128) by (bit_vector);
        }
        let ghost before = out@;
        out.push((rest & 0x7F) as u8 | CONTINUE_BIT);
        assert(out@ + encoding((rest / 128) as nat) =~= before + encoding(rest as nat));
        rest = rest >> 7;
    }
    let ghost before = out@;
    out.push(rest as u8);
    assert(out@ =~= before + encoding(rest as nat));
    out
}

/// A number below 128 to the power `k` is spelled in at most `k` bytes, and
/// every number in at least one.
proof fn lemma_encoding_len(n: nat, k: nat)
    requires
        k >= 1,
        n < weight(k),
    ensures
        1 <= encoding(n).len() <= k,
    decreases k,
{
    if n >= 128 {
        assert(weight(1) == 128) by {
            reveal_with_fuel(weight, 2);
        }
        if k > 1 {
            lemma_encoding_len(n / 128, (k - 1) as nat);
        }
    }
}

/// In the spelling of a number every byte but the last announces a
/// successor, whatever follows the spelling.
proof fn lemma_encoding_run(n: nat, tail: Seq<u8>)
    ensures
        continuation_run(encoding(n) + tail) == encoding(n).len() - 1,
    decreases n,
{
    let all = encoding(n) + tail;
    if n < 128 {
        assert(all[0] == n as u8);
    } else {
        lemma_encoding_run(n / 128, tail);
        assert(all[0] == (128 + n % 128) as u8);
        assert(all.drop_first() =~= encoding(n / 128) + tail);
    }
}

/// The groups of the spelling of a number spell that number.
proof fn lemma_encoding_value(n: nat)
    ensures
        groups_value(encoding(n)) == n,
    decreases n,
{
    let written = encoding(n);
    if n < 128 {
        assert(written[0] == n as u8);
        assert(written.drop_first() =~= Seq::<u8>::empty());
        assert(groups_value(written.drop_first()) == 0);
    } else {
        lemma_encoding_value(n / 128);
        assert(written[0] == (128 + n % 128) as u8);
        assert(segment(written[0]) == n % 128);
        assert(written.drop_first() =~= encoding(n / 128));
    }
}

/// Round trip of 32-bit values. Decoding what `encode_varint` wrote gives
/// the value back and takes exactly the bytes written, between one and five,
/// whatever follows them.
pub proof fn lemma_varint_round_trip(value: i32, tail: Seq<u8>)
    ensures
        1 <= varint_encoding(value).len() <= 5,
        varint_decoding(varint_encoding(value) + tail) == Ok::<(i32, usize), ProtocolError>(
            (value, varint_encoding(value).len() as usize),
        ),
{
    let written = varint_encoding(value);
    lemma_weights();
    lemma_encoding_len(pattern32(value), 5);
    lemma_encoding_run(pattern32(value), tail);
    lemma_encoding_value(pattern32(value));
    assert((written + tail).take(written.len() as int) =~= written);
}

/// Round trip of 64-bit values. Decoding what `encode_varlong` wrote gives
/// the value back and takes exactly the bytes written, between one and ten,
/// whatever follows them.
pub proof fn lemma_varlong_round_trip(value: i64, tail: Seq<u8>)
    ensures
        1 <= varlong_encoding(value).len() <= 10,
        varlong_decoding(varlong_encoding(value) + tail) == Ok::<(i64, usize), ProtocolError>(
            (value, varlong_encoding(value).len() as usize),
        ),
{
    let written = varlong_encoding(value);
    lemma_weights();
    lemma_encoding_len(pattern64(value), 10);
    lemma_encoding_run(pattern64(value), tail);
    lemma_encoding_value(pattern64(value));
    assert((written + tail).take(written.len() as int) =~= written);
}

/// The length of a spelling: one byte for every started group of seven bits
/// of the two's-complement pattern. Values from 0 to 127 take one byte, and
/// every negative value takes all five.
pub proof fn lemma_varint_len(value: i32)
    ensures
        varint_encoding(value).len() == (if pattern32(value) < 0x80 {
            1nat
        } else if pattern32(value) < 0x4000 {
            2
        } else if pattern32(value) < 0x20_0000 {
            3
        } else if pattern32(value) < 0x1000_0000 {
            4
        } else {
            5
        }),
        value < 0 ==> varint_encoding(value).len() == 5,
{
    reveal_with_fuel(encoding, 5);
}

/// The length of a spelling of a 64-bit value: one byte for every started
/// group of seven bits of the two's-complement pattern. Every negative value
/// takes all ten.
pub proof fn lemma_varlong_len(value: i64)
    ensures
        varlong_encoding(value).len() == (if pattern64(value) < 0x80 {
            1nat
        } else if pattern64(value) < 0x4000 {
            2
        } else if pattern64(value) < 0x20_0000 {
            3
        } else if pattern64(value) < 0x1000_0000 {
            4
        } else if pattern64(value) < 0x8_0000_0000 {
            5
        } else if pattern64(value) < 0x400_0000_0000 {
            6
        } else if pattern64(value) < 0x2_0000_0000_0000 {
            7
        } else if pattern64(value) < 0x100_0000_0000_0000 {
            8
        } else if pattern64(value) < 0x8000_0000_0000_0000 {
            9
        } else {
            10
        }),
        value < 0 ==> varlong_encoding(value).len() == 10,
{
    reveal_with_fuel(encoding, 10);
}

/// Decoding looks only at the bytes that the value occupies: any bytes that
/// begin with the same ones decode to the same value in the same length,
/// whatever comes after. The spelling need not be the shortest one.
pub proof fn lemma_varint_window(s: Seq<u8>, t: Seq<u8>)
    requires
        varint_decoding(s) matches Ok((_, len)) && len <= t.len() && t.take(len as int) == s.take(
            len as int,
        ),
    ensures
        varint_decoding(t) == varint_decoding(s),
{
    let run = continuation_run(s) as int;
    let shared = s.take(run + 1);
    assert forall|j: int| 0 <= j <= run implies #[trigger] t[j] == s[j] by {
        assert(t[j] == t.take(run + 1)[j]);
        assert(s[j] == shared[j]);
    }
    assert forall|j: int| 0 <= j < run implies continues(#[trigger] t[j]) by {
        lemma_run_announces(s, j);
    }
    lemma_run_ends(s);
    lemma_continuation_run(t, run);
}

/// A complete value that is cut before its last byte does not decode yet:
/// more bytes are needed. This is no overlong value.
pub proof fn lemma_varint_cut_short(s: Seq<u8>, cut: int)
    requires
        varint_decoding(s) matches Ok((_, len)) && 0 <= cut < len,
    ensures
        varint_decoding(s.take(cut)) == Err::<(i32, usize), ProtocolError>(
            ProtocolError::Io(InvalidData::VarIntCutShort),
        ),
{
    let front = s.take(cut);
    assert forall|j: int| 0 <= j < cut implies continues(#[trigger] front[j]) by {
        lemma_run_announces(s, j);
    }
    lemma_continuation_run(front, cut);
}

/// Fewer than five bytes that all announce a successor, or no bytes at all,
/// are the beginning of a 32-bit value and not yet one: the failure is the
/// one whose message is "not enough bytes to read varint", and never the one
/// of an overlong value.
pub proof fn lemma_varint_incomplete(s: Seq<u8>)
    requires
        s.len() < 5,
        forall|j: int| 0 <= j < s.len() ==> continues(#[trigger] s[j]),
    ensures
        varint_decoding(s) == Err::<(i32, usize), ProtocolError>(
            ProtocolError::Io(InvalidData::VarIntCutShort),
        ),
{
    lemma_continuation_run(s, s.len() as int);
}

/// Fewer than ten bytes that all announce a successor, or no bytes at all,
/// are the beginning of a 64-bit value and not yet one.
pub proof fn lemma_varlong_incomplete(s: Seq<u8>)
    requires
        s.len() < 10,
        forall|j: int| 0 <= j < s.len() ==> continues(#[trigger] s[j]),
    ensures
        varlong_decoding(s) == Err::<(i64, usize), ProtocolError>(
            ProtocolError::Io(InvalidData::VarLongCutShort),
        ),
{
    lemma_continuation_run(s, s.len() as int);
}

/// Malformed 32-bit values are refused. Five bytes in a row that announce a
/// successor never decode, whatever follows them.
pub proof fn lemma_varint_overlong(s: Seq<u8>)
    requires
        s.len() >= 5,
        forall|j: int| 0 <= j < 5 ==> continues(#[trigger] s[j]),
    ensures
        varint_decoding(s) == Err::<(i32, usize), ProtocolError>(
            ProtocolError::Io(InvalidData::VarIntTooLong),
        ),
{
    lemma_continuation_run(s, 5);
}

/// Malformed 64-bit values are refused. Ten bytes in a row that announce a
/// successor never decode, whatever follows them.
pub proof fn lemma_varlong_overlong(s: Seq<u8>)
    requires
        s.len() >= 10,
        forall|j: int| 0 <= j < 10 ==> continues(#[trigger] s[j]),
    ensures
        varlong_decoding(s) == Err::<(i64, usize), ProtocolError>(
            ProtocolError::Io(InvalidData::VarLongTooLong),
        ),
{
    lemma_continuation_run(s, 10);
}

} // verus!

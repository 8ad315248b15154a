//! Little-endian integers of any width up to sixteen bytes.

use vstd::arithmetic::power::pow;
use vstd::prelude::*;

verus! {

/// The number that `bytes` denote, least significant byte first.
pub open spec fn le_value(bytes: Seq<u8>) -> nat
    decreases bytes.len(),
{
    if bytes.len() == 0 {
        0
    } else {
        bytes[0] as nat + 256 * le_value(bytes.drop_first())
    }
}

/// The `width` least significant bytes of `value`, least significant byte first.
pub open spec fn le_bytes(value: nat, width: nat) -> Seq<u8>
    decreases width,
{
    if width == 0 {
        Seq::empty()
    } else {
        seq![(value % 256) as u8] + le_bytes(value / 256, (width - 1) as nat)
    }
}

/// An encoding has the width that was asked for.
pub proof fn lemma_le_bytes_len(value: nat, width: nat)
    ensures
        le_bytes(value, width).len() == width,
    decreases width,
{
    if width != 0 {
        lemma_le_bytes_len(value / 256, (width - 1) as nat);
    }
}

/// The value of `bytes` is below 256 to the power of their number.
pub proof fn lemma_le_value_bound(bytes: Seq<u8>)
    ensures
        le_value(bytes) < pow(256, bytes.len()),
    decreases bytes.len(),
{
    reveal(pow);
    if bytes.len() != 0 {
        lemma_le_value_bound(bytes.drop_first());
    }
}

/// Decoding an encoded number gives the number back, as long as it fits the width.
pub proof fn lemma_le_round_trip(value: nat, width: nat)
    requires
        value < pow(256, width),
    ensures
        le_value(le_bytes(value, width)) == value,
    decreases width,
{
    reveal(pow);
    if width != 0 {
        lemma_le_round_trip(value / 256, (width - 1) as nat);
        assert(le_bytes(value, width).drop_first() =~= le_bytes(value / 256, (width - 1) as nat));
    }
}

/// Encoding a decoded number gives the bytes back: no two byte strings of one length share a value.
pub proof fn lemma_le_bytes_of_value(bytes: Seq<u8>)
    ensures
        le_bytes(le_value(bytes), bytes.len()) == bytes,
    decreases bytes.len(),
{
    if bytes.len() != 0 {
        let rest = bytes.drop_first();
        lemma_le_bytes_of_value(rest);
        assert(le_value(bytes) % 256 == bytes[0]);
        assert(le_value(bytes) / 256 == le_value(rest));
        assert(seq![bytes[0]] + rest =~= bytes);
    }
}

/// The first bytes of an encoding are the encoding at the smaller width.
pub proof fn lemma_le_bytes_take(value: nat, width: nat, k: nat)
    requires
        k <= width,
    ensures
        le_bytes(value, width).take(k as int) == le_bytes(value, k),
    decreases k,
{
    lemma_le_bytes_len(value, width);
    if k != 0 {
        let rest = le_bytes(value / 256, (width - 1) as nat);
        lemma_le_bytes_len(value / 256, (width - 1) as nat);
        lemma_le_bytes_take(value / 256, (width - 1) as nat, (k - 1) as nat);
        assert(le_bytes(value, width).take(k as int) =~= seq![(value % 256) as u8] + rest.take(
            k - 1,
        ));
    }
}

/// Zero bytes at the end add nothing to the value.
pub proof fn lemma_le_value_padding(bytes: Seq<u8>, zeros: Seq<u8>)
    requires
        forall|i: int| 0 <= i < zeros.len() ==> zeros[i] == 0,
    ensures
        le_value(bytes + zeros) == le_value(bytes),
    decreases bytes.len() + zeros.len(),
{
    if bytes.len() != 0 {
        lemma_le_value_padding(bytes.drop_first(), zeros);
        assert((bytes + zeros).drop_first() =~= bytes.drop_first() + zeros);
    } else if zeros.len() != 0 {
        lemma_le_value_padding(bytes, zeros.drop_first());
        assert((bytes + zeros).drop_first() =~= bytes + zeros.drop_first());
    }
}

/// The widths in use, as powers of two.
pub proof fn lemma_widths()
    ensures
        pow(256, 2) == 0x1_0000,
        pow(256, 4) == 0x1_0000_0000,
        pow(256, 8) == 0x1_0000_0000_0000_0000,
        pow(256, 16) == u128::MAX + 1,
{
    assert(pow(256, 2) == 0x1_0000) by {
        reveal_with_fuel(pow, 3);
    }
    vstd::arithmetic::power::lemma_pow_adds(256, 2, 2);
    vstd::arithmetic::power::lemma_pow_adds(256, 4, 4);
    vstd::arithmetic::power::lemma_pow_adds(256, 8, 8);
    let p4 = pow(256, 4);
    assert(p4 * p4 == 0x1_0000_0000_0000_0000) by (nonlinear_arith)
        requires
            p4 == 0x1_0000_0000,
    ;
    let p8 = pow(256, 8);
    assert(p8 * p8 == 0x1_0000_0000_0000_0000_0000_0000_0000_0000) by (nonlinear_arith)
        requires
            p8 == 0x1_0000_0000_0000_0000,
    ;
}

/// Encodes `value` into `width` bytes, dropping what does not fit.
pub fn encode_le(value: u128, width: usize) -> (bytes: Vec<u8>)
    ensures
        bytes@ == le_bytes(value as nat, width as nat),
{
    let mut bytes: Vec<u8> = Vec::new();
    let mut rest: u128 = value;
    let mut i: usize = 0;
    while i < width
        invariant
            i <= width,
            bytes@ + le_bytes(rest as nat, (width - i) as nat) =~= le_bytes(
                value as nat,
                width as nat,
            ),
        decreases width - i,
    {
        let ghost before = bytes@;
        let byte: u8 = (rest % 256) as u8;
        bytes.push(byte);
        proof {
            let tail = le_bytes((rest / 256) as nat, (width - i - 1) as nat);
            assert(before + (seq![byte] + tail) =~= before.push(byte) + tail);
        }
        rest = rest / 256;
        i = i + 1;
    }
    bytes
}

/// Decodes at most sixteen bytes.
pub fn decode_le(bytes: &[u8]) -> (value: u128)
    requires
        bytes@.len() <= 16,
    ensures
        value == le_value(bytes@),
{
    let mut value: u128 = 0;
    let mut i: usize = bytes.len();
    assert(bytes@.skip(i as int) =~= Seq::<u8>::empty());
    while i > 0
        invariant
            i <= bytes@.len() <= 16,
            value == le_value(bytes@.skip(i as int)),
        decreases i,
    {
        i = i - 1;
        proof {
            let tail = bytes@.skip(i as int);
            assert(tail.drop_first() =~= bytes@.skip(i + 1));
            lemma_le_value_bound(tail);
            lemma_widths();
            vstd::arithmetic::power::lemma_pow_increases(256, tail.len(), 16);
        }
        value = bytes[i] as u128 + 256 * value;
    }
    assert(bytes@.skip(0) =~= bytes@);
    value
}

/// The `i`-th byte of an encoding is the digit of 256 to the power of `i`.
pub proof fn law_encoded_digits(value: nat, width: nat, i: nat)
    requires
        i < width,
    ensures
        le_bytes(value, width).len() == width,
        le_bytes(value, width)[i as int] == (value as int / pow(256, i)) % 256,
    decreases width,
{
    lemma_le_bytes_len(value, width);
    reveal(pow);
    if i != 0 {
        law_encoded_digits(value / 256, (width - 1) as nat, (i - 1) as nat);
        let p = pow(256, (i - 1) as nat);
        vstd::arithmetic::power::lemma_pow_positive(256, (i - 1) as nat);
        vstd::arithmetic::div_mod::lemma_div_denominator(value as int, 256, p);
    }
}

/// The `i`-th byte is the digit of 256 to the power of `i` in the number that the bytes denote, which
/// has no further digits.
pub proof fn law_decoded_digits(bytes: Seq<u8>, i: nat)
    requires
        i < bytes.len(),
    ensures
        (le_value(bytes) as int / pow(256, i)) % 256 == bytes[i as int],
        le_value(bytes) < pow(256, bytes.len()),
{
    lemma_le_value_bound(bytes);
    lemma_le_bytes_of_value(bytes);
    law_encoded_digits(le_value(bytes), bytes.len(), i);
}

/// What two bytes and what four bytes denote.
pub proof fn law_small_numbers(bytes: Seq<u8>)
    ensures
        bytes.len() == 0 ==> le_value(bytes) == 0,
        bytes.len() == 2 ==> le_value(bytes) == bytes[0] + 0x100 * bytes[1],
        bytes.len() == 4 ==> le_value(bytes) == bytes[0] + 0x100 * bytes[1] + 0x1_0000 * bytes[2]
            + 0x100_0000 * bytes[3],
        bytes.len() == 8 ==> le_value(bytes) == bytes[0] + 0x100 * bytes[1] + 0x1_0000 * bytes[2]
            + 0x100_0000 * bytes[3] + 0x1_0000_0000 * bytes[4] + 0x100_0000_0000 * bytes[5]
            + 0x1_0000_0000_0000 * bytes[6] + 0x100_0000_0000_0000 * bytes[7],
{
    reveal_with_fuel(le_value, 9);
}

} // verus!

//! Integers as bytes in the byte order of the machine.
//!
//! A log is written and read by one process, so its integers are stored as
//! they lie in memory. Which order that is, is `vstd::endian::endianness()`;
//! everything here holds for either. The two calls of std that give the bytes
//! of a number are not proved: they stand here with what is taken from them.

use vstd::prelude::*;
use vstd::endian::{endianness, Endian};

verus! {

/// 2 to the power of 64.
pub open spec fn two_to_64() -> nat {
    0x1_0000_0000_0000_0000
}

/// 256 to the power of `width`: the number of values that `width` bytes can
/// tell apart.
pub open spec fn pow256(width: nat) -> nat
    decreases width,
{
    if width == 0 {
        1
    } else {
        256 * pow256((width - 1) as nat)
    }
}

/// The `width` lowest base-256 digits of `n`, lowest first.
pub open spec fn le_bytes(n: nat, width: nat) -> Seq<u8>
    decreases width,
{
    if width == 0 {
        Seq::empty()
    } else {
        seq![(n % 256) as u8] + le_bytes(n / 256, (width - 1) as nat)
    }
}

/// The number whose base-256 digits, lowest first, are `bytes`.
pub open spec fn le_value(bytes: Seq<u8>) -> nat
    decreases bytes.len(),
{
    if bytes.len() == 0 {
        0
    } else {
        bytes[0] as nat + 256 * le_value(bytes.drop_first())
    }
}

/// The `width` lowest base-256 digits of `n`, in the order of the machine.
pub open spec fn native_bytes(n: nat, width: nat) -> Seq<u8> {
    match endianness() {
        Endian::Little => le_bytes(n, width),
        Endian::Big => le_bytes(n, width).reverse(),
    }
}

/// The number that `bytes` hold in the order of the machine.
pub open spec fn native_value(bytes: Seq<u8>) -> nat {
    match endianness() {
        Endian::Little => le_value(bytes),
        Endian::Big => le_value(bytes.reverse()),
    }
}

/// The four bytes of `x` in memory.
pub open spec fn u32_bytes(x: u32) -> Seq<u8> {
    native_bytes(x as nat, 4)
}

/// The number that four bytes hold.
pub open spec fn u32_from_bytes(bytes: Seq<u8>) -> u32 {
    native_value(bytes) as u32
}

/// `x` in two's complement: itself where it is not negative, else 2^64 more.
pub open spec fn i64_bits(x: i64) -> nat {
    if x >= 0 {
        x as nat
    } else {
        (x + two_to_64()) as nat
    }
}

/// The signed number that the 64 bits `bits` stand for in two's complement.
pub open spec fn i64_from_bits(bits: nat) -> i64 {
    if bits < 0x8000_0000_0000_0000 {
        bits as i64
    } else {
        (bits - two_to_64()) as i64
    }
}

/// The eight bytes of `x` in memory.
pub open spec fn i64_bytes(x: i64) -> Seq<u8> {
    native_bytes(i64_bits(x), 8)
}

/// The signed number that eight bytes hold.
pub open spec fn i64_from_bytes(bytes: Seq<u8>) -> i64 {
    i64_from_bits(native_value(bytes))
}

/// `u32::to_ne_bytes`.
///
/// Claimed: the array holds the four base-256 digits of `x` in the byte
/// order of the machine.
#[verifier::external_body]
pub(crate) fn u32_to_ne_bytes(x: u32) -> (bytes: [u8; 4])
    ensures
        bytes@ == u32_bytes(x),
{
    x.to_ne_bytes()
}

/// `i64::to_ne_bytes`.
///
/// Claimed: the array holds the eight base-256 digits of `x` in two's
/// complement, in the byte order of the machine.
#[verifier::external_body]
pub(crate) fn i64_to_ne_bytes(x: i64) -> (bytes: [u8; 8])
    ensures
        bytes@ == i64_bytes(x),
{
    x.to_ne_bytes()
}

/// `width` digits are `width` bytes, and stand for the number they were
/// taken from as far as it fits in them.
pub proof fn lemma_le_round_trip(n: nat, width: nat)
    ensures
        le_bytes(n, width).len() == width,
        le_value(le_bytes(n, width)) == n % pow256(width),
    decreases width,
{
    if width > 0 {
        let rest = le_bytes(n / 256, (width - 1) as nat);
        let all = le_bytes(n, width);
        lemma_le_round_trip(n / 256, (width - 1) as nat);
        assert(all.drop_first() =~= rest);
        let p = pow256((width - 1) as nat);
        lemma_pow256_positive((width - 1) as nat);
        assert(n % 256 + 256 * ((n / 256) % p) == n % (256 * p)) by {
            lemma_split_low_digit(n, p);
        }
    }
}

/// A power of 256 is at least one.
pub proof fn lemma_pow256_positive(width: nat)
    ensures
        pow256(width) >= 1,
    decreases width,
{
    if width > 0 {
        lemma_pow256_positive((width - 1) as nat);
    }
}

/// The remainder by 256 times `p` is the lowest digit and, above it, the
/// remainder of the other digits by `p`.
proof fn lemma_split_low_digit(n: nat, p: nat)
    requires
        p >= 1,
    ensures
        n % 256 + 256 * ((n / 256) % p) == n % (256 * p),
{
    let q = n / 256;
    let r = n % 256;
    assert(n == 256 * q + r);
    let a = q / p;
    let b = q % p;
    assert(q == p * a + b) by {
        vstd::arithmetic::div_mod::lemma_fundamental_div_mod(q as int, p as int);
    }
    assert(0 <= b < p) by {
        vstd::arithmetic::div_mod::lemma_mod_bound(q as int, p as int);
    }
    let low = r + 256 * b;
    assert(0 <= low < 256 * p) by (nonlinear_arith)
        requires
            0 <= r < 256,
            0 <= b < p,
            low == r + 256 * b,
    ;
    assert(n == (256 * p) * a + low) by (nonlinear_arith)
        requires
            n == 256 * q + r,
            q == p * a + b,
            low == r + 256 * b,
    ;
    vstd::arithmetic::div_mod::lemma_fundamental_div_mod_converse(
        n as int,
        (256 * p) as int,
        a as int,
        low as int,
    );
}

/// In the order of the machine too, `width` digits are `width` bytes and
/// stand for the number they were taken from as far as it fits.
pub proof fn lemma_native_round_trip(n: nat, width: nat)
    ensures
        native_bytes(n, width).len() == width,
        native_value(native_bytes(n, width)) == n % pow256(width),
{
    lemma_le_round_trip(n, width);
    assert(le_bytes(n, width).reverse().reverse() =~= le_bytes(n, width));
}

/// Four bytes tell 2^32 values apart and eight bytes 2^64.
pub proof fn lemma_pow256_of_widths()
    ensures
        pow256(4) == 0x1_0000_0000,
        pow256(8) == two_to_64(),
{
    reveal_with_fuel(pow256, 9);
}

/// What is written for a `u32` is four bytes that read back as it.
pub proof fn lemma_u32_round_trip(x: u32)
    ensures
        u32_bytes(x).len() == 4,
        u32_from_bytes(u32_bytes(x)) == x,
{
    lemma_native_round_trip(x as nat, 4);
    lemma_pow256_of_widths();
}

/// What is written for an `i64` is eight bytes that read back as it.
pub proof fn lemma_i64_round_trip(x: i64)
    ensures
        i64_bytes(x).len() == 8,
        i64_from_bytes(i64_bytes(x)) == x,
{
    lemma_native_round_trip(i64_bits(x), 8);
    lemma_pow256_of_widths();
}

} // verus!

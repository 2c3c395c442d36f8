//! Typing rules shared by the circuit emitter and the transcript codegen:
//! which type texts are integers and how wide, and which method calls leave
//! their receiver's value unchanged. Both passes read them here, so that a
//! circuit never constrains another range than the host checks.
use crate::text::{parse_u32, same, strip_prefix, strip_suffix, u32_of, without_prefix, without_suffix};
use vstd::arithmetic::power2::pow2;
use vstd::prelude::*;

verus! {

/// The `N` of `head<N>`, read as decimal: outer `None` when `s` is no
/// `head<..>`, inner `None` when what stands between is no `u32`.
pub open spec fn angle_u32(s: Seq<char>, head: Seq<char>) -> Option<Option<u32>> {
    match without_prefix(s, head) {
        Some(rest) => match without_suffix(rest, ">"@) {
            Some(n) => Some(u32_of(n)),
            None => None,
        },
        None => None,
    }
}

/// Reads the `N` of `head<N>`; see [`angle_u32`].
pub(crate) fn read_angle_u32(s: &str, head: &str) -> (r: Option<Option<u32>>)
    ensures
        r == angle_u32(s@, head@),
{
    match strip_prefix(s, head) {
        Some(rest) => match strip_suffix(rest, ">") {
            Some(n) => Some(parse_u32(n)),
            None => None,
        },
        None => None,
    }
}

/// The bit width of an integer type's space-free text.
pub open spec fn uint_bits(s: Seq<char>) -> Option<u32> {
    match angle_u32(s, "Uint<"@) {
        Some(n) => n,
        None => if s == "u8"@ {
            Some(8)
        } else if s == "u16"@ {
            Some(16)
        } else if s == "u32"@ {
            Some(32)
        } else if s == "u64"@ {
            Some(64)
        } else if s == "u128"@ {
            Some(128)
        } else {
            None
        },
    }
}

/// Bit width of an integer-like type text: the primitives `u8` to `u128` and
/// `Uint<N>`, with spaces removed. `None` for everything else.
pub fn parse_uint_type(ty_str: &str) -> (r: Option<u32>)
    ensures
        r == uint_bits(ty_str@),
{
    match read_angle_u32(ty_str, "Uint<") {
        Some(n) => n,
        None => if same(ty_str, "u8") {
            Some(8)
        } else if same(ty_str, "u16") {
            Some(16)
        } else if same(ty_str, "u32") {
            Some(32)
        } else if same(ty_str, "u64") {
            Some(64)
        } else if same(ty_str, "u128") {
            Some(128)
        } else {
            None
        },
    }
}

/// The largest value of a `bits`-bit unsigned integer, `u128::MAX` from 128
/// bits on.
pub open spec fn uint_max(bits: u32) -> int {
    if bits >= 128 {
        u128::MAX as int
    } else {
        pow2(bits as nat) - 1
    }
}

/// Maximum value an unsigned integer of `bits` bits can hold, saturating at
/// `u128::MAX`.
pub fn uint_max_value(bits: u32) -> (r: u128)
    ensures
        r == uint_max(bits),
{
    if bits >= 128 {
        u128::MAX
    } else {
        let mut max: u128 = 0;
        let mut i: u32 = 0;
        proof {
            vstd::arithmetic::power2::lemma2_to64();
        }
        while i < bits
            invariant
                i <= bits,
                bits < 128,
                max == pow2(i as nat) - 1,
            decreases bits - i,
        {
            proof {
                vstd::arithmetic::power2::lemma_pow2_unfold((i + 1) as nat);
                vstd::arithmetic::power2::lemma_pow2_strictly_increases(i as nat, 127);
                lemma_pow2_127();
            }
            max = max * 2 + 1;
            i += 1;
        }
        max
    }
}

proof fn lemma_pow2_127()
    ensures
        pow2(127) == 0x8000_0000_0000_0000_0000_0000_0000_0000,
{
    vstd::arithmetic::power2::lemma2_to64();
    vstd::arithmetic::power2::lemma2_to64_rest();
    vstd::arithmetic::power2::lemma_pow2_adds(64, 63);
    assert(pow2(64) * pow2(63) == 0x8000_0000_0000_0000_0000_0000_0000_0000) by (nonlinear_arith)
        requires
            pow2(64) == 0x1_0000_0000_0000_0000,
            pow2(63) == 0x8000_0000_0000_0000,
    ;
}

/// Whether a method changes only the Rust type of its receiver.
pub open spec fn transparent(method: Seq<char>) -> bool {
    method == "into"@ || method == "value"@
}

/// True when `method` is a transparent wrapper call: `.into()` and `.value()`
/// change the Rust type but not the value that circuit and transcript carry.
pub fn is_transparent_wrapper(method: &str) -> (r: bool)
    ensures
        r == transparent(method@),
{
    same(method, "into") || same(method, "value")
}

/// The number of binary digits of `n`.
pub open spec fn bit_length(n: nat) -> nat
    decreases n,
{
    if n == 0 {
        0
    } else {
        bit_length(n / 2) + 1
    }
}

/// The width of an integer literal: its binary digits, at least one.
pub open spec fn literal_width(n: u128) -> u32 {
    if n == 0 {
        1
    } else {
        bit_length(n as nat) as u32
    }
}

/// The width of an integer literal: its binary digits, at least one.
pub fn int_literal_width(n: u128) -> (r: u32)
    ensures
        r == literal_width(n),
{
    let mut rest: u128 = n;
    let mut bits: u32 = 0;
    proof {
        lemma_pow2_128();
        lemma_bit_length_bound(n as nat, 128);
    }
    while rest > 0
        invariant
            bit_length(n as nat) == bits + bit_length(rest as nat),
            bit_length(n as nat) <= 128,
        decreases rest,
    {
        rest = rest / 2;
        bits += 1;
    }
    if n == 0 {
        1
    } else {
        bits
    }
}

pub(crate) proof fn lemma_bit_length_bound(n: nat, k: nat)
    requires
        n < pow2(k),
    ensures
        bit_length(n) <= k,
    decreases k,
{
    if k == 0 {
        vstd::arithmetic::power2::lemma2_to64();
    } else if n > 0 {
        vstd::arithmetic::power2::lemma_pow2_unfold(k);
        lemma_bit_length_bound(n / 2, (k - 1) as nat);
    }
}

pub(crate) proof fn lemma_pow2_128()
    ensures
        pow2(128) == 0x1_0000_0000_0000_0000_0000_0000_0000_0000,
{
    lemma_pow2_127();
    vstd::arithmetic::power2::lemma_pow2_unfold(128);
}

} // verus!

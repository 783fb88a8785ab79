use vstd::prelude::*;

use crate::text::{dec_str, hex_digit, push_char, push_dec, push_hex_digit};

verus! {

/// Two to the power `e`.
pub open spec fn pow2(e: nat) -> nat
    decreases e,
{
    if e == 0 { 1 } else { 2 * pow2((e - 1) as nat) }
}

/// The value of an 8-bit float `SEEEMMMM` in units of 1/256:
/// the value is `(-1)^S * MMMM * 2^(EEE - 8)`.
pub open spec fn float8_units(b: u8) -> int {
    let magnitude = (b % 16) as int * pow2(((b / 16) % 8) as nat) as int;
    if b >= 128 { -magnitude } else { magnitude }
}

/// The position of the highest set bit of a positive number.
pub open spec fn floor_log2(n: nat) -> nat
    decreases n,
{
    if n < 2 { 0 } else { 1 + floor_log2(n / 2) }
}

/// The exponent field chosen for a nonzero magnitude of `n` units of 1/256:
/// one more than `floor(log2(n / 256)) + 4`, where a negative value counts as 0.
pub open spec fn float8_exponent(n: nat) -> nat {
    if floor_log2(n) >= 4 { (floor_log2(n) - 4 + 1) as nat } else { 1 }
}

/// The mantissa chosen for a magnitude of `n` units of 1/256 and exponent `e`:
/// `n / 2^e` rounded half away from zero.
pub open spec fn float8_mantissa(n: nat, e: nat) -> nat {
    (n + pow2(e) / 2) / pow2(e)
}

/// The encoding of a value of `v` units of 1/256, or `None` when the encoding
/// cannot hold it (exponent above 7 or mantissa above 15).
pub open spec fn float8_encode(v: int) -> Option<u8> {
    if v == 0 {
        Some(0)
    } else {
        let n = if v < 0 { -v } else { v };
        let e = float8_exponent(n as nat);
        let m = float8_mantissa(n as nat, e);
        if e >= 8 || m > 15 {
            None
        } else {
            Some(((if v < 0 { 128int } else { 0int }) + e * 16 + m) as u8)
        }
    }
}

/// The floating point sum of two 8-bit floats, or `None` when it cannot be encoded.
pub open spec fn float8_sum(a: u8, b: u8) -> Option<u8> {
    float8_encode(float8_units(a) + float8_units(b))
}

fn pow2_exec(e: u8) -> (p: u32)
    requires
        e < 8,
    ensures
        p == pow2(e as nat),
        1 <= p <= 128,
{
    proof {
        reveal_with_fuel(pow2, 8);
    }
    if e == 0 { 1 }
    else if e == 1 { 2 }
    else if e == 2 { 4 }
    else if e == 3 { 8 }
    else if e == 4 { 16 }
    else if e == 5 { 32 }
    else if e == 6 { 64 }
    else { 128 }
}

proof fn lemma_pow2_pos(e: nat)
    ensures
        pow2(e) >= 1,
    decreases e,
{
    if e > 0 {
        lemma_pow2_pos((e - 1) as nat);
    }
}

fn units(b: u8) -> (v: i32)
    ensures
        v == float8_units(b),
        -1920 <= v <= 1920,
{
    let e = (b / 16) % 8;
    let m = b % 16;
    let p = pow2_exec(e);
    proof {
        assert(m as int * p as int <= 15 * 128) by (nonlinear_arith)
            requires m <= 15, p <= 128;
        assert(m as int * p as int >= 0) by (nonlinear_arith)
            requires m >= 0, p >= 0;
    }
    let magnitude = (m as u32 * p) as i32;
    if b >= 128 { -magnitude } else { magnitude }
}

fn floor_log2_exec(n: u32) -> (r: u32)
    requires
        n < 65536,
    ensures
        r == floor_log2(n as nat),
        r < 16,
    decreases n,
{
    proof {
        assert(pow2(16) == 65536) by {
            reveal_with_fuel(pow2, 17);
        }
        lemma_floor_log2_small(n as nat, 16);
    }
    if n < 2 {
        0
    } else {
        1 + floor_log2_exec(n / 2)
    }
}

proof fn lemma_floor_log2_small(n: nat, k: nat)
    requires
        n < pow2(k),
    ensures
        floor_log2(n) < k || n == 0,
    decreases n,
{
    reveal_with_fuel(pow2, 2);
    if n >= 2 {
        if k == 0 {
        } else {
            lemma_floor_log2_small(n / 2, (k - 1) as nat);
        }
    } else if k == 0 {
    }
}

/// Adds two 8-bit floats; `None` when the sum cannot be encoded.
pub fn float8_checked_add(a: u8, b: u8) -> (r: Option<u8>)
    ensures
        r == float8_sum(a, b),
{
    let v = units(a) + units(b);
    if v == 0 {
        return Some(0);
    }
    let n: u32 = if v < 0 { (-v) as u32 } else { v as u32 };
    let fl = floor_log2_exec(n);
    let e: u32 = if fl >= 4 { fl - 4 + 1 } else { 1 };
    if e >= 8 {
        return None;
    }
    let p = pow2_exec(e as u8);
    proof {
        lemma_pow2_pos(e as nat);
    }
    let m = (n + p / 2) / p;
    if m > 15 {
        return None;
    }
    let sign: u32 = if v < 0 { 128 } else { 0 };
    Some((sign + e * 16 + m) as u8)
}

/// Adds two 8-bit floats as the ADDF instruction does.
pub fn float8_add(a: u8, b: u8) -> (r: u8)
    requires
        float8_sum(a, b) is Some,
    ensures
        Some(r) == float8_sum(a, b),
{
    match float8_checked_add(a, b) {
        Some(r) => r,
        None => 0,
    }
}

/// Adding 8-bit floats does not depend on the order of the operands.
pub proof fn lemma_float8_sum_commutative(a: u8, b: u8)
    ensures
        float8_sum(a, b) == float8_sum(b, a),
{
}

/// The `k`-digit decimal of `f`, with leading zeros.
pub open spec fn padded_digits(f: nat, k: nat) -> Seq<char>
    decreases k,
{
    if k == 0 {
        Seq::empty()
    } else {
        padded_digits(f / 10, (k - 1) as nat).push(hex_digit((f % 10) as int))
    }
}

/// The fraction `f / 10^k` after the decimal point, without trailing zeros;
/// nothing at all for zero.
pub open spec fn fraction_text(f: nat, k: nat) -> Seq<char>
    decreases k,
{
    if f == 0 {
        Seq::empty()
    } else if k > 0 && f % 10 == 0 {
        fraction_text(f / 10, (k - 1) as nat)
    } else {
        seq!['.'] + padded_digits(f, k)
    }
}

/// An 8-bit float in decimal, exactly and without trailing zeros, as the
/// shortest decimal that names the value: a minus sign when the sign bit is
/// set (also for zero), the integer part, then the fraction if it is not
/// zero. The value is `units / 256`, and `1/256 = 390625 / 10^8`.
pub open spec fn float8_text(b: u8) -> Seq<char> {
    let n = (b % 16) as nat * pow2(((b / 16) % 8) as nat);
    (if b >= 128 { seq!['-'] } else { Seq::empty() }) + dec_str(n / 256) + fraction_text((n % 256) * 390625, 8)
}

fn push_padded(s: &mut String, f: u32, k: u32)
    ensures
        final(s)@ == old(s)@ + padded_digits(f as nat, k as nat),
    decreases k,
{
    if k > 0 {
        push_padded(s, f / 10, k - 1);
        push_hex_digit(s, (f % 10) as u8);
    }
    assert(final(s)@ =~= old(s)@ + padded_digits(f as nat, k as nat));
}

/// An 8-bit float in decimal.
pub fn float8_to_string(flt: u8) -> (s: String)
    ensures
        s@ == float8_text(flt),
{
    let e = (flt / 16) % 8;
    let m = flt % 16;
    let p = pow2_exec(e);
    proof {
        assert(m as int * p as int <= 15 * 128) by (nonlinear_arith)
            requires m <= 15, p <= 128;
    }
    let n: u32 = m as u32 * p;
    let mut s = String::new();
    if flt >= 128 {
        push_char(&mut s, '-');
    }
    push_dec(&mut s, (n / 256) as u64);
    let mut f: u32 = (n % 256) * 390625;
    let mut k: u32 = 8;
    proof {
        assert(fraction_text(((n % 256) * 390625) as nat, 8) == fraction_text(f as nat, k as nat));
    }
    let ghost target = fraction_text(f as nat, k as nat);
    if f != 0 {
        while k > 0 && f % 10 == 0
            invariant
                f != 0,
                fraction_text(f as nat, k as nat) == target,
            decreases k,
        {
            f = f / 10;
            k = k - 1;
        }
        push_char(&mut s, '.');
        push_padded(&mut s, f, k);
    }
    assert(s@ =~= float8_text(flt));
    s
}

} // verus!

//! Arithmetic helpers shared by wire labels and the evaluator.
use vstd::prelude::*;

verus! {

/// `base` raised to the power `exp`.
pub open spec fn power(base: nat, exp: nat) -> nat
    decreases exp,
{
    if exp == 0 {
        1
    } else {
        base * power(base, (exp - 1) as nat)
    }
}

/// Two to the sixteenth.
pub proof fn lemma_power2_16()
    ensures
        power(2, 16) == 65536,
{
    reveal_with_fuel(power, 17);
}

/// Two to the 128th is one more than the largest `u128`.
pub proof fn lemma_power2_128()
    ensures
        power(2, 128) == u128::MAX + 1,
{
    lemma_power2_16();
    lemma_power_adds(2, 16, 16);
    assert(power(2, 32) == 0x1_0000_0000);
    lemma_power_adds(2, 32, 32);
    assert(power(2, 64) == 0x1_0000_0000_0000_0000);
    lemma_power_adds(2, 64, 64);
}

/// Powers of a common base multiply by adding exponents.
pub proof fn lemma_power_adds(b: nat, e1: nat, e2: nat)
    ensures
        power(b, e1 + e2) == power(b, e1) * power(b, e2),
    decreases e1,
{
    if e1 > 0 {
        let e = (e1 - 1) as nat;
        lemma_power_adds(b, e, e2);
        assert((e1 + e2) as nat == (e + e2) + 1);
        assert(power(b, e1 + e2) == b * power(b, e + e2));
        assert(power(b, e1) == b * power(b, e));
        let x = power(b, e);
        let y = power(b, e2);
        assert(b * (x * y) == (b * x) * y) by (nonlinear_arith);
        assert(power(b, e + e2) == x * y);
        assert(power(b, e1 + e2) == b * (x * y));
        assert(power(b, e1 + e2) == power(b, e1) * power(b, e2));
    } else {
        assert(power(b, e1) == 1);
        assert(power(b, e1 + e2) == power(b, e1) * power(b, e2));
    }
}

/// A power of a power multiplies the exponents.
pub proof fn lemma_power_multiplies(b: nat, c: nat, n: nat)
    ensures
        power(power(b, c), n) == power(b, c * n),
    decreases n,
{
    if n > 0 {
        let m = (n - 1) as nat;
        lemma_power_multiplies(b, c, m);
        let cm: nat = c * m;
        assert(c * n == cm + c) by (nonlinear_arith)
            requires
                n == m + 1,
                cm == c * m,
        ;
        lemma_power_adds(b, cm, c);
        assert(power(power(b, c), n) == power(b, c) * power(power(b, c), m));
        assert(power(b, c) * power(b, cm) == power(b, cm) * power(b, c)) by (nonlinear_arith);
        assert(power(power(b, c), m) == power(b, cm));
        assert(power(b, cm + c) == power(b, cm) * power(b, c));
        assert(power(power(b, c), n) == power(b, c * n));
    } else {
        assert(c * n == 0) by (nonlinear_arith)
            requires
                n == 0,
        ;
    }
}

/// Raising to a fixed power is monotone in the base.
pub proof fn lemma_power_base_monotone(a: nat, b: nat, e: nat)
    requires
        a <= b,
    ensures
        power(a, e) <= power(b, e),
    decreases e,
{
    if e > 0 {
        lemma_power_base_monotone(a, b, (e - 1) as nat);
        let pa = power(a, (e - 1) as nat);
        let pb = power(b, (e - 1) as nat);
        assert(a * pa <= b * pb) by (nonlinear_arith)
            requires
                a <= b,
                pa <= pb,
        ;
    }
}

/// A power of a positive base grows with the exponent.
pub proof fn lemma_power_exp_monotone(b: nat, e1: nat, e2: nat)
    requires
        b >= 1,
        e1 <= e2,
    ensures
        1 <= power(b, e1) <= power(b, e2),
    decreases e2,
{
    if e2 > e1 {
        lemma_power_exp_monotone(b, e1, (e2 - 1) as nat);
        let p = power(b, (e2 - 1) as nat);
        assert(p <= b * p) by (nonlinear_arith)
            requires
                b >= 1,
                p >= 1,
        ;
    } else if e1 > 0 {
        lemma_power_exp_monotone(b, (e1 - 1) as nat, (e1 - 1) as nat);
        let p = power(b, (e1 - 1) as nat);
        assert(1 <= b * p) by (nonlinear_arith)
            requires
                b >= 1,
                p >= 1,
        ;
    }
}

/// Number of bits needed to write `x` in binary (0 for `x == 0`).
pub open spec fn bit_width(x: nat) -> nat
    decreases x,
{
    if x == 0 {
        0
    } else {
        1 + bit_width(x / 2)
    }
}

/// Number of base-`q` digits that a wire label of modulus `q` carries:
/// 128 divided by the number of bits of a digit, rounded down.
pub open spec fn num_digits(q: nat) -> nat {
    128nat / bit_width((q - 1) as nat)
}

/// `x` is smaller than two to the power of its bit width.
pub proof fn lemma_bit_width_bound(x: nat)
    ensures
        x < power(2, bit_width(x)),
    decreases x,
{
    if x > 0 {
        lemma_bit_width_bound(x / 2);
    }
}

/// The bit width grows with its argument.
pub proof fn lemma_bit_width_monotone(x: nat, y: nat)
    requires
        x <= y,
    ensures
        bit_width(x) <= bit_width(y),
    decreases y,
{
    if x > 0 {
        lemma_bit_width_monotone(x / 2, y / 2);
    }
}

/// A number below `2^k` has at most `k` bits.
pub proof fn lemma_bit_width_at_most(x: nat, k: nat)
    requires
        x < power(2, k),
    ensures
        bit_width(x) <= k,
    decreases k,
{
    if x > 0 {
        if k > 0 {
            lemma_bit_width_at_most(x / 2, (k - 1) as nat);
        }
    }
}

/// All `num_digits(q)` digits of modulus `q` fit in 128 bits:
/// `q^num_digits(q) <= 2^128`.
pub proof fn lemma_digits_fit(q: nat)
    requires
        q >= 2,
    ensures
        power(q, num_digits(q)) <= power(2, 128),
        power(q, num_digits(q)) <= u128::MAX + 1,
{
    let bw = bit_width((q - 1) as nat);
    let n = num_digits(q);
    lemma_bit_width_bound((q - 1) as nat);
    lemma_bit_width_monotone(1, (q - 1) as nat);
    reveal_with_fuel(bit_width, 2);
    assert(bw >= 1);
    lemma_power_base_monotone(q, power(2, bw), n);
    lemma_power_multiplies(2, bw, n);
    assert(bw * n <= 128) by (nonlinear_arith)
        requires
            bw >= 1,
            n == 128nat / bw,
    ;
    lemma_power_exp_monotone(2, bw * n, 128);
    lemma_power2_128();
}

/// `num_digits(q)` for a modulus whose largest digit `q - 1` has `bw` bits.
pub proof fn lemma_num_digits(q: nat, bw: nat)
    requires
        q >= 1,
        bit_width((q - 1) as nat) == bw,
    ensures
        num_digits(q) == 128nat / bw,
{
}

/// A 16-bit modulus has between 8 and 128 digits.
pub proof fn lemma_num_digits_range(q: nat)
    requires
        2 <= q < 65536,
    ensures
        8 <= num_digits(q) <= 128,
{
    let bw = bit_width((q - 1) as nat);
    lemma_power2_16();
    lemma_bit_width_at_most((q - 1) as nat, 16);
    lemma_bit_width_monotone(1, (q - 1) as nat);
    reveal_with_fuel(bit_width, 2);
    assert(8 <= 128nat / bw <= 128) by (nonlinear_arith)
        requires
            1 <= bw <= 16,
    ;
}

/// Computes the number of base-`q` digits of a 128-bit label.
pub fn digits_per_u128(q: u16) -> (n: usize)
    requires
        q >= 2,
    ensures
        n == num_digits(q as nat),
        8 <= n <= 128,
{
    let mut x: u16 = q - 1;
    let mut bits: usize = 0;
    while x > 0
        invariant
            bits + bit_width(x as nat) == bit_width((q - 1) as nat),
            bits <= 16,
            q >= 2,
        decreases x,
    {
        proof {
            lemma_power2_16();
            lemma_bit_width_at_most((q - 1) as nat, 16);
        }
        x = x / 2;
        bits = bits + 1;
    }
    proof {
        lemma_bit_width_monotone(1, (q - 1) as nat);
        lemma_power2_16();
        lemma_bit_width_at_most((q - 1) as nat, 16);
        assert(bit_width(0) == 0);
        assert(bit_width(1) == 1 + bit_width(0));
    }
    assert(1 <= bits <= 16);
    assert(8 <= 128usize / bits <= 128) by (nonlinear_arith)
        requires
            1 <= bits <= 16,
    ;
    128 / bits
}

/// First multiplier of the block mixer (odd, so multiplication is a bijection).
pub const MIX_MUL_A: u128 = 0x9e37_79b9_7f4a_7c15_f39c_c060_5ced_c835;

/// Second multiplier of the block mixer (odd).
pub const MIX_MUL_B: u128 = 0x2545_f491_4f6c_dd1d_d1b5_4a32_d192_ed03;

/// The fixed key that every hashed block is masked with first.
pub const HASH_KEY: u128 = 0x243f_6a88_85a3_08d3_1319_8a2e_0370_7344;

/// The fixed mixing permutation of 128-bit blocks: two xor-shift / multiply rounds.
pub open spec fn mix_spec(x: u128) -> u128 {
    let a = (x ^ (x >> 64u32)).wrapping_mul(MIX_MUL_A);
    let b = (a ^ (a >> 61u32)).wrapping_mul(MIX_MUL_B);
    b ^ (b >> 67u32)
}

/// The tweakable hash of a 128-bit block under a 128-bit tweak.
pub open spec fn block_hash(tweak: u128, x: u128) -> u128 {
    mix_spec(mix_spec(x ^ HASH_KEY) ^ tweak)
}

/// Applies the fixed mixing permutation to a block.
fn mix(x: u128) -> (r: u128)
    ensures
        r == mix_spec(x),
{
    let a = (x ^ (x >> 64u32)).wrapping_mul(MIX_MUL_A);
    let b = (a ^ (a >> 61u32)).wrapping_mul(MIX_MUL_B);
    b ^ (b >> 67u32)
}

/// Hashes block `x` under `tweak`.
pub fn hash_block(tweak: u128, x: u128) -> (h: u128)
    ensures
        h == block_hash(tweak, x),
{
    mix(mix(x ^ HASH_KEY) ^ tweak)
}

/// Two to the 64th.
pub open spec fn two_pow_64() -> nat {
    0x1_0000_0000_0000_0000
}

/// Packs two 64-bit counters into one tweak: `i` in the high half, `j` in the low half.
pub fn tweak2(i: u64, j: u64) -> (t: u128)
    ensures
        t == i * two_pow_64() + j,
{
    assert(i * two_pow_64() + j <= u128::MAX) by (nonlinear_arith)
        requires
            i <= u64::MAX,
            j <= u64::MAX,
    ;
    (i as u128) * 0x1_0000_0000_0000_0000u128 + (j as u128)
}

/// The tweak under which the label for value `k` of output `i` is hashed:
/// `i + 1` in the high half and `k` in the low half.
pub fn output_tweak(i: usize, k: u16) -> (t: u128)
    requires
        i < usize::MAX,
    ensures
        t == (i + 1) * two_pow_64() + k,
{
    tweak2((i + 1) as u64, k as u64)
}

} // verus!

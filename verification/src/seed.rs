//! The 128-bit seed of a market and the SplitMix64 stream that draws the
//! parameters of each listing.

use vstd::prelude::*;
use vstd::bytes::{
    spec_u64_to_le_bytes, spec_u64_from_le_bytes, spec_u64_to_le_bytes_to_open,
    lemma_auto_spec_u64_to_from_le_bytes,
};
use vstd::arithmetic::div_mod::{
    lemma_mul_mod_noop_left, lemma_mul_mod_noop_right, lemma_small_mod, lemma_mod_add_multiples_vanish,
};
use vstd::arithmetic::mul::lemma_mul_is_associative;
use crate::values::{
    BIT_SHIFT_1, BIT_SHIFT_2, BIT_SHIFT_3, NEXT_U64, SPLIT_MIX_HIGH, Z_STEP_1, Z_STEP_2,
};

verus! {

/// 2^64, the modulus of all wrapping `u64` arithmetic.
pub open spec fn modulus() -> int {
    0x1_0000_0000_0000_0000
}

/// A market's 128-bit seed, kept as two 64-bit halves.
#[derive(Clone, Copy, Debug)]
pub struct SeedMarketTheory {
    pub q_high: u64,
    pub q_low: u64,
}

/// The number a seed stands for: the high half above the low half.
pub open spec fn seed_value(q_high: u64, q_low: u64) -> nat {
    q_high as nat * 0x1_0000_0000_0000_0000 + q_low as nat
}

/// One xor-shift step of the SplitMix64 finaliser.
pub open spec fn xorshift(z: u64, s: u64) -> u64 {
    z ^ (z >> s)
}

/// The SplitMix64 finaliser: the output drawn from a given state.
pub open spec fn mix(z: u64) -> u64 {
    let a = xorshift(z, BIT_SHIFT_1).wrapping_mul(Z_STEP_1);
    let b = xorshift(a, BIT_SHIFT_2).wrapping_mul(Z_STEP_2);
    xorshift(b, BIT_SHIFT_3)
}

/// The state of a SplitMix64 stream after `n` draws from state `s`.
pub open spec fn advance(s: u64, n: nat) -> u64
    decreases n,
{
    if n == 0 {
        s
    } else {
        advance(s, (n - 1) as nat).wrapping_add(NEXT_U64)
    }
}

/// The `k`-th output (counting from 0) of a stream that starts at state `s`.
pub open spec fn draw(s: u64, k: nat) -> u64 {
    mix(advance(s, k + 1))
}

/// The 32 bytes that a seed stretches to: the seed itself in little-endian
/// order, then two words taken from a SplitMix64 stream keyed by its high half.
pub open spec fn expanded(seed: SeedMarketTheory) -> Seq<u8> {
    let s = seed.q_high ^ SPLIT_MIX_HIGH;
    let a = draw(s, 0) ^ seed.q_low;
    let b = draw(s, 1).wrapping_add(seed.q_high);
    spec_u64_to_le_bytes(seed.q_low) + spec_u64_to_le_bytes(seed.q_high) + spec_u64_to_le_bytes(a)
        + spec_u64_to_le_bytes(b)
}

impl SeedMarketTheory {
    /// The seed as one 128-bit number.
    pub fn as_u128(self) -> (r: u128)
        ensures
            r == seed_value(self.q_high, self.q_low),
            r as u64 == self.q_low,
            (r >> 64u128) as u64 == self.q_high,
    {
        let h = self.q_high as u128;
        let l = self.q_low as u128;
        let r = (h << 64u128) | l;
        let qh = self.q_high;
        let ql = self.q_low;
        assert(r == h * 0x1_0000_0000_0000_0000u128 + l && r as u64 == ql && (r >> 64u128) as u64
            == qh) by (bit_vector)
            requires
                h == qh as u128,
                l == ql as u128,
                r == (h << 64u128) | l,
        ;
        r
    }

    /// Stretches the seed to the 32 bytes that key the market's main
    /// random stream.
    pub fn expand(self) -> (out: [u8; 32])
        ensures
            out@ == expanded(self),
    {
        let u = self.as_u128();
        let low = u as u64;
        let high = (u >> 64u128) as u64;
        let mut out = [0u8; 32];
        write_le_u64(&mut out, 0, low);
        write_le_u64(&mut out, 8, high);
        let mut sm = SplitMix64::new(self.q_high ^ SPLIT_MIX_HIGH);
        let a = sm.next_u64() ^ self.q_low;
        let b = sm.next_u64().wrapping_add(self.q_high);
        proof {
            let s = self.q_high ^ SPLIT_MIX_HIGH;
            assert(advance(s, 1) == advance(s, 0).wrapping_add(NEXT_U64));
            assert(advance(s, 2) == advance(s, 1).wrapping_add(NEXT_U64));
        }
        write_le_u64(&mut out, 16, a);
        write_le_u64(&mut out, 24, b);
        assert(out@ =~= expanded(self));
        out
    }
}

/// Writes the little-endian bytes of `x` into `out[at..at + 8]`.
fn write_le_u64(out: &mut [u8; 32], at: usize, x: u64)
    requires
        at + 8 <= 32,
    ensures
        final(out)@ == old(out)@.subrange(0, at as int) + spec_u64_to_le_bytes(x) + old(
            out,
        )@.subrange(at + 8, 32),
{
    proof {
        spec_u64_to_le_bytes_to_open(x);
    }
    out[at] = (x & 0xff) as u8;
    out[at + 1] = ((x >> 8u64) & 0xff) as u8;
    out[at + 2] = ((x >> 16u64) & 0xff) as u8;
    out[at + 3] = ((x >> 24u64) & 0xff) as u8;
    out[at + 4] = ((x >> 32u64) & 0xff) as u8;
    out[at + 5] = ((x >> 40u64) & 0xff) as u8;
    out[at + 6] = ((x >> 48u64) & 0xff) as u8;
    out[at + 7] = ((x >> 56u64) & 0xff) as u8;
    assert(out@ =~= old(out)@.subrange(0, at as int) + spec_u64_to_le_bytes(x) + old(
        out,
    )@.subrange(at + 8, 32));
}

/// The SplitMix64 generator: a Weyl sequence of states passed through a
/// bijective finaliser.
pub struct SplitMix64(u64);

impl View for SplitMix64 {
    type V = u64;

    closed spec fn view(&self) -> u64 {
        self.0
    }
}

impl SplitMix64 {
    /// A stream whose state is `seed`.
    pub fn new(seed: u64) -> (r: Self)
        ensures
            r@ == seed,
    {
        SplitMix64(seed)
    }

    /// Advances the state by the Weyl increment and returns the finalised state.
    pub fn next_u64(&mut self) -> (r: u64)
        ensures
            final(self)@ == old(self)@.wrapping_add(NEXT_U64),
            r == mix(final(self)@),
    {
        self.0 = self.0.wrapping_add(NEXT_U64);
        let mut z = self.0;
        z = (z ^ (z >> BIT_SHIFT_1)).wrapping_mul(Z_STEP_1);
        z = (z ^ (z >> BIT_SHIFT_2)).wrapping_mul(Z_STEP_2);
        z ^ (z >> BIT_SHIFT_3)
    }
}

/// Inverse of [`Z_STEP_1`] modulo 2^64.
pub open spec fn z_step_1_inverse() -> u64 {
    0x96de_1b17_3f11_9089
}

/// Inverse of [`Z_STEP_2`] modulo 2^64.
pub open spec fn z_step_2_inverse() -> u64 {
    0x3196_42b2_d24d_8ec3
}

/// Inverse of [`NEXT_U64`] modulo 2^64.
pub open spec fn next_u64_inverse() -> int {
    0xf1de_83e1_9937_733d
}

/// Undoes a xor-shift by `s` bits, for `s` at least 22.
pub open spec fn unxorshift(y: u64, s: u64) -> u64 {
    y ^ (y >> s) ^ (y >> (2 * s)) ^ (y >> (3 * s))
}

/// The inverse of the finaliser [`mix`].
pub open spec fn unmix(r: u64) -> u64 {
    let b = unxorshift(r, BIT_SHIFT_3);
    let a = unxorshift(b.wrapping_mul(z_step_2_inverse()), BIT_SHIFT_2);
    unxorshift(a.wrapping_mul(z_step_1_inverse()), BIT_SHIFT_1)
}

proof fn lemma_unxorshift_30(z: u64)
    ensures
        unxorshift(xorshift(z, 30), 30) == z,
{
    let y = z ^ (z >> 30u64);
    assert(y ^ (y >> 30u64) ^ (y >> 60u64) ^ (y >> 90u64) == z) by (bit_vector)
        requires
            y == z ^ (z >> 30u64),
    ;
}

proof fn lemma_unxorshift_27(z: u64)
    ensures
        unxorshift(xorshift(z, 27), 27) == z,
{
    let y = z ^ (z >> 27u64);
    assert(y ^ (y >> 27u64) ^ (y >> 54u64) ^ (y >> 81u64) == z) by (bit_vector)
        requires
            y == z ^ (z >> 27u64),
    ;
}

proof fn lemma_unxorshift_31(z: u64)
    ensures
        unxorshift(xorshift(z, 31), 31) == z,
{
    let y = z ^ (z >> 31u64);
    assert(y ^ (y >> 31u64) ^ (y >> 62u64) ^ (y >> 93u64) == z) by (bit_vector)
        requires
            y == z ^ (z >> 31u64),
    ;
}

/// Multiplying by `c` and then by its inverse modulo 2^64 gives back `x`.
proof fn lemma_wrapping_mul_cancel(x: u64, c: u64, ci: u64)
    requires
        (c as int * ci as int) % modulus() == 1,
    ensures
        x.wrapping_mul(c).wrapping_mul(ci) == x,
{
    let m = modulus();
    lemma_mul_mod_noop_left(x as int * c as int, ci as int, m);
    lemma_mul_is_associative(x as int, c as int, ci as int);
    lemma_mul_mod_noop_right(x as int, c as int * ci as int, m);
    lemma_small_mod(x as nat, m as nat);
}

/// The finaliser is a bijection of the 64-bit words: [`unmix`] undoes it.
pub proof fn lemma_unmix_mix(z: u64)
    ensures
        unmix(mix(z)) == z,
{
    assert((Z_STEP_1 as int * z_step_1_inverse() as int) % modulus() == 1);
    assert((Z_STEP_2 as int * z_step_2_inverse() as int) % modulus() == 1);
    let a0 = xorshift(z, BIT_SHIFT_1);
    let a = a0.wrapping_mul(Z_STEP_1);
    let b0 = xorshift(a, BIT_SHIFT_2);
    let b = b0.wrapping_mul(Z_STEP_2);
    let r = xorshift(b, BIT_SHIFT_3);
    lemma_unxorshift_31(b);
    lemma_wrapping_mul_cancel(b0, Z_STEP_2, z_step_2_inverse());
    lemma_unxorshift_27(a);
    lemma_wrapping_mul_cancel(a0, Z_STEP_1, z_step_1_inverse());
    lemma_unxorshift_30(z);
}

/// Distinct states give distinct outputs.
pub proof fn lemma_mix_injective(a: u64, b: u64)
    requires
        a != b,
    ensures
        mix(a) != mix(b),
{
    lemma_unmix_mix(a);
    lemma_unmix_mix(b);
}

/// After `n` draws the state has moved by `n` increments, modulo 2^64.
pub proof fn lemma_advance_closed_form(s: u64, n: nat)
    ensures
        advance(s, n) as int == (s as int + n * NEXT_U64 as int) % modulus(),
    decreases n,
{
    if n == 0 {
        lemma_small_mod(s as nat, modulus() as nat);
    } else {
        lemma_advance_closed_form(s, (n - 1) as nat);
        let p = advance(s, (n - 1) as nat);
        let t = s as int + (n - 1) * NEXT_U64 as int;
        let m = modulus();
        // p == t % m, and the next state is (p + G) % m == (t + G) % m
        assert(p.wrapping_add(NEXT_U64) as int == (p as int + NEXT_U64 as int) % m) by {
            if (p as int + NEXT_U64 as int) < m {
                lemma_small_mod((p as int + NEXT_U64 as int) as nat, m as nat);
            } else {
                lemma_small_mod((p as int + NEXT_U64 as int - m) as nat, m as nat);
                lemma_mod_add_multiples_vanish(p as int + NEXT_U64 as int - m, m);
            }
        }
        vstd::arithmetic::div_mod::lemma_add_mod_noop(t, NEXT_U64 as int, m);
        lemma_small_mod(NEXT_U64 as nat, m as nat);
        vstd::arithmetic::div_mod::lemma_mod_twice(t, m);
        assert(t + NEXT_U64 as int == s as int + n * NEXT_U64 as int) by (nonlinear_arith)
            requires
                t == s as int + (n - 1) * NEXT_U64 as int,
        ;
        vstd::arithmetic::div_mod::lemma_add_mod_noop(p as int, NEXT_U64 as int, m);
    }
}

/// Drawing `a` times and then `b` times is drawing `a + b` times.
pub proof fn lemma_advance_add(s: u64, a: nat, b: nat)
    ensures
        advance(advance(s, a), b) == advance(s, a + b),
    decreases b,
{
    if b > 0 {
        lemma_advance_add(s, a, (b - 1) as nat);
    }
}

/// The states of a stream do not repeat within 2^64 draws: the increment
/// is odd, so the Weyl sequence visits every word once per period.
pub proof fn lemma_states_distinct(s: u64, i: nat, j: nat)
    requires
        i < j,
        j - i < modulus(),
    ensures
        advance(s, i) != advance(s, j),
{
    let m = modulus();
    let g = NEXT_U64 as int;
    let gi = next_u64_inverse();
    lemma_advance_closed_form(s, i);
    lemma_advance_closed_form(s, j);
    if advance(s, i) == advance(s, j) {
        let d = j - i;
        // (s + j g) - (s + i g) == d g, and both sides agree modulo m
        assert((s as int + j * g) == (s as int + i * g) + d * g) by (nonlinear_arith)
            requires
                d == j - i,
        ;
        vstd::arithmetic::div_mod::lemma_add_mod_noop(s as int + i * g, d * g, m);
        vstd::arithmetic::div_mod::lemma_mod_twice(s as int + i * g, m);
        assert((d * g) % m == 0) by {
            let a = (s as int + i * g) % m;
            assert(0 <= a < m) by {
                vstd::arithmetic::div_mod::lemma_mod_bound(s as int + i * g, m);
            }
            vstd::arithmetic::div_mod::lemma_mod_bound(d * g, m);
            vstd::arithmetic::div_mod::lemma_add_mod_noop(a, d * g, m);
            vstd::arithmetic::div_mod::lemma_mod_twice(d * g, m);
            // (a + (d g) % m) % m == a, with both summands in [0, m)
            let b = (d * g) % m;
            if b != 0 {
                if a + b < m {
                    lemma_small_mod((a + b) as nat, m as nat);
                } else {
                    lemma_small_mod((a + b - m) as nat, m as nat);
                    lemma_mod_add_multiples_vanish(a + b - m, m);
                }
            }
        }
        assert((g * gi) % m == 1);
        lemma_mul_mod_noop_left(d * g, gi, m);
        lemma_mul_is_associative(d, g, gi);
        lemma_mul_mod_noop_right(d, g * gi, m);
        lemma_small_mod(d as nat, m as nat);
        assert(0 * gi == 0);
        vstd::arithmetic::div_mod::lemma_mod_self_0(m);
        assert(false);
    }
}

/// Within one period (2^64 draws) a stream never returns the same word twice.
pub proof fn lemma_draws_distinct(s: u64, i: nat, j: nat)
    requires
        i < j,
        j < modulus(),
    ensures
        draw(s, i) != draw(s, j),
{
    lemma_states_distinct(s, i + 1, j + 1);
    lemma_mix_injective(advance(s, i + 1), advance(s, j + 1));
}

/// Each call of [`SplitMix64::next_u64`] on a stream that started at state
/// `s` and has made `n` calls leaves it having made `n + 1` calls and
/// returns the `n`-th output: the finaliser applied to `s` plus `n + 1`
/// increments, modulo 2^64. By induction over the calls, the `k`-th call
/// on `SplitMix64::new(s)` (counting from 1) returns [`draw`]`(s, k - 1)`.
pub proof fn lemma_next_u64_draws(s: u64, n: nat, before: SplitMix64, after: SplitMix64, r: u64)
    requires
        before@ == advance(s, n),
        after@ == before@.wrapping_add(NEXT_U64),
        r == mix(after@),
    ensures
        after@ == advance(s, n + 1),
        r == draw(s, n),
        r == mix(((s as int + (n + 1) * NEXT_U64 as int) % modulus()) as u64),
{
    lemma_advance_closed_form(s, n + 1);
}

/// Streams started at distinct states differ in their first output.
pub proof fn lemma_first_draws_differ(a: u64, b: u64)
    requires
        a != b,
    ensures
        draw(a, 0) != draw(b, 0),
{
    assert(advance(a, 0) == a && advance(b, 0) == b);
    assert(advance(a, 1) == a.wrapping_add(NEXT_U64));
    assert(advance(b, 1) == b.wrapping_add(NEXT_U64));
    lemma_mix_injective(advance(a, 1), advance(b, 1));
}

/// Distinct seeds stand for distinct 128-bit numbers.
pub proof fn lemma_seed_value_injective(a: SeedMarketTheory, b: SeedMarketTheory)
    requires
        seed_value(a.q_high, a.q_low) == seed_value(b.q_high, b.q_low),
    ensures
        a.q_high == b.q_high,
        a.q_low == b.q_low,
{
    assert(a.q_high == b.q_high) by (nonlinear_arith)
        requires
            a.q_high as nat * 0x1_0000_0000_0000_0000 + a.q_low as nat == b.q_high as nat
                * 0x1_0000_0000_0000_0000 + b.q_low as nat,
            a.q_low < 0x1_0000_0000_0000_0000,
            b.q_low < 0x1_0000_0000_0000_0000,
    ;
}

/// A stretched seed begins with the seed: its first eight bytes read back
/// as the low half and the next eight as the high half.
pub proof fn lemma_expand_starts_with_seed(seed: SeedMarketTheory)
    ensures
        expanded(seed).len() == 32,
        spec_u64_from_le_bytes(expanded(seed).subrange(0, 8)) == seed.q_low,
        spec_u64_from_le_bytes(expanded(seed).subrange(8, 16)) == seed.q_high,
{
    lemma_auto_spec_u64_to_from_le_bytes();
    let e = expanded(seed);
    assert(e.subrange(0, 8) =~= spec_u64_to_le_bytes(seed.q_low));
    assert(e.subrange(8, 16) =~= spec_u64_to_le_bytes(seed.q_high));
}

/// The first sixteen bytes of a stretched seed decode back to its two halves,
/// so distinct seeds key distinct streams.
pub proof fn lemma_expand_injective(a: SeedMarketTheory, b: SeedMarketTheory)
    requires
        expanded(a) == expanded(b),
    ensures
        a.q_high == b.q_high,
        a.q_low == b.q_low,
{
    lemma_expand_starts_with_seed(a);
    lemma_expand_starts_with_seed(b);
}

/// The last sixteen bytes of a stretched seed are two outputs of the
/// SplitMix64 stream keyed by the salted high half: the first mixed with
/// the whole low half by xor, the second shifted by the high half.
pub proof fn lemma_expand_drawn_words(seed: SeedMarketTheory)
    ensures
        spec_u64_from_le_bytes(expanded(seed).subrange(16, 24)) == draw(
            seed.q_high ^ SPLIT_MIX_HIGH,
            0,
        ) ^ seed.q_low,
        spec_u64_from_le_bytes(expanded(seed).subrange(24, 32)) == draw(
            seed.q_high ^ SPLIT_MIX_HIGH,
            1,
        ).wrapping_add(seed.q_high),
{
    lemma_auto_spec_u64_to_from_le_bytes();
    let e = expanded(seed);
    let s = seed.q_high ^ SPLIT_MIX_HIGH;
    assert(e.subrange(16, 24) =~= spec_u64_to_le_bytes(draw(s, 0) ^ seed.q_low));
    assert(e.subrange(24, 32) =~= spec_u64_to_le_bytes(draw(s, 1).wrapping_add(seed.q_high)));
}

/// Two seeds with the same high half key words at bytes 16..24 that differ
/// by exactly the difference (xor) of their low halves: every bit of the
/// low half reaches the stream's key there.
pub proof fn lemma_expand_low_half_reaches_key(a: SeedMarketTheory, b: SeedMarketTheory)
    requires
        a.q_high == b.q_high,
    ensures
        spec_u64_from_le_bytes(expanded(a).subrange(16, 24)) ^ spec_u64_from_le_bytes(
            expanded(b).subrange(16, 24),
        ) == a.q_low ^ b.q_low,
{
    lemma_expand_drawn_words(a);
    lemma_expand_drawn_words(b);
    let d = draw(a.q_high ^ SPLIT_MIX_HIGH, 0);
    let x = a.q_low;
    let y = b.q_low;
    assert((d ^ x) ^ (d ^ y) == x ^ y) by (bit_vector);
}

} // verus!

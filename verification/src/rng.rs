//! The market's main random stream, as far as the library draws from it.

use vstd::prelude::*;
use rand::{Rng, RngCore, SeedableRng};
use crate::seed::{SeedMarketTheory, SplitMix64, expanded};
use crate::values::SCRAMBLING_SALT;
use rand_chacha::ChaCha8Rng;

verus! {

/// The ChaCha8 generator of `rand_chacha`, carried as an opaque value.
#[verifier::external_type_specification]
#[verifier::external_body]
pub struct ExChaCha8Rng(ChaCha8Rng);

/// What drawing a number in `lo..hi` from a generator gives: the number,
/// and the generator after the draw.
pub uninterp spec fn chacha_below(rng: ChaCha8Rng, lo: usize, hi: usize) -> (usize, ChaCha8Rng);

/// Draws a number in `lo..hi` from `rng`.
///
/// Calls `rand::Rng::random_range` with the half-open range `lo..hi`. The
/// number and the generator's state afterwards are a function of the
/// generator's state and the range, named [`chacha_below`]; the number lies
/// in the range, and the draw keeps the generator's key and stream
/// number. How many words a draw takes is left unsaid here. The call panics
/// on an empty range, hence `lo < hi`.
#[verifier::external_body]
pub(crate) fn random_below(rng: &mut ChaCha8Rng, lo: usize, hi: usize) -> (r: usize)
    requires
        lo < hi,
    ensures
        (r, *final(rng)) == chacha_below(*old(rng), lo, hi),
        lo <= r < hi,
        chacha_seed(*final(rng)) == chacha_seed(*old(rng)),
        chacha_stream(*final(rng)) == chacha_stream(*old(rng)),
{
    rng.random_range(lo..hi)
}

/// The 32-byte key of a ChaCha8 generator: what `ChaCha8Rng::get_seed`
/// returns for it.
pub uninterp spec fn chacha_seed(rng: ChaCha8Rng) -> Seq<u8>;

/// The stream number of a ChaCha8 generator: what `ChaCha8Rng::get_stream`
/// returns for it.
pub uninterp spec fn chacha_stream(rng: ChaCha8Rng) -> u64;

/// How many 32-bit words a ChaCha8 generator has handed out since the
/// start of its stream: what `ChaCha8Rng::get_word_pos` returns for it.
pub uninterp spec fn chacha_word_pos(rng: ChaCha8Rng) -> u128;

/// Period of the word position: the block counter has 64 bits and a block
/// holds 16 words.
pub open spec fn word_pos_period() -> int {
    0x1_0000_0000_0000_0000_0
}

/// A ChaCha8 generator keyed by 32 bytes.
///
/// Calls `rand::SeedableRng::from_seed` for `ChaCha8Rng`, which never
/// fails. The new generator is keyed by `key`, runs on stream 0 and stands
/// at the start of that stream (word position 0). Which words it will yield
/// is left unsaid here.
#[verifier::external_body]
fn chacha_from_seed(key: [u8; 32]) -> (r: ChaCha8Rng)
    ensures
        chacha_seed(r) == key@,
        chacha_stream(r) == 0,
        chacha_word_pos(r) == 0,
{
    ChaCha8Rng::from_seed(key)
}

/// Draws one 32-bit word from `rng` and drops it.
///
/// Calls `rand::RngCore::next_u32`. The key and the stream number stay,
/// and the word position moves on by one, wrapping at the end of the 68-bit
/// stream. Which word was drawn is left unsaid here.
#[verifier::external_body]
fn skip_word(rng: &mut ChaCha8Rng)
    ensures
        chacha_seed(*final(rng)) == chacha_seed(*old(rng)),
        chacha_stream(*final(rng)) == chacha_stream(*old(rng)),
        chacha_word_pos(*final(rng)) as int == (chacha_word_pos(*old(rng)) as int + 1)
            % word_pos_period(),
{
    rng.next_u32();
}

/// The main random stream of a market: keyed by its stretched seed, at the
/// start of the stream.
pub fn market_stream(seed: SeedMarketTheory) -> (r: ChaCha8Rng)
    ensures
        chacha_seed(r) == expanded(seed),
        chacha_stream(r) == 0,
        chacha_word_pos(r) == 0,
{
    chacha_from_seed(seed.expand())
}

/// The main random stream of a market resumed at tick `tick`: the stream
/// of its seed with the first `tick % 4096` words skipped.
pub fn resumed_stream(seed: SeedMarketTheory, tick: u64) -> (r: ChaCha8Rng)
    ensures
        chacha_seed(r) == expanded(seed),
        chacha_stream(r) == 0,
        chacha_word_pos(r) == tick % 4096,
{
    let mut rng = market_stream(seed);
    let skip = tick % 4096;
    let mut k: u64 = 0;
    while k < skip
        invariant
            k <= skip,
            skip < 4096,
            chacha_seed(rng) == expanded(seed),
            chacha_stream(rng) == 0,
            chacha_word_pos(rng) == k,
        decreases skip - k,
    {
        skip_word(&mut rng);
        k += 1;
    }
    rng
}

/// The parameter stream of a fresh market: its state is the low 64 bits of
/// the seed, salted.
pub fn param_stream(seed: SeedMarketTheory) -> (r: SplitMix64)
    ensures
        r@ == seed.q_low ^ SCRAMBLING_SALT,
{
    let low = seed.as_u128() as u64;
    SplitMix64::new(low ^ SCRAMBLING_SALT)
}

/// The parameter stream of a market resumed at tick `tick`: the low 64 bits
/// of the seed mixed with the tick.
pub fn resumed_param_stream(seed: SeedMarketTheory, tick: u64) -> (r: SplitMix64)
    ensures
        r@ == seed.q_low ^ tick,
{
    let low = seed.as_u128() as u64;
    SplitMix64::new(low ^ tick)
}

} // verus!

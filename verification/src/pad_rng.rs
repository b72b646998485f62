//! The generators that a one-time pad is drawn from.
use rand::rngs::StdRng;
use rand::Rng;
use rand::SeedableRng;
use vstd::prelude::*;

verus! {

/// A seedable generator of pad bytes. Its whole future is a function of its
/// state, so that two generators in the same state yield the same pad.
pub trait PadRng: Sized + Send + Sync {
    /// The generator that a seed gives.
    spec fn seeded(seed: u64) -> Self;

    /// The next byte.
    spec fn byte(self) -> u8;

    /// The generator once it has yielded one byte.
    spec fn after_byte(self) -> Self;

    /// What filling a buffer of `n` bytes yields.
    spec fn bytes(self, n: nat) -> Seq<u8>;

    /// The generator once it has filled a buffer of `n` bytes.
    spec fn after_bytes(self, n: nat) -> Self;

    /// Filling a buffer yields as many bytes as the buffer holds.
    proof fn bytes_len(self, n: nat)
        ensures
            self.bytes(n).len() == n,
    ;

    /// Makes a generator out of a seed.
    fn from_u64_seed(seed: u64) -> (rng: Self)
        ensures
            rng == Self::seeded(seed),
    ;

    /// Draws one byte.
    fn draw(&mut self) -> (b: u8)
        ensures
            b == old(self).byte(),
            *final(self) == old(self).after_byte(),
    ;

    /// Fills a buffer.
    fn fill_buffer(&mut self, buf: &mut Vec<u8>)
        ensures
            final(buf)@ == old(self).bytes(old(buf)@.len()),
            *final(self) == old(self).after_bytes(old(buf)@.len()),
    ;
}

/// The standard generator of the `rand` crate.
#[verifier::external_type_specification]
#[verifier::external_body]
pub struct ExStdRng(rand::rngs::StdRng);

/// The generator that `StdRng::seed_from_u64` makes of a seed.
pub uninterp spec fn std_rng_seeded(seed: u64) -> StdRng;

/// What a generator has in store: the 32-bit word that it yields after `i` others.
pub uninterp spec fn std_rng_word(rng: StdRng, i: nat) -> u32;

/// The generator once it has yielded `n` words.
pub uninterp spec fn std_rng_after(rng: StdRng, n: nat) -> StdRng;

/// Byte `i` of a little-endian sequence of words.
pub open spec fn std_rng_word_byte(rng: StdRng, i: nat) -> u8 {
    let word = std_rng_word(rng, i / 4) as nat;
    (if i % 4 == 0 {
        word % 0x100
    } else if i % 4 == 1 {
        word / 0x100 % 0x100
    } else if i % 4 == 2 {
        word / 0x10000 % 0x100
    } else {
        word / 0x1000000 % 0x100
    }) as u8
}

/// How many words it takes to fill `n` bytes: the rest of the last one is dropped.
pub open spec fn words_for(n: nat) -> nat {
    (n + 3) / 4
}

/// Calls `StdRng::seed_from_u64`. The claim: the generator depends on the seed alone.
#[verifier::external_body]
fn std_rng_seed_from_u64(seed: u64) -> (rng: StdRng)
    ensures
        rng == std_rng_seeded(seed),
{
    StdRng::seed_from_u64(seed)
}

/// Calls `Rng::gen::<u8>` on a `StdRng`. The claim: the byte is the low byte of
/// the generator's next word, and that word is used up.
#[verifier::external_body]
fn std_rng_gen_u8(rng: &mut StdRng) -> (b: u8)
    ensures
        b == std_rng_word(*old(rng), 0) % 0x100,
        *final(rng) == std_rng_after(*old(rng), 1),
        forall|i: nat| #[trigger]
            std_rng_word(*final(rng), i) == std_rng_word(*old(rng), i + 1),
{
    rng.gen::<u8>()
}

/// Calls `Rng::fill` on a `StdRng` and a slice of bytes. The claim: the bytes
/// are the generator's next words, each in little-endian order, and the words
/// that were begun are used up.
#[verifier::external_body]
fn std_rng_fill(rng: &mut StdRng, buf: &mut Vec<u8>)
    ensures
        final(buf)@.len() == old(buf)@.len(),
        forall|i: int|
            0 <= i < final(buf)@.len() ==> #[trigger] final(buf)@[i] == std_rng_word_byte(
                *old(rng),
                i as nat,
            ),
        *final(rng) == std_rng_after(*old(rng), words_for(old(buf)@.len())),
        forall|i: nat| #[trigger]
            std_rng_word(*final(rng), i) == std_rng_word(
                *old(rng),
                i + words_for(old(buf)@.len()),
            ),
{
    rng.fill(&mut buf[..])
}

impl PadRng for StdRng {
    open spec fn seeded(seed: u64) -> Self {
        std_rng_seeded(seed)
    }

    open spec fn byte(self) -> u8 {
        (std_rng_word(self, 0) % 0x100) as u8
    }

    open spec fn after_byte(self) -> Self {
        std_rng_after(self, 1)
    }

    open spec fn bytes(self, n: nat) -> Seq<u8> {
        Seq::new(n, |i: int| std_rng_word_byte(self, i as nat))
    }

    open spec fn after_bytes(self, n: nat) -> Self {
        std_rng_after(self, words_for(n))
    }

    proof fn bytes_len(self, n: nat) {
    }

    fn from_u64_seed(seed: u64) -> (rng: Self) {
        std_rng_seed_from_u64(seed)
    }

    fn draw(&mut self) -> (b: u8) {
        std_rng_gen_u8(self)
    }

    fn fill_buffer(&mut self, buf: &mut Vec<u8>) {
        std_rng_fill(self, buf);
        assert(buf@ =~= old(self).bytes(old(buf)@.len()));
    }
}

} // verus!

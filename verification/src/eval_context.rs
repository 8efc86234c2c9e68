//! Deterministic randomness context handed to evaluators.
//!
//! An [`EvalContext`] carries a seed derived from the run seed and the sample
//! identifier, so evaluator randomness is reproducible and independent of the
//! order in which samples complete under concurrency.

use vstd::prelude::*;
use rand::SeedableRng;
use rand_chacha::ChaCha8Rng;
use crate::hashing::{ContentHasher, frame, le_bytes, push_le64, sha256_digest};
use crate::text::{chars_of, hex_seq, hex_digit_char};
use vstd::utf8::encode_utf8;

verus! {

/// The RNG type evaluators receive.
#[verifier::external_type_specification]
#[verifier::external_body]
pub struct ExChaCha8Rng(ChaCha8Rng);

/// Stable RNG algorithm used to seed evaluators, recorded in run provenance.
pub const RNG_ALGORITHM: &'static str = "rand_chacha:ChaCha8Rng";

/// Per-sample deterministic randomness handed to an evaluator.
#[derive(Debug, Clone, Copy)]
pub struct EvalContext {
    seed: u64,
}

/// The value of hexadecimal digit `c` (0 for a non-digit).
pub open spec fn hex_digit_value(c: char) -> nat {
    if '0' <= c && c <= '9' {
        (c as u32 - '0' as u32) as nat
    } else if 'a' <= c && c <= 'f' {
        (c as u32 - 'a' as u32 + 10) as nat
    } else if 'A' <= c && c <= 'F' {
        (c as u32 - 'A' as u32 + 10) as nat
    } else {
        0
    }
}

/// Whether `c` is a hexadecimal digit.
pub open spec fn is_hex_char(c: char) -> bool {
    ('0' <= c && c <= '9') || ('a' <= c && c <= 'f') || ('A' <= c && c <= 'F')
}

/// The big-endian value of a run of hexadecimal digits.
pub open spec fn hex_value(s: Seq<char>) -> nat
    decreases s.len(),
{
    if s.len() == 0 {
        0
    } else {
        hex_value(s.drop_last()) * 16 + hex_digit_value(s.last())
    }
}

/// `16^k`.
pub open spec fn pow16(k: nat) -> nat
    decreases k,
{
    if k == 0 { 1 } else { 16 * pow16((k - 1) as nat) }
}

/// The bytes of the tag `seed`.
pub open spec fn seed_tag() -> Seq<u8> {
    seq![115u8, 101u8, 101u8, 100u8]
}

/// The bytes of the tag `sample`.
pub open spec fn sample_tag() -> Seq<u8> {
    seq![115u8, 97u8, 109u8, 112u8, 108u8, 101u8]
}

/// The per-sample seed: the first 16 hexadecimal digits (the first 8 digest
/// bytes, big-endian) of the SHA-256 of the framed run seed and sample id.
pub open spec fn derived_seed(run_seed: u64, sample_id: Seq<char>) -> nat {
    hex_value(
        hex_seq(
            sha256_digest(
                frame(seed_tag(), le_bytes(run_seed as nat, 8)) + frame(
                    sample_tag(),
                    encode_utf8(sample_id),
                ),
            ),
        ).take(16),
    )
}

/// Every character of a hex rendering is a hexadecimal digit.
proof fn lemma_hex_seq_digits(b: Seq<u8>)
    ensures
        forall|i: int| 0 <= i < hex_seq(b).len() ==> is_hex_char(#[trigger] hex_seq(b)[i]),
    decreases b.len(),
{
    if b.len() > 0 {
        lemma_hex_seq_digits(b.drop_last());
        let h = hex_seq(b.drop_last());
        let x = b.last();
        assert(is_hex_char(hex_digit_char((x / 16) as nat)));
        assert(is_hex_char(hex_digit_char((x % 16) as nat)));
    }
}

/// The value of one hexadecimal digit.
fn digit_value(c: char) -> (v: u64)
    requires
        is_hex_char(c),
    ensures
        v == hex_digit_value(c),
        v < 16,
{
    if '0' <= c && c <= '9' {
        (c as u32 - '0' as u32) as u64
    } else if 'a' <= c && c <= 'f' {
        (c as u32 - 'a' as u32 + 10) as u64
    } else {
        (c as u32 - 'A' as u32 + 10) as u64
    }
}

/// Parses the first 16 characters of `s` as a big-endian hexadecimal number
/// (`u64::from_str_radix(&s[..16], 16)`); `None` when one is not a digit.
pub fn parse_hex16(s: &Vec<char>) -> (r: Option<u64>)
    requires
        s@.len() >= 16,
    ensures
        r is Some <==> (forall|i: int| 0 <= i < 16 ==> is_hex_char(#[trigger] s@[i])),
        r matches Some(v) ==> v == hex_value(s@.take(16)),
{
    let mut acc: u64 = 0;
    let mut i: usize = 0;
    proof {
        reveal_with_fuel(pow16, 17);
    }
    while i < 16
        invariant
            i <= 16,
            s@.len() >= 16,
            acc as nat == hex_value(s@.take(i as int)),
            (acc as nat) < pow16(i as nat),
            pow16(16) == 0x1_0000_0000_0000_0000,
            forall|k: int| 0 <= k < i ==> is_hex_char(#[trigger] s@[k]),
        decreases 16 - i,
    {
        let c = s[i];
        if !(('0' <= c && c <= '9') || ('a' <= c && c <= 'f') || ('A' <= c && c <= 'F')) {
            return None;
        }
        let d = digit_value(c);
        proof {
            assert(s@.take(i + 1).drop_last() == s@.take(i as int));
            let p = pow16(i as nat);
            assert(pow16((i + 1) as nat) == 16 * p);
            assert((acc as nat) * 16 + (d as nat) < 16 * p) by (nonlinear_arith)
                requires
                    (acc as nat) < p,
                    (d as nat) < 16,
            ;
            lemma_pow16_mono((i + 1) as nat, 16);
        }
        acc = acc * 16 + d;
        i = i + 1;
    }
    Some(acc)
}

/// `16^a <= 16^b` for `a <= b`.
proof fn lemma_pow16_mono(a: nat, b: nat)
    requires
        a <= b,
    ensures
        pow16(a) <= pow16(b),
    decreases b - a,
{
    if a < b {
        lemma_pow16_mono(a, (b - 1) as nat);
        assert(pow16(b) == 16 * pow16((b - 1) as nat));
    }
}

/// Folds the run seed and sample id with length-prefixed framing into a stable
/// `u64` seed.
fn derive_seed(run_seed: u64, sample_id: &str) -> (seed: u64)
    ensures
        seed as nat == derived_seed(run_seed, sample_id@),
{
    let mut hasher = ContentHasher::new();
    let seed_tag: Vec<u8> = vec![115u8, 101u8, 101u8, 100u8];
    let sample_tag: Vec<u8> = vec![115u8, 97u8, 109u8, 112u8, 108u8, 101u8];
    let mut seed_bytes: Vec<u8> = Vec::new();
    push_le64(&mut seed_bytes, run_seed);
    hasher.update_framed(seed_tag.as_slice(), seed_bytes.as_slice());
    hasher.update_framed(sample_tag.as_slice(), sample_id.as_bytes());
    let hex = hasher.finalize_hex();
    let chars = chars_of(hex.as_str());
    proof {
        assert(Seq::<u8>::empty() + frame(seed_tag@, seed_bytes@) == frame(seed_tag@, seed_bytes@));
        lemma_hex_seq_digits(sha256_digest(hasher@));
    }
    match parse_hex16(&chars) {
        Some(v) => v,
        None => run_seed,
    }
}

impl EvalContext {
    /// Creates a context whose RNG is seeded directly with `seed`.
    pub fn new(seed: u64) -> (c: Self)
        ensures
            c.seed() == seed,
    {
        EvalContext { seed }
    }

    /// Derives a per-sample context from the run seed and a sample identifier.
    ///
    /// The derivation folds both inputs with length-prefixed framing, so two
    /// runs with the same run seed and sample id produce the same per-sample
    /// seed regardless of dataset ordering or concurrency.
    pub fn for_sample(run_seed: u64, sample_id: &str) -> (c: Self)
        ensures
            c.seed() as nat == derived_seed(run_seed, sample_id@),
    {
        EvalContext { seed: derive_seed(run_seed, sample_id) }
    }

    /// The deterministic seed backing this context.
    pub closed spec fn spec_seed(&self) -> u64 {
        self.seed
    }

    /// The deterministic seed backing this context.
    #[verifier::when_used_as_spec(spec_seed)]
    pub fn seed(&self) -> (s: u64)
        ensures
            s == self.spec_seed(),
    {
        self.seed
    }

    /// Returns a fresh RNG seeded deterministically from [`EvalContext::seed`]:
    /// the generator `rand_chacha` builds from that seed, so contexts with the
    /// same seed hand out identical generators.
    pub fn rng(&self) -> (r: ChaCha8Rng)
        ensures
            r == chacha8_from_seed(self.spec_seed()),
    {
        seeded_chacha8(self.seed)
    }
}

/// The ChaCha8 generator that `SeedableRng::seed_from_u64` builds from
/// `seed`. `rand_core` documents the construction as value-stable: the same
/// seed always gives the same generator, hence the same stream.
pub uninterp spec fn chacha8_from_seed(seed: u64) -> ChaCha8Rng;

/// A ChaCha8 generator seeded from `seed` (wraps `SeedableRng::seed_from_u64`):
/// the generator named by [`chacha8_from_seed`]; its stream itself is not
/// stated.
#[verifier::external_body]
fn seeded_chacha8(seed: u64) -> (r: ChaCha8Rng)
    ensures
        r == chacha8_from_seed(seed),
{
    ChaCha8Rng::seed_from_u64(seed)
}

} // verus!

use sha2::Digest;
use rand::RngCore;
use rskit_bench::eval_context::{EvalContext, RNG_ALGORITHM};

#[test]
fn same_seed_yields_identical_sequence() {
    let ctx = EvalContext::new(7);
    let mut a = ctx.rng();
    let mut b = ctx.rng();
    assert_eq!(a.next_u64(), b.next_u64());
}

#[test]
fn per_sample_seeds_are_stable_and_distinct() {
    assert_eq!(
        EvalContext::for_sample(7, "alpha").seed(),
        EvalContext::for_sample(7, "alpha").seed()
    );
    assert_ne!(
        EvalContext::for_sample(7, "alpha").seed(),
        EvalContext::for_sample(7, "beta").seed()
    );
    assert_ne!(
        EvalContext::for_sample(7, "alpha").seed(),
        EvalContext::for_sample(8, "alpha").seed()
    );
}

#[test]
fn new_context_keeps_its_seed() {
    assert_eq!(EvalContext::new(42).seed(), 42);
    assert_eq!(RNG_ALGORITHM, "rand_chacha:ChaCha8Rng");
}

#[test]
fn per_sample_seed_is_the_leading_digest_digits() {
    let mut stream = Vec::new();
    for (tag, data) in [(&b"seed"[..], &7u64.to_le_bytes()[..]), (&b"sample"[..], &b"alpha"[..])] {
        stream.extend_from_slice(&(tag.len() as u64).to_le_bytes());
        stream.extend_from_slice(tag);
        stream.extend_from_slice(&(data.len() as u64).to_le_bytes());
        stream.extend_from_slice(data);
    }
    let digest = sha2::Sha256::digest(&stream);
    let mut expected = 0u64;
    for b in &digest[..8] {
        expected = (expected << 8) | u64::from(*b);
    }
    assert_eq!(EvalContext::for_sample(7, "alpha").seed(), expected);
}

#[test]
fn contexts_with_the_same_seed_hand_out_the_same_generator() {
    let mut a = EvalContext::new(7).rng();
    let mut b = EvalContext::new(7).rng();
    let mut c = EvalContext::new(8).rng();
    let (x, y, z) = (a.next_u64(), b.next_u64(), c.next_u64());
    assert_eq!(x, y);
    assert_ne!(x, z);
}
